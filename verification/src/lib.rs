//! Reputation-tracking decision point for a negotiation pipeline.
//!
//! The library decides whether a counterparty should be rejected outright,
//! and autonomously blacklists parties that fail to settle a financial
//! obligation within a deadline after a contract ends. The in-memory store,
//! the per-contract lifecycle state machine and the decision rule are all
//! verified; the host process supplies time, timers and persistence I/O and
//! calls back in with plain values.

pub mod laws;
pub mod model;
pub mod party;
pub mod reputation;
pub mod store;
