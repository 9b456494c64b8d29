//! Mathematical model of the reputation store and its transitions.
//!
//! Every mutating operation of the executable store is specified as one of
//! the transition functions below, over a [`StoreModel`]: a set of
//! blacklisted parties and a map from contract id to what is remembered of a
//! tracked contract. The laws about the lifecycle (a party is blacklisted
//! only after approval and termination, a settlement observed before the
//! deadline prevents blacklisting, resolution happens exactly once) are
//! proved of these transitions.

use vstd::prelude::*;

verus! {

/// What the store remembers about one tracked contract.
#[verifier::ext_equal]
pub struct AgreementInfo {
    /// The counterparty that signed the contract.
    pub node: Seq<char>,
    /// When the contract was signed (milliseconds since an epoch).
    pub signed: int,
    /// When the contract was terminated, if it has been (milliseconds on the
    /// host's monotonic clock), `None` while it is still running.
    pub terminated: Option<int>,
}

/// The whole state the library is responsible for: the blacklist and the
/// table of tracked contracts.
#[verifier::ext_equal]
pub struct StoreModel {
    pub blacklist: Set<Seq<char>>,
    pub agreements: Map<Seq<char>, AgreementInfo>,
}

/// How a tracked contract leaves the table. Exactly one of these wins for a
/// given contract; the table entry is the arbitration point.
pub enum Outcome {
    /// The obligation was honoured: the contract is dropped, nobody is
    /// blacklisted.
    Settled,
    /// The obligation was explicitly refused: the counterparty is
    /// blacklisted at once.
    Rejected,
    /// The payment window elapsed with no settlement: the counterparty is
    /// blacklisted.
    DeadlineExpired,
}

/// Whether an outcome blacklists the counterparty of the resolved contract.
pub open spec fn outcome_blacklists(outcome: Outcome) -> bool {
    match outcome {
        Outcome::Settled => false,
        Outcome::Rejected => true,
        Outcome::DeadlineExpired => true,
    }
}

/// A settlement-related notification arriving after a contract's
/// termination. Anything besides a paid or a rejected invoice is ignored.
pub enum AgreementEvent {
    /// The invoice for the contract was paid.
    InvoicePaid,
    /// The invoice for the contract was explicitly rejected.
    InvoiceRejected,
    /// Any other notification kind.
    Other,
}

/// What a settlement notification does to the store.
pub open spec fn event_model(m: StoreModel, id: Seq<char>, e: AgreementEvent) -> StoreModel {
    match e {
        AgreementEvent::InvoicePaid => resolve_model(m, id, Outcome::Settled),
        AgreementEvent::InvoiceRejected => resolve_model(m, id, Outcome::Rejected),
        AgreementEvent::Other => m,
    }
}

/// Contract approval: the contract becomes tracked, not yet terminated.
/// Re-approval of an id overwrites the old entry (idempotent re-approval).
pub open spec fn track_model(m: StoreModel, id: Seq<char>, node: Seq<char>, signed: int) -> StoreModel {
    StoreModel {
        agreements: m.agreements.insert(
            id,
            AgreementInfo { node, signed, terminated: None },
        ),
        ..m
    }
}

/// Contract termination: if the contract is still tracked, record the
/// termination instant; an unknown contract is left alone.
pub open spec fn mark_terminated_model(m: StoreModel, id: Seq<char>, now: int) -> StoreModel {
    if m.agreements.contains_key(id) {
        StoreModel {
            agreements: m.agreements.insert(
                id,
                AgreementInfo { terminated: Some(now), ..m.agreements[id] },
            ),
            ..m
        }
    } else {
        m
    }
}

/// Resolution: remove the contract if it is still tracked, and blacklist its
/// counterparty when the outcome calls for it. Resolving a contract that is
/// no longer tracked changes nothing: this is what makes every resolution
/// path (settlement, rejection, deadline expiry) safe to race.
pub open spec fn resolve_model(m: StoreModel, id: Seq<char>, outcome: Outcome) -> StoreModel {
    if m.agreements.contains_key(id) {
        StoreModel {
            agreements: m.agreements.remove(id),
            blacklist: if outcome_blacklists(outcome) {
                m.blacklist.insert(m.agreements[id].node)
            } else {
                m.blacklist
            },
        }
    } else {
        m
    }
}

/// The state a fresh instance starts from: the parties of the loaded
/// snapshot are blacklisted, no contract is tracked.
pub open spec fn load_model(snapshot: Seq<Seq<char>>) -> StoreModel {
    StoreModel { blacklist: snapshot.to_set(), agreements: Map::empty() }
}

} // verus!
