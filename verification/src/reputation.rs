//! The reputation component: decision point plus lifecycle entry points.
//!
//! The host calls [`BlacklistReputation::negotiate_step`] on every
//! negotiation round and the `on_*` methods on lifecycle events. Time and
//! timers belong to the host: termination hands back an [`ArmedDeadline`]
//! that the host schedules, and when it fires the host calls
//! [`BlacklistReputation::on_deadline_expired`]. Whichever of settlement,
//! rejection or deadline expiry reaches the store first removes the tracked
//! entry; the others are guaranteed no-ops.

use vstd::prelude::*;

use crate::model::{
    event_model, load_model, mark_terminated_model, resolve_model, track_model, AgreementEvent,
    Outcome,
};
use crate::party::PartyId;
use crate::store::{party_views, BlacklistState};

verus! {

broadcast use vstd::string::to_string_from_display_ensures_for_str;

/// Recognized configuration of the component.
#[derive(Clone, Copy)]
pub struct BlacklistReputationsConfig {
    /// How long after contract termination a counterparty has to settle
    /// before being blacklisted, in milliseconds.
    pub payment_timeout: u64,
}

/// The decision returned for one negotiation round.
pub enum Decision {
    /// The counterparty is acceptable; negotiation goes on.
    Accept,
    /// The counterparty is refused. A final rejection ends the negotiation
    /// for good.
    Reject { reason: String, is_final: bool },
}

/// The human-readable reason attached to a rejection.
pub open spec fn reject_reason_text() -> Seq<char> {
    "Node is blacklisted due to not paying Invoices."@
}

/// A deferred action the host must schedule: at `fire_at` on its monotonic
/// clock (milliseconds), call [`BlacklistReputation::on_deadline_expired`]
/// with `agreement_id`. There is no cancel operation: a deadline whose
/// contract was already resolved fires as a no-op.
pub struct ArmedDeadline {
    pub agreement_id: String,
    pub node: PartyId,
    pub fire_at: u64,
}

/// Reputation component that blacklists a counterparty when it does not pay
/// an invoice within the configured timeout after contract termination.
pub struct BlacklistReputation {
    pub config: BlacklistReputationsConfig,
    pub state: BlacklistState,
}

impl BlacklistReputation {
    /// The component's invariant: the store is well-formed.
    pub open spec fn wf(&self) -> bool {
        self.state.wf()
    }

    /// A ready component: the snapshot's parties are blacklisted, no
    /// contract is tracked yet.
    pub fn new(config: BlacklistReputationsConfig, snapshot: &Vec<PartyId>) -> (r:
        BlacklistReputation)
        ensures
            r.wf(),
            r.config == config,
            r.state@ == load_model(party_views(snapshot@)),
    {
        BlacklistReputation { config, state: BlacklistState::load_blacklist(snapshot) }
    }

    /// The decision point: reject, finally, exactly the parties currently
    /// blacklisted. No side effects; the decision is a function of the
    /// current blacklist alone.
    pub fn negotiate_step(&self, issuer: &PartyId) -> (d: Decision)
        ensures
            self.state@.blacklist.contains(issuer@) ==> (d matches Decision::Reject {
                reason,
                is_final,
            } && reason@ == reject_reason_text() && is_final),
            !self.state@.blacklist.contains(issuer@) ==> d == Decision::Accept,
    {
        if self.state.is_blacklisted(issuer) {
            Decision::Reject {
                reason: "Node is blacklisted due to not paying Invoices.".to_string(),
                is_final: true,
            }
        } else {
            Decision::Accept
        }
    }

    /// Contract approval: start tracking the contract. Re-approval of the
    /// same id overwrites the old entry.
    pub fn on_agreement_approved(&mut self, agreement_id: String, node: PartyId, signed: i64)
        requires
            old(self).wf(),
        ensures
            final(self).wf(),
            final(self).config == old(self).config,
            final(self).state@ == track_model(
                old(self).state@,
                agreement_id@,
                node@,
                signed as int,
            ),
    {
        self.state.track(agreement_id, node, signed);
    }

    /// Contract termination: if the contract is tracked, record the
    /// termination instant and hand back the one deadline the host must
    /// arm, `payment_timeout` after `now`. An unknown contract is a silent
    /// no-op and arms nothing.
    pub fn on_agreement_terminated(&mut self, agreement_id: &String, now: u64) -> (r: Option<
        ArmedDeadline,
    >)
        requires
            old(self).wf(),
            now + old(self).config.payment_timeout <= u64::MAX,
        ensures
            final(self).wf(),
            final(self).config == old(self).config,
            final(self).state@ == mark_terminated_model(old(self).state@, agreement_id@, now as int),
            match r {
                Some(a) => old(self).state@.agreements.contains_key(agreement_id@)
                    && a.agreement_id@ == agreement_id@
                    && a.node@ == old(self).state@.agreements[agreement_id@].node
                    && a.fire_at == now + old(self).config.payment_timeout,
                None => !old(self).state@.agreements.contains_key(agreement_id@),
            },
    {
        match self.state.mark_terminated(agreement_id, now) {
            Some(node) => Some(
                ArmedDeadline {
                    agreement_id: agreement_id.clone(),
                    node,
                    fire_at: now + self.config.payment_timeout,
                },
            ),
            None => None,
        }
    }

    /// The armed deadline fired: if the contract is still tracked, no
    /// settlement arrived in time — remove it and blacklist its
    /// counterparty, returned for the record. If it was already resolved,
    /// this is the losing side of the race and nothing happens.
    pub fn on_deadline_expired(&mut self, agreement_id: &String) -> (r: Option<PartyId>)
        requires
            old(self).wf(),
        ensures
            final(self).wf(),
            final(self).config == old(self).config,
            final(self).state@ == resolve_model(
                old(self).state@,
                agreement_id@,
                Outcome::DeadlineExpired,
            ),
            match r {
                Some(p) => old(self).state@.agreements.contains_key(agreement_id@)
                    && p@ == old(self).state@.agreements[agreement_id@].node
                    && final(self).state@.blacklist.contains(p@),
                None => !old(self).state@.agreements.contains_key(agreement_id@),
            },
    {
        let party = self.state.tracked_party(agreement_id);
        let removed = self.state.resolve(agreement_id, Outcome::DeadlineExpired);
        if removed {
            party
        } else {
            None
        }
    }

    /// A settlement notification: a paid invoice drops the tracked
    /// contract, a rejected invoice drops it and blacklists its
    /// counterparty at once; any other event kind, and any event for an
    /// unknown contract, is ignored.
    pub fn on_agreement_event(&mut self, agreement_id: &String, event: &AgreementEvent)
        requires
            old(self).wf(),
        ensures
            final(self).wf(),
            final(self).config == old(self).config,
            final(self).state@ == event_model(old(self).state@, agreement_id@, *event),
    {
        match event {
            AgreementEvent::InvoicePaid => {
                self.state.resolve(agreement_id, Outcome::Settled);
            },
            AgreementEvent::InvoiceRejected => {
                self.state.resolve(agreement_id, Outcome::Rejected);
            },
            AgreementEvent::Other => {},
        }
    }

    /// The blacklist as a flat list for the shutdown snapshot; the host
    /// persists it and feeds it back to [`BlacklistReputation::new`] at the
    /// next start.
    pub fn snapshot_blacklist(&self) -> (r: Vec<PartyId>)
        ensures
            party_views(r@) == self.state.blacklist_seq(),
            party_views(r@).to_set() == self.state@.blacklist,
    {
        self.state.snapshot_blacklist()
    }
}

} // verus!
