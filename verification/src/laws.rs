//! Laws of the contract lifecycle, proved of the model transitions.
//!
//! Every exec operation's contract equates its effect with one of the
//! transition functions of [`crate::model`]; the lemmas here therefore
//! carry over to any interleaving of calls the host makes.

use vstd::prelude::*;

use crate::model::{
    load_model, mark_terminated_model, resolve_model, track_model, AgreementInfo, Outcome,
    StoreModel,
};
use crate::store::BlacklistState;

verus! {

/// Resolving a contract that is not tracked — never approved, or already
/// removed by whichever of settlement, rejection and deadline expiry won
/// the race — changes nothing: no removal and no blacklisting, whatever
/// the outcome. This is the implicit cancellation mechanism: the losers of
/// the race are guaranteed no-ops.
pub proof fn lemma_untracked_resolve_is_noop(m: StoreModel, id: Seq<char>, outcome: Outcome)
    requires
        !m.agreements.contains_key(id),
    ensures
        resolve_model(m, id, outcome) == m,
{
}

/// Terminating a contract that is not tracked changes nothing; by the
/// contract of `on_agreement_terminated` no deadline is armed for it
/// either.
pub proof fn lemma_untracked_termination_is_noop(m: StoreModel, id: Seq<char>, now: int)
    requires
        !m.agreements.contains_key(id),
    ensures
        mark_terminated_model(m, id, now) == m,
{
}

/// A resolution can only enlarge the blacklist while its contract is
/// tracked; a party is never blacklisted on account of a contract the
/// store does not hold.
pub proof fn lemma_blacklist_needs_tracking(m: StoreModel, id: Seq<char>, outcome: Outcome)
    ensures
        resolve_model(m, id, outcome).blacklist != m.blacklist ==> m.agreements.contains_key(id),
{
}

/// After approval and then termination of the same contract, in that
/// order, the contract is eligible: it is tracked, its termination instant
/// is recorded, and a deadline expiry from here blacklists exactly its
/// counterparty.
pub proof fn lemma_approved_then_terminated_is_eligible(
    m: StoreModel,
    id: Seq<char>,
    node: Seq<char>,
    signed: int,
    now: int,
)
    ensures
        ({
            let m1 = mark_terminated_model(track_model(m, id, node, signed), id, now);
            &&& m1.agreements.contains_key(id)
            &&& m1.agreements[id].node == node
            &&& m1.agreements[id].terminated == Some(now)
            &&& resolve_model(m1, id, Outcome::DeadlineExpired).blacklist == m1.blacklist.insert(
                node,
            )
        }),
{
}

/// Approval restarts the per-contract machine: whatever happened to the id
/// before, right after approval the entry is fresh and unterminated, so
/// the contract is not yet eligible again.
pub proof fn lemma_approval_restarts_tracking(
    m: StoreModel,
    id: Seq<char>,
    node: Seq<char>,
    signed: int,
)
    ensures
        track_model(m, id, node, signed).agreements[id]
            == (AgreementInfo { node, signed, terminated: None }),
{
}

/// A settlement observed while the contract is still tracked — in
/// particular, strictly before the armed deadline fires — removes the
/// entry without touching the blacklist, and the later deadline expiry is
/// a complete no-op: the entry is removed exactly once and the party is
/// never blacklisted for this contract.
pub proof fn lemma_settlement_beats_deadline(m: StoreModel, id: Seq<char>)
    requires
        m.agreements.contains_key(id),
    ensures
        ({
            let m1 = resolve_model(m, id, Outcome::Settled);
            &&& m1.blacklist == m.blacklist
            &&& !m1.agreements.contains_key(id)
            &&& resolve_model(m1, id, Outcome::DeadlineExpired) == m1
        }),
{
}

/// A deadline expiry on a still-tracked contract blacklists its
/// counterparty exactly once: the entry is removed, a repeated expiry for
/// the same contract changes nothing, and blacklisting the party again
/// adds nothing (membership is binary).
pub proof fn lemma_deadline_blacklists_once(m: StoreModel, id: Seq<char>)
    requires
        m.agreements.contains_key(id),
    ensures
        ({
            let m1 = resolve_model(m, id, Outcome::DeadlineExpired);
            &&& m1.blacklist.contains(m.agreements[id].node)
            &&& !m1.agreements.contains_key(id)
            &&& resolve_model(m1, id, Outcome::DeadlineExpired) == m1
            &&& m1.blacklist.insert(m.agreements[id].node) == m1.blacklist
        }),
{
    let m1 = resolve_model(m, id, Outcome::DeadlineExpired);
    assert(m1.blacklist.insert(m.agreements[id].node) =~= m1.blacklist);
}

/// An invoice rejection on a still-tracked contract blacklists its
/// counterparty immediately, independent of any armed deadline; the
/// later-firing deadline for the same contract is a no-op.
pub proof fn lemma_rejection_blacklists_immediately(m: StoreModel, id: Seq<char>)
    requires
        m.agreements.contains_key(id),
    ensures
        ({
            let m1 = resolve_model(m, id, Outcome::Rejected);
            &&& m1.blacklist.contains(m.agreements[id].node)
            &&& !m1.agreements.contains_key(id)
            &&& resolve_model(m1, id, Outcome::DeadlineExpired) == m1
        }),
{
}

/// Snapshot round trip: a fresh instance loaded from the snapshot a store
/// hands out (`snapshot_blacklist` yields exactly `blacklist_seq`)
/// reproduces the same blacklist membership, with no contract tracked.
pub proof fn lemma_snapshot_round_trip(s: BlacklistState)
    ensures
        load_model(s.blacklist_seq()).blacklist == s@.blacklist,
        load_model(s.blacklist_seq()).agreements == Map::<Seq<char>, AgreementInfo>::empty(),
{
    assert(load_model(s.blacklist_seq()).agreements =~= Map::<Seq<char>, AgreementInfo>::empty());
}

} // verus!
