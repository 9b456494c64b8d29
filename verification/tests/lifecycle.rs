//! End-to-end lifecycle scenarios, driven the way the host would drive the
//! component: lifecycle callbacks in, decisions and armed deadlines out.

use blacklist_reputation::model::AgreementEvent;
use blacklist_reputation::party::PartyId;
use blacklist_reputation::reputation::{BlacklistReputation, BlacklistReputationsConfig, Decision};

fn party(name: &str) -> PartyId {
    PartyId::new(name.to_string())
}

fn fresh(timeout_ms: u64) -> BlacklistReputation {
    let snapshot: Vec<PartyId> = Vec::new();
    BlacklistReputation::new(BlacklistReputationsConfig { payment_timeout: timeout_ms }, &snapshot)
}

fn accepts(rep: &BlacklistReputation, name: &str) -> bool {
    matches!(rep.negotiate_step(&party(name)), Decision::Accept)
}

#[test]
fn evaluate_rejects_exactly_the_blacklisted() {
    let snapshot = vec![party("badpayer")];
    let rep = BlacklistReputation::new(
        BlacklistReputationsConfig { payment_timeout: 100 },
        &snapshot,
    );
    match rep.negotiate_step(&party("badpayer")) {
        Decision::Reject { reason, is_final } => {
            assert!(is_final);
            assert_eq!(reason, "Node is blacklisted due to not paying Invoices.");
        }
        Decision::Accept => panic!("blacklisted party was accepted"),
    }
    assert!(accepts(&rep, "goodpayer"));
}

#[test]
fn paid_before_deadline_is_never_blacklisted() {
    // timeout = 100; approved at 0, terminated at 10, paid at 50: by the
    // time the deadline fires the entry is gone and the party stays
    // acceptable.
    let mut rep = fresh(100);
    rep.on_agreement_approved("A1".to_string(), party("partyX"), 0);
    let armed = rep.on_agreement_terminated(&"A1".to_string(), 10);
    let armed = armed.expect("termination of a tracked contract must arm a deadline");
    assert_eq!(armed.fire_at, 110);
    assert_eq!(armed.agreement_id, "A1");
    rep.on_agreement_event(&"A1".to_string(), &AgreementEvent::InvoicePaid);
    // The armed deadline fires later regardless; it must lose the race.
    assert!(rep.on_deadline_expired(&"A1".to_string()).is_none());
    assert!(accepts(&rep, "partyX"));
    assert!(!rep.state.is_tracked(&"A1".to_string()));
}

#[test]
fn no_settlement_blacklists_on_expiry() {
    // Same setup, but no settlement event: the fired deadline blacklists
    // the party and the contract is no longer tracked.
    let mut rep = fresh(100);
    rep.on_agreement_approved("A1".to_string(), party("partyX"), 0);
    rep.on_agreement_terminated(&"A1".to_string(), 10)
        .expect("termination of a tracked contract must arm a deadline");
    let hit = rep.on_deadline_expired(&"A1".to_string());
    assert_eq!(hit.expect("expiry must report the blacklisted party").name, "partyX");
    assert!(!accepts(&rep, "partyX"));
    assert!(!rep.state.is_tracked(&"A1".to_string()));
    // A repeated fire for the same contract is a no-op.
    assert!(rep.on_deadline_expired(&"A1".to_string()).is_none());
    assert_eq!(rep.snapshot_blacklist().len(), 1);
}

#[test]
fn rejected_invoice_blacklists_immediately() {
    let mut rep = fresh(100);
    rep.on_agreement_approved("A1".to_string(), party("partyX"), 0);
    rep.on_agreement_terminated(&"A1".to_string(), 10)
        .expect("termination of a tracked contract must arm a deadline");
    rep.on_agreement_event(&"A1".to_string(), &AgreementEvent::InvoiceRejected);
    assert!(!accepts(&rep, "partyX"));
    // The still-armed deadline fires later as a no-op.
    assert!(rep.on_deadline_expired(&"A1".to_string()).is_none());
    assert_eq!(rep.snapshot_blacklist().len(), 1);
}

#[test]
fn untracked_settlement_event_is_noop() {
    // A rejected invoice for a contract that was never approved must not
    // blacklist anybody.
    let mut rep = fresh(100);
    rep.on_agreement_event(&"A2".to_string(), &AgreementEvent::InvoiceRejected);
    assert!(accepts(&rep, "partyX"));
    assert!(rep.snapshot_blacklist().is_empty());
}

#[test]
fn untracked_termination_arms_nothing() {
    let mut rep = fresh(100);
    assert!(rep.on_agreement_terminated(&"A9".to_string(), 5).is_none());
    // An expiry for it later is a no-op too: nothing was ever tracked.
    assert!(rep.on_deadline_expired(&"A9".to_string()).is_none());
    assert!(rep.snapshot_blacklist().is_empty());
}

#[test]
fn other_event_kinds_are_ignored() {
    let mut rep = fresh(100);
    rep.on_agreement_approved("A1".to_string(), party("partyX"), 0);
    rep.on_agreement_event(&"A1".to_string(), &AgreementEvent::Other);
    assert!(rep.state.is_tracked(&"A1".to_string()));
    assert!(accepts(&rep, "partyX"));
}

#[test]
fn two_unpaid_contracts_blacklist_once() {
    // The blacklist has set semantics: the same party failing twice is
    // still one snapshot entry.
    let mut rep = fresh(100);
    rep.on_agreement_approved("A1".to_string(), party("partyX"), 0);
    rep.on_agreement_approved("A2".to_string(), party("partyX"), 0);
    rep.on_agreement_terminated(&"A1".to_string(), 10).unwrap();
    rep.on_agreement_terminated(&"A2".to_string(), 20).unwrap();
    assert!(rep.on_deadline_expired(&"A1".to_string()).is_some());
    assert!(rep.on_deadline_expired(&"A2".to_string()).is_some());
    assert!(!accepts(&rep, "partyX"));
    assert_eq!(rep.snapshot_blacklist().len(), 1);
}

#[test]
fn reapproval_overwrites_the_tracked_entry() {
    let mut rep = fresh(100);
    rep.on_agreement_approved("A1".to_string(), party("first"), 0);
    rep.on_agreement_approved("A1".to_string(), party("second"), 1);
    rep.on_agreement_terminated(&"A1".to_string(), 10).unwrap();
    let hit = rep.on_deadline_expired(&"A1".to_string()).unwrap();
    assert_eq!(hit.name, "second");
    assert!(accepts(&rep, "first"));
    assert!(!accepts(&rep, "second"));
}
