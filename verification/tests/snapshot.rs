//! Snapshot persistence: what `snapshot_blacklist` hands out reproduces
//! the same membership when loaded into a fresh instance.

use blacklist_reputation::model::AgreementEvent;
use blacklist_reputation::party::PartyId;
use blacklist_reputation::reputation::{BlacklistReputation, BlacklistReputationsConfig, Decision};

fn party(name: &str) -> PartyId {
    PartyId::new(name.to_string())
}

fn config() -> BlacklistReputationsConfig {
    BlacklistReputationsConfig { payment_timeout: 100 }
}

fn rejects(rep: &BlacklistReputation, name: &str) -> bool {
    matches!(
        rep.negotiate_step(&party(name)),
        Decision::Reject { is_final: true, .. }
    )
}

#[test]
fn snapshot_round_trip_keeps_membership() {
    let mut rep = BlacklistReputation::new(config(), &Vec::new());
    rep.on_agreement_approved("A1".to_string(), party("alpha"), 0);
    rep.on_agreement_terminated(&"A1".to_string(), 10).unwrap();
    rep.on_deadline_expired(&"A1".to_string()).unwrap();
    rep.on_agreement_approved("A2".to_string(), party("beta"), 0);
    rep.on_agreement_event(&"A2".to_string(), &AgreementEvent::InvoiceRejected);

    let snapshot = rep.snapshot_blacklist();
    assert_eq!(snapshot.len(), 2);

    let reloaded = BlacklistReputation::new(config(), &snapshot);
    assert!(rejects(&reloaded, "alpha"));
    assert!(rejects(&reloaded, "beta"));
    assert!(!rejects(&reloaded, "gamma"));
}

#[test]
fn loading_deduplicates_the_snapshot() {
    // A persisted list that names a party twice still yields binary
    // membership and a single entry in the next snapshot.
    let snapshot = vec![party("alpha"), party("alpha"), party("beta")];
    let rep = BlacklistReputation::new(config(), &snapshot);
    assert!(rejects(&rep, "alpha"));
    assert!(rejects(&rep, "beta"));
    let out = rep.snapshot_blacklist();
    assert_eq!(out.len(), 2);
}

#[test]
fn fresh_instance_tracks_nothing() {
    let rep = BlacklistReputation::new(config(), &Vec::new());
    assert!(!rep.state.is_tracked(&"A1".to_string()));
    assert!(rep.snapshot_blacklist().is_empty());
}
