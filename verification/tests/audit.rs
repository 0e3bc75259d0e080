//! Audit results and their consequences.

use ant_node::ids::{PeerId, XorName};
use ant_node::replication::audit::{
    audit_failure_clears_bootstrap_claim, audit_timer_fired, first_failed_key_label,
    handle_audit_result, observe_claim, AuditLoopPhase, AuditTickResult, FailureEvidence,
};
use ant_node::replication::sync_state::NeighborSyncState;
use ant_node::replication::types::{AuditFailureReason, BootstrapClaimObservation, TrustSignal};

const GRACE: u64 = 1_000;

fn peer(n: u8) -> PeerId {
    PeerId([n; 32])
}

#[test]
fn audit_timeout_preserves_active_bootstrap_claim() {
    assert!(!audit_failure_clears_bootstrap_claim(
        &AuditFailureReason::Timeout
    ));
}

#[test]
fn decoded_audit_failures_clear_active_bootstrap_claim() {
    for reason in [
        AuditFailureReason::MalformedResponse,
        AuditFailureReason::DigestMismatch,
        AuditFailureReason::KeyAbsent,
        AuditFailureReason::Rejected,
    ] {
        assert!(
            audit_failure_clears_bootstrap_claim(&reason),
            "decoded non-bootstrap failure {reason:?} should clear active claim"
        );
    }
}

#[test]
fn first_failed_key_label_truncates_to_16_hex_chars() {
    let mut key = [0u8; 32];
    key[0] = 0x18;
    key[7] = 0xff;
    for byte in &mut key[8..] {
        *byte = 0xAA;
    }
    let label = first_failed_key_label(&[key]);
    assert_eq!(label, "0x18000000000000ff");
    assert_eq!(label.len(), "0x".len() + 16);
}

#[test]
fn first_failed_key_label_falls_back_when_empty() {
    assert_eq!(first_failed_key_label(&[]), "0x");
}

#[test]
fn first_failed_key_label_uses_first_key_only() {
    let first = [0x11u8; 32];
    let second = [0x22u8; 32];
    assert_eq!(
        first_failed_key_label(&[first, second]),
        format!("0x{}", hex::encode(&first[..8]))
    );
}

fn failed(reason: AuditFailureReason, keys: Vec<XorName>) -> AuditTickResult {
    AuditTickResult::Failed {
        evidence: FailureEvidence::AuditFailure {
            challenged_peer: peer(1),
            confirmed_failed_keys: keys,
            reason,
        },
    }
}

#[test]
fn passed_audit_is_rewarded_and_ends_the_claim() {
    let mut state = NeighborSyncState::new_cycle(Vec::new());
    assert!(!observe_claim(&mut state, &peer(1), 0, GRACE));
    let passed = AuditTickResult::Passed {
        challenged_peer: peer(1),
        keys_checked: 3,
    };
    let reaction = handle_audit_result(&mut state, &passed, 10, GRACE);
    let report = reaction.trust.unwrap();
    assert_eq!(report.signal, TrustSignal::Success);
    assert_eq!(report.peer.0, peer(1).0);
    assert!(reaction.first_failed_key.is_none());
    // The claim is over, so the next one is a repetition.
    assert_eq!(
        state.observe_bootstrap_claim(&peer(1), 20, GRACE),
        BootstrapClaimObservation::Repeated { first_seen: 0 }
    );
}

#[test]
fn failed_audit_is_punished_with_a_label() {
    let mut state = NeighborSyncState::new_cycle(Vec::new());
    let result = failed(AuditFailureReason::DigestMismatch, vec![[0xab; 32]]);
    let reaction = handle_audit_result(&mut state, &result, 10, GRACE);
    assert_eq!(reaction.trust.unwrap().signal, TrustSignal::AuditFailure);
    assert_eq!(
        reaction.first_failed_key.as_deref(),
        Some("0xabababababababab")
    );
}

#[test]
fn timeout_keeps_the_claim_and_a_decoded_failure_ends_it() {
    let mut state = NeighborSyncState::new_cycle(Vec::new());
    assert!(!observe_claim(&mut state, &peer(1), 0, GRACE));
    let timeout = failed(AuditFailureReason::Timeout, vec![[1; 32]]);
    handle_audit_result(&mut state, &timeout, 10, GRACE);
    assert_eq!(
        state.observe_bootstrap_claim(&peer(1), 20, GRACE),
        BootstrapClaimObservation::WithinGrace { first_seen: 0 }
    );
    let rejected = failed(AuditFailureReason::Rejected, vec![[1; 32]]);
    handle_audit_result(&mut state, &rejected, 30, GRACE);
    assert_eq!(
        state.observe_bootstrap_claim(&peer(1), 40, GRACE),
        BootstrapClaimObservation::Repeated { first_seen: 0 }
    );
}

#[test]
fn bootstrap_claim_is_abuse_only_past_grace() {
    let mut state = NeighborSyncState::new_cycle(Vec::new());
    let claim = AuditTickResult::BootstrapClaim { peer: peer(1) };
    assert!(handle_audit_result(&mut state, &claim, 0, GRACE).trust.is_none());
    assert!(handle_audit_result(&mut state, &claim, GRACE, GRACE).trust.is_none());
    let reaction = handle_audit_result(&mut state, &claim, GRACE + 1, GRACE);
    assert_eq!(reaction.trust.unwrap().signal, TrustSignal::Failure);
}

#[test]
fn quiet_results_have_no_consequence() {
    let mut state = NeighborSyncState::new_cycle(Vec::new());
    for result in [
        AuditTickResult::Idle,
        AuditTickResult::InsufficientKeys,
        AuditTickResult::Failed {
            evidence: FailureEvidence::Other,
        },
    ] {
        let reaction = handle_audit_result(&mut state, &result, 10, GRACE);
        assert!(reaction.trust.is_none());
        assert!(reaction.first_failed_key.is_none());
    }
}

#[test]
fn audits_wait_for_the_drain() {
    let (phase, runs) = audit_timer_fired(AuditLoopPhase::AwaitDrain, false);
    assert!(!runs);
    let (phase, runs) = audit_timer_fired(phase, true);
    assert!(runs);
    let (_, runs) = audit_timer_fired(phase, false);
    assert!(runs);
}
