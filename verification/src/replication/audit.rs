//! Reacting to storage audits.

use crate::ids::{PeerId, XorName};
use crate::replication::sync_state::{
    lemma_claim_cases, lemma_records_of_a_peer, NeighborSyncState, SyncModel,
};
use crate::replication::types::{
    AuditFailureReason, BootstrapClaimObservation, TrustReport, TrustSignal,
};
use crate::seqs::lemma_push_contains;
use crate::text::{encode_hex, hex_chars, join, lemma_hex_digits_of_each_byte};
use vstd::prelude::*;

verus! {

/// What a failed audit is known by.
#[derive(Debug)]
pub enum FailureEvidence {
    /// A peer failed to prove that it stores records.
    AuditFailure {
        /// The peer.
        challenged_peer: PeerId,
        /// Records it failed to prove.
        confirmed_failed_keys: Vec<XorName>,
        /// Why the audit failed.
        reason: AuditFailureReason,
    },
    /// Evidence of another kind, which is of no concern here.
    Other,
}

/// Result of one audit tick.
#[derive(Debug)]
pub enum AuditTickResult {
    /// The peer proved that it stores the records.
    Passed {
        /// The peer.
        challenged_peer: PeerId,
        /// Number of records checked.
        keys_checked: usize,
    },
    /// The audit failed.
    Failed {
        /// What is known.
        evidence: FailureEvidence,
    },
    /// The peer says that it is bootstrapping.
    BootstrapClaim {
        /// The peer.
        peer: PeerId,
    },
    /// No audit was due.
    Idle,
    /// Too few records to audit.
    InsufficientKeys,
}

/// Label of a failed record: the first eight bytes of the first address, in
/// hexadecimal.
pub open spec fn failed_key_label(keys: Seq<XorName>) -> Seq<char> {
    if keys.len() == 0 {
        "0x"@
    } else {
        "0x"@ + hex_chars(keys[0]@.subrange(0, 8))
    }
}

/// Format the first failed record as a short label for correlating log lines
/// across hosts. Without a failed record the label is the bare prefix.
pub fn first_failed_key_label(confirmed_failed_keys: &[XorName]) -> (label: String)
    ensures
        label@ == failed_key_label(confirmed_failed_keys@),
{
    if confirmed_failed_keys.len() == 0 {
        return "0x".to_owned();
    }
    let key = confirmed_failed_keys[0];
    let prefix = vstd::slice::slice_subrange(key.as_slice(), 0, 8);
    join("0x", encode_hex(prefix).as_str())
}

/// The label of a failed record is the prefix and sixteen digits, and depends
/// on the first eight bytes of the first address only.
pub proof fn lemma_label_shape(keys: Seq<XorName>, others: Seq<XorName>)
    requires
        keys.len() > 0,
    ensures
        failed_key_label(keys).len() == 2 + 16,
        others.len() > 0 && others[0]@.subrange(0, 8) == keys[0]@.subrange(0, 8)
            ==> failed_key_label(others) == failed_key_label(keys),
{
    reveal_strlit("0x");
}

/// Whether a failed audit shows that the peer is not bootstrapping: any answer
/// does, silence does not.
pub fn audit_failure_clears_bootstrap_claim(reason: &AuditFailureReason) -> (r: bool)
    ensures
        r == !(*reason is Timeout),
{
    match reason {
        AuditFailureReason::Timeout => false,
        AuditFailureReason::MalformedResponse
        | AuditFailureReason::DigestMismatch
        | AuditFailureReason::KeyAbsent
        | AuditFailureReason::Rejected => true,
    }
}

/// Whether a bootstrap claim is abuse: it outlived its grace period or came
/// again after the peer had stopped claiming.
pub open spec fn is_abuse(observation: BootstrapClaimObservation) -> bool {
    !(observation is WithinGrace)
}

/// Observe a bootstrap claim of `peer` and tell whether to report it.
pub fn observe_claim(state: &mut NeighborSyncState, peer: &PeerId, now: u64, grace: u64) -> (
    should_report: bool)
    requires
        old(state).wf(),
    ensures
        final(state).wf(),
        final(state)@ == old(state)@.claimed(*peer, now),
        should_report == is_abuse(old(state)@.observation(*peer, now, grace)),
{
    match state.observe_bootstrap_claim(peer, now, grace) {
        BootstrapClaimObservation::WithinGrace { .. } => false,
        BootstrapClaimObservation::PastGrace { .. } => true,
        BootstrapClaimObservation::Repeated { .. } => true,
    }
}

/// What an audit result leads to.
#[derive(Debug)]
pub struct AuditReaction {
    /// What the trust engine is told.
    pub trust: Option<TrustReport>,
    /// Label of the first failed record, for the log.
    pub first_failed_key: Option<String>,
}

/// What the trust engine is told about an audit result.
pub open spec fn audit_trust(
    state: SyncModel,
    result: AuditTickResult,
    now: u64,
    grace: u64,
) -> Option<TrustReport> {
    match result {
        AuditTickResult::Passed { challenged_peer, .. } => Some(
            TrustReport { peer: challenged_peer, signal: TrustSignal::Success },
        ),
        AuditTickResult::Failed {
            evidence: FailureEvidence::AuditFailure { challenged_peer, .. },
        } => Some(TrustReport { peer: challenged_peer, signal: TrustSignal::AuditFailure }),
        AuditTickResult::BootstrapClaim { peer } => if is_abuse(
            state.observation(peer, now, grace),
        ) {
            Some(TrustReport { peer, signal: TrustSignal::Failure })
        } else {
            None
        },
        _ => None,
    }
}

/// The sync cycle after an audit result was taken in.
pub open spec fn audit_state(state: SyncModel, result: AuditTickResult, now: u64) -> SyncModel {
    match result {
        AuditTickResult::Passed { challenged_peer, .. } => state.cleared(challenged_peer),
        AuditTickResult::Failed {
            evidence: FailureEvidence::AuditFailure { challenged_peer, reason, .. },
        } => if reason is Timeout {
            state
        } else {
            state.cleared(challenged_peer)
        },
        AuditTickResult::BootstrapClaim { peer } => state.claimed(peer, now),
        _ => state,
    }
}

/// Label that the log line of an audit result carries.
pub open spec fn audit_label(result: AuditTickResult) -> Option<Seq<char>> {
    match result {
        AuditTickResult::Failed {
            evidence: FailureEvidence::AuditFailure { confirmed_failed_keys, .. },
        } => Some(failed_key_label(confirmed_failed_keys@)),
        _ => None,
    }
}

/// Take in an audit result: a peer that answered is not bootstrapping and
/// loses its active claim, a claim is checked for abuse, and the trust engine
/// hears of passed and failed audits and of abuse.
pub fn handle_audit_result(
    state: &mut NeighborSyncState,
    result: &AuditTickResult,
    now: u64,
    grace: u64,
) -> (reaction: AuditReaction)
    requires
        old(state).wf(),
    ensures
        final(state).wf(),
        final(state)@ == audit_state(old(state)@, *result, now),
        reaction.trust == audit_trust(old(state)@, *result, now, grace),
        match reaction.first_failed_key {
            Some(label) => audit_label(*result) == Some(label@),
            None => audit_label(*result) is None,
        },
{
    match result {
        AuditTickResult::Passed { challenged_peer, .. } => {
            state.clear_active_bootstrap_claim(challenged_peer);
            AuditReaction {
                trust: Some(TrustReport { peer: *challenged_peer, signal: TrustSignal::Success }),
                first_failed_key: None,
            }
        },
        AuditTickResult::Failed { evidence } => match evidence {
            FailureEvidence::AuditFailure { challenged_peer, confirmed_failed_keys, reason } => {
                let label = first_failed_key_label(confirmed_failed_keys.as_slice());
                if audit_failure_clears_bootstrap_claim(reason) {
                    state.clear_active_bootstrap_claim(challenged_peer);
                }
                AuditReaction {
                    trust: Some(
                        TrustReport { peer: *challenged_peer, signal: TrustSignal::AuditFailure },
                    ),
                    first_failed_key: Some(label),
                }
            },
            FailureEvidence::Other => AuditReaction { trust: None, first_failed_key: None },
        },
        AuditTickResult::BootstrapClaim { peer } => {
            let should_report = observe_claim(state, peer, now, grace);
            AuditReaction {
                trust: if should_report {
                    Some(TrustReport { peer: *peer, signal: TrustSignal::Failure })
                } else {
                    None
                },
                first_failed_key: None,
            }
        },
        AuditTickResult::Idle | AuditTickResult::InsufficientKeys => AuditReaction {
            trust: None,
            first_failed_key: None,
        },
    }
}

/// A timed-out audit leaves the active bootstrap claim of the peer alone; every
/// failed audit that got an answer clears it. Either way the claim history
/// stays.
pub proof fn lemma_only_answers_clear_claims(
    state: SyncModel,
    challenged_peer: PeerId,
    confirmed_failed_keys: Vec<XorName>,
    reason: AuditFailureReason,
    now: u64,
)
    ensures
        ({
            let result = AuditTickResult::Failed {
                evidence: FailureEvidence::AuditFailure {
                    challenged_peer,
                    confirmed_failed_keys,
                    reason,
                },
            };
            let after = audit_state(state, result, now);
            &&& reason is Timeout ==> after == state
            &&& !(reason is Timeout) ==> !after.claims.contains_key(challenged_peer.0)
            &&& after.claim_history == state.claim_history
        }),
{
}

/// Progress of the audit loop.
#[derive(Clone, Copy, Debug, PartialEq, Eq, Structural)]
pub enum AuditLoopPhase {
    /// Waiting for bootstrap to drain.
    AwaitDrain,
    /// Auditing from time to time.
    Periodic,
}

/// Phase after the timer fired, and whether an audit runs.
pub open spec fn audit_advance(phase: AuditLoopPhase, bootstrap_drained: bool) -> (
    AuditLoopPhase,
    bool,
) {
    match phase {
        AuditLoopPhase::AwaitDrain => if bootstrap_drained {
            (AuditLoopPhase::Periodic, true)
        } else {
            (AuditLoopPhase::AwaitDrain, false)
        },
        AuditLoopPhase::Periodic => (AuditLoopPhase::Periodic, true),
    }
}

/// Phase after the timer fired once for each element of `drained`, which tells
/// whether bootstrap had drained by then.
pub open spec fn phase_after(drained: Seq<bool>) -> AuditLoopPhase
    decreases drained.len(),
{
    if drained.len() == 0 {
        AuditLoopPhase::AwaitDrain
    } else {
        audit_advance(phase_after(drained.drop_last()), drained.last()).0
    }
}

/// An audit runs when the timer fires exactly if bootstrap was seen drained
/// then or before.
pub proof fn lemma_no_audit_before_drain(drained: Seq<bool>, now_drained: bool)
    ensures
        phase_after(drained) is Periodic <==> drained.contains(true),
        audit_advance(phase_after(drained), now_drained).1 <==> now_drained || drained.contains(
            true,
        ),
    decreases drained.len(),
{
    if drained.len() > 0 {
        let init = drained.drop_last();
        lemma_no_audit_before_drain(init, drained.last());
        assert(drained =~= init.push(drained.last()));
        lemma_push_contains(init, drained.last(), true);
    }
}

/// Advance the audit loop when its timer fires, and tell whether to audit now.
/// No audit runs before bootstrap has drained; the first one runs as soon as it
/// has.
pub fn audit_timer_fired(phase: AuditLoopPhase, bootstrap_drained: bool) -> (r: (
    AuditLoopPhase,
    bool,
))
    ensures
        r == audit_advance(phase, bootstrap_drained),
{
    match phase {
        AuditLoopPhase::AwaitDrain => {
            if bootstrap_drained {
                (AuditLoopPhase::Periodic, true)
            } else {
                (AuditLoopPhase::AwaitDrain, false)
            }
        },
        AuditLoopPhase::Periodic => (AuditLoopPhase::Periodic, true),
    }
}

/// What the trust engine hears of an audit: a success of a peer that passed, an
/// audit failure of a peer that failed, and a failure of a peer whose bootstrap
/// claim is abuse, namely one that it makes again after it had stopped, or that
/// lasts longer than `grace`. It hears nothing else, and of no other peer.
pub proof fn lemma_audit_trust_cases(
    state: SyncModel,
    result: AuditTickResult,
    now: u64,
    grace: u64,
)
    requires
        state.valid(),
    ensures
        match result {
            AuditTickResult::Passed { challenged_peer, .. } => audit_trust(
                state,
                result,
                now,
                grace,
            ) matches Some(t) && t.peer == challenged_peer && t.signal is Success,
            AuditTickResult::Failed { evidence } => match evidence {
                FailureEvidence::AuditFailure { challenged_peer, .. } => audit_trust(
                    state,
                    result,
                    now,
                    grace,
                ) matches Some(t) && t.peer == challenged_peer && t.signal is AuditFailure,
                FailureEvidence::Other => audit_trust(state, result, now, grace) is None,
            },
            AuditTickResult::BootstrapClaim { peer } => {
                let active = state.claims.contains_key(peer.0);
                let abuse = if active {
                    now > state.claims[peer.0] + grace
                } else {
                    state.claim_history.contains_key(peer.0)
                };
                if abuse {
                    audit_trust(state, result, now, grace) matches Some(t) && t.peer == peer
                        && t.signal is Failure
                } else {
                    audit_trust(state, result, now, grace) is None
                }
            },
            AuditTickResult::Idle => audit_trust(state, result, now, grace) is None,
            AuditTickResult::InsufficientKeys => audit_trust(state, result, now, grace) is None,
        },
{
    if let AuditTickResult::BootstrapClaim { peer } = result {
        lemma_claim_cases(state, peer, now, grace);
    }
}

/// A claim is reported exactly when it is abuse, and observing it twice at the
/// same moment judges it the same way.
pub proof fn lemma_abuse_is_late_or_repeated(state: SyncModel, peer: PeerId, now: u64, grace: u64)
    requires
        state.valid(),
    ensures
        is_abuse(state.observation(peer, now, grace)) <==> if state.claims.contains_key(peer.0) {
            now > state.claims[peer.0] + grace
        } else {
            state.claim_history.contains_key(peer.0)
        },
        is_abuse(state.claimed(peer, now).observation(peer, now, grace)) == is_abuse(
            state.observation(peer, now, grace),
        ),
{
    lemma_claim_cases(state, peer, now, grace);
    lemma_records_of_a_peer(state, peer, now, peer);
    lemma_claim_cases(state.claimed(peer, now), peer, now, grace);
}

/// What an audit leaves on record. A peer that passed, or failed with an answer,
/// has no active claim afterwards; a peer that claims is on record; silence and
/// an audit that did not take place change nothing. The claims of other peers,
/// the history of claims, the syncs and the order stay in every case.
pub proof fn lemma_audit_state_cases(
    state: SyncModel,
    result: AuditTickResult,
    now: u64,
    other: PeerId,
)
    requires
        state.valid(),
    ensures
        ({
            let after = audit_state(state, result, now);
            &&& after.valid()
            &&& match result {
                AuditTickResult::Passed { challenged_peer, .. } => !after.claims.contains_key(
                    challenged_peer.0,
                ) && after.claim_history == state.claim_history && (other.0 != challenged_peer.0
                    ==> (after.claims.contains_key(other.0) <==> state.claims.contains_key(
                    other.0,
                ))),
                AuditTickResult::Failed { evidence } => match evidence {
                    FailureEvidence::AuditFailure { challenged_peer, reason, .. } => match reason {
                        AuditFailureReason::Timeout => after == state,
                        AuditFailureReason::MalformedResponse
                        | AuditFailureReason::DigestMismatch
                        | AuditFailureReason::KeyAbsent
                        | AuditFailureReason::Rejected => !after.claims.contains_key(
                            challenged_peer.0,
                        ) && after.claim_history == state.claim_history && (other.0
                            != challenged_peer.0 ==> (after.claims.contains_key(other.0)
                            <==> state.claims.contains_key(other.0))),
                    },
                    FailureEvidence::Other => after == state,
                },
                AuditTickResult::BootstrapClaim { peer } => {
                    &&& after.claim_history.contains_key(peer.0)
                    &&& state.claim_history.contains_key(peer.0) ==> after == state
                    &&& !state.claim_history.contains_key(peer.0) ==> after.claims.contains_key(
                        peer.0,
                    ) && after.claims[peer.0] == now && after.claim_history[peer.0] == now
                    &&& other.0 != peer.0 ==> (after.claims.contains_key(other.0)
                        <==> state.claims.contains_key(other.0))
                },
                AuditTickResult::Idle => after == state,
                AuditTickResult::InsufficientKeys => after == state,
            }
            &&& after.claims.contains_key(other.0) && state.claims.contains_key(other.0)
                ==> after.claims[other.0] == state.claims[other.0]
            &&& state.claim_history.contains_key(other.0) ==> after.claim_history.contains_key(
                other.0,
            ) && after.claim_history[other.0] == state.claim_history[other.0]
            &&& after.last_sync == state.last_sync
            &&& after.order == state.order
            &&& after.cursor == state.cursor
            &&& after.prune_cursor == state.prune_cursor
        }),
{
    match result {
        AuditTickResult::Passed { challenged_peer, .. } => {
            lemma_records_of_a_peer(state, challenged_peer, now, other);
        },
        AuditTickResult::Failed { evidence } => {
            if let FailureEvidence::AuditFailure { challenged_peer, .. } = evidence {
                lemma_records_of_a_peer(state, challenged_peer, now, other);
            }
        },
        AuditTickResult::BootstrapClaim { peer } => {
            lemma_records_of_a_peer(state, peer, now, other);
        },
        _ => {},
    }
}

/// The label shows the first eight bytes of the first failed record, two digits
/// to a byte behind the prefix; without a failed record it is the prefix. A
/// failed audit is labelled, and nothing else is.
pub proof fn lemma_label_digits(keys: Seq<XorName>, i: int, result: AuditTickResult)
    requires
        0 <= i < 8,
    ensures
        keys.len() == 0 ==> failed_key_label(keys) == "0x"@,
        keys.len() > 0 ==> {
            let label = failed_key_label(keys);
            &&& label.len() == 18
            &&& label[0] == '0'
            &&& label[1] == 'x'
            &&& label[2 + 2 * i] == "0123456789abcdef"@[keys[0]@[i] as int / 16]
            &&& label[3 + 2 * i] == "0123456789abcdef"@[keys[0]@[i] as int % 16]
        },
        match result {
            AuditTickResult::Failed {
                evidence: FailureEvidence::AuditFailure { confirmed_failed_keys, .. },
            } => audit_label(result) == Some(failed_key_label(confirmed_failed_keys@)),
            _ => audit_label(result) is None,
        },
{
    reveal_strlit("0x");
    if keys.len() > 0 {
        let bytes = keys[0]@.subrange(0, 8);
        lemma_hex_digits_of_each_byte(bytes, i);
        assert(failed_key_label(keys)[2 + 2 * i] == hex_chars(bytes)[2 * i]);
        assert(failed_key_label(keys)[3 + 2 * i] == hex_chars(bytes)[2 * i + 1]);
    }
}

} // verus!
