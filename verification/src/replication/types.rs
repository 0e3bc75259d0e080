//! Plain values that the replication decisions read and produce.

use crate::ids::{PeerId, XorName};
use vstd::prelude::*;

verus! {

/// Which pipeline a hinted key travels through.
#[derive(Clone, Copy, Debug, PartialEq, Eq, Structural)]
pub enum HintPipeline {
    /// The sender says this node should hold the record.
    Replica,
    /// The sender says the record is paid for.
    PaidOnly,
}

/// Verification progress of a pending key.
#[derive(Clone, Copy, Debug, PartialEq, Eq, Structural)]
pub enum VerificationState {
    /// Waiting for verification.
    PendingVerify,
    /// The local paid list already authorizes the key.
    PaidListVerified,
}

/// A key that waits for verification.
#[derive(Clone, Copy, Debug)]
pub struct VerificationEntry {
    /// Verification progress.
    pub state: VerificationState,
    /// Pipeline of the hint.
    pub pipeline: HintPipeline,
    /// When the key was admitted, in milliseconds.
    pub created_at: u64,
    /// Peer that hinted the key.
    pub hint_sender: PeerId,
}

/// What happened to a key offered to the pending stage.
#[derive(Clone, Copy, Debug, PartialEq, Eq, Structural)]
pub enum AdmissionResult {
    /// The key is now pending.
    Admitted,
    /// The key was already in the pipeline.
    AlreadyPresent,
    /// The global or the per-source bound was hit.
    CapacityRejected,
}

/// Verdict of the network on one key.
#[derive(Debug)]
pub enum KeyVerificationOutcome {
    /// A presence quorum was reached.
    QuorumVerified {
        /// Peers that hold the record.
        sources: Vec<PeerId>,
    },
    /// A paid-list majority was reached.
    PaidListVerified {
        /// Peers that hold the record.
        sources: Vec<PeerId>,
    },
    /// The quorum said no.
    QuorumFailed,
    /// Too few answers arrived.
    QuorumInconclusive,
}

impl KeyVerificationOutcome {
    /// Whether the network authorized the key.
    pub open spec fn verified(&self) -> bool {
        self is QuorumVerified || self is PaidListVerified
    }

    /// Holders reported together with a positive verdict.
    pub open spec fn sources(&self) -> Seq<PeerId> {
        match self {
            KeyVerificationOutcome::QuorumVerified { sources } => sources@,
            KeyVerificationOutcome::PaidListVerified { sources } => sources@,
            _ => Seq::empty(),
        }
    }
}

/// Why an audit failed.
#[derive(Clone, Copy, Debug, PartialEq, Eq, Structural)]
pub enum AuditFailureReason {
    /// No answer arrived in time.
    Timeout,
    /// The answer could not be decoded.
    MalformedResponse,
    /// A digest did not match.
    DigestMismatch,
    /// A key was reported absent.
    KeyAbsent,
    /// The peer refused the challenge.
    Rejected,
}

/// How a bootstrap claim relates to earlier ones of the same peer.
#[derive(Clone, Copy, Debug, PartialEq, Eq, Structural)]
pub enum BootstrapClaimObservation {
    /// The claim is within its grace period.
    WithinGrace {
        /// When the claim was first seen.
        first_seen: u64,
    },
    /// The claim outlived its grace period.
    PastGrace {
        /// When the claim was first seen.
        first_seen: u64,
    },
    /// The peer had stopped claiming and claims again.
    Repeated {
        /// When the first claim was seen.
        first_seen: u64,
    },
}

/// Sync history of one peer.
#[derive(Clone, Copy, Debug)]
pub struct PeerSyncRecord {
    /// Last successful sync, in milliseconds.
    pub last_sync: Option<u64>,
    /// Completed local cycles since then.
    pub cycles_since_sync: u32,
}

/// What the trust engine is told about a peer.
#[derive(Clone, Copy, Debug, PartialEq, Eq, Structural)]
pub enum TrustSignal {
    /// The peer did its part, at the standard weight.
    Success,
    /// The peer failed, at the standard weight.
    Failure,
    /// The peer failed an audit, at the audit weight.
    AuditFailure,
}

/// A trust signal together with the peer it is about.
#[derive(Clone, Copy, Debug)]
pub struct TrustReport {
    /// The peer.
    pub peer: PeerId,
    /// The signal.
    pub signal: TrustSignal,
}

/// A replica hint that was sent to a peer.
#[derive(Debug)]
pub struct SentReplicaHint {
    /// The hinted key.
    pub key: XorName,
    /// Close group of the key at that time.
    pub close_peers: Vec<PeerId>,
}

/// A repair proof to record: `peer` was hinted about `key` during `epoch`.
#[derive(Debug)]
pub struct RepairProof {
    /// The hinted peer.
    pub peer: PeerId,
    /// The hinted key.
    pub key: XorName,
    /// Close group of the key at that time.
    pub close_peers: Vec<PeerId>,
    /// Local sync epoch of the hint.
    pub epoch: u64,
}

/// Time elapsed from `since` to `now`; zero when the clock reads earlier.
pub open spec fn elapsed(now: u64, since: u64) -> nat {
    if now >= since {
        (now - since) as nat
    } else {
        0
    }
}

/// Compute the time elapsed from `since` to `now`.
pub fn elapsed_ms(now: u64, since: u64) -> (d: u64)
    ensures
        d == elapsed(now, since),
{
    if now >= since {
        now - since
    } else {
        0
    }
}

} // verus!
