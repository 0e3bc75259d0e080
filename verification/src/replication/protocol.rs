//! Replication messages.

use crate::ids::XorName;
use vstd::prelude::*;

verus! {

/// A freshly written record offered to a responsible node.
#[derive(Debug)]
pub struct FreshReplicationOffer {
    /// Address of the record.
    pub key: XorName,
    /// The record.
    pub data: Vec<u8>,
    /// Receipt of the payment.
    pub proof_of_payment: Vec<u8>,
}

/// Answer to a fresh offer.
#[derive(Debug)]
pub enum FreshReplicationResponse {
    /// The record was stored.
    Accepted {
        /// Address of the record.
        key: XorName,
    },
    /// The record was refused.
    Rejected {
        /// Address of the record.
        key: XorName,
        /// Why.
        reason: String,
    },
}

/// Mathematical content of a [`FreshReplicationResponse`].
pub enum FreshResponseModel {
    Accepted(XorName),
    Rejected(XorName, Seq<char>),
}

impl View for FreshReplicationResponse {
    type V = FreshResponseModel;

    open spec fn view(&self) -> FreshResponseModel {
        match self {
            FreshReplicationResponse::Accepted { key } => FreshResponseModel::Accepted(*key),
            FreshReplicationResponse::Rejected { key, reason } => FreshResponseModel::Rejected(
                *key,
                reason@,
            ),
        }
    }
}

/// Notice that a record is paid for.
#[derive(Debug)]
pub struct PaidNotify {
    /// Address of the record.
    pub key: XorName,
    /// Receipt of the payment.
    pub proof_of_payment: Vec<u8>,
}

/// One side of a neighbor sync: hints about records.
#[derive(Debug)]
pub struct NeighborSyncRequest {
    /// Records the receiver should hold.
    pub replica_hints: Vec<XorName>,
    /// Records that are paid for.
    pub paid_hints: Vec<XorName>,
    /// Whether the sender is bootstrapping.
    pub bootstrapping: bool,
}

/// The other side of a neighbor sync.
#[derive(Debug)]
pub struct NeighborSyncResponse {
    /// Records the receiver should hold.
    pub replica_hints: Vec<XorName>,
    /// Records that are paid for.
    pub paid_hints: Vec<XorName>,
    /// Whether the sender is bootstrapping.
    pub bootstrapping: bool,
}

/// Question which records a peer holds.
#[derive(Debug)]
pub struct VerificationRequest {
    /// Addresses asked about.
    pub keys: Vec<XorName>,
    /// Positions in `keys` whose paid status is asked too.
    pub paid_list_check_indices: Vec<u32>,
}

/// Answer about one record.
#[derive(Clone, Copy, Debug)]
pub struct KeyVerificationResult {
    /// Address of the record.
    pub key: XorName,
    /// Whether it is held.
    pub present: bool,
    /// Whether it is paid for, where that was asked.
    pub paid: Option<bool>,
}

/// Answer to a verification request.
#[derive(Debug)]
pub struct VerificationResponse {
    /// One answer per key, in the order of the request.
    pub results: Vec<KeyVerificationResult>,
}

/// Request for a record.
#[derive(Clone, Copy, Debug)]
pub struct FetchRequest {
    /// Address of the record.
    pub key: XorName,
}

/// Answer to a fetch request.
#[derive(Debug)]
pub enum FetchResponse {
    /// The record.
    Success {
        /// Address of the record.
        key: XorName,
        /// The record.
        data: Vec<u8>,
    },
    /// The record is not held.
    NotFound {
        /// Address of the record.
        key: XorName,
    },
    /// The record could not be read.
    Error {
        /// Address of the record.
        key: XorName,
        /// Why.
        reason: String,
    },
}

/// Mathematical content of a [`FetchResponse`].
pub enum FetchResponseModel {
    Success(XorName, Seq<u8>),
    NotFound(XorName),
    Error(XorName, Seq<char>),
}

impl View for FetchResponse {
    type V = FetchResponseModel;

    open spec fn view(&self) -> FetchResponseModel {
        match self {
            FetchResponse::Success { key, data } => FetchResponseModel::Success(*key, data@),
            FetchResponse::NotFound { key } => FetchResponseModel::NotFound(*key),
            FetchResponse::Error { key, reason } => FetchResponseModel::Error(*key, reason@),
        }
    }
}

/// Body of a replication message. Audit payloads are carried encoded.
#[derive(Debug)]
pub enum ReplicationMessageBody {
    /// A fresh record.
    FreshReplicationOffer(FreshReplicationOffer),
    /// Answer to a fresh record.
    FreshReplicationResponse(FreshReplicationResponse),
    /// A payment notice.
    PaidNotify(PaidNotify),
    /// Hints of a neighbor.
    NeighborSyncRequest(NeighborSyncRequest),
    /// Hints in return.
    NeighborSyncResponse(NeighborSyncResponse),
    /// Question which records are held.
    VerificationRequest(VerificationRequest),
    /// Answer which records are held.
    VerificationResponse(VerificationResponse),
    /// Request for a record.
    FetchRequest(FetchRequest),
    /// Answer to a request for a record.
    FetchResponse(FetchResponse),
    /// Challenge to prove storage.
    AuditChallenge(Vec<u8>),
    /// Answer to a challenge.
    AuditResponse(Vec<u8>),
}

/// A replication message.
#[derive(Debug)]
pub struct ReplicationMessage {
    /// Correlates a request with its answer.
    pub request_id: u64,
    /// What the message says.
    pub body: ReplicationMessageBody,
}

} // verus!
