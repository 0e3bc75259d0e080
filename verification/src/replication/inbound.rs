//! What to do with replication messages that arrive.

use crate::error::{Error, ErrorModel};
use crate::ids::{PeerId, XorName};
use crate::replication::protocol::{
    FetchResponse, FetchResponseModel, FreshReplicationOffer, FreshReplicationResponse,
    FreshResponseModel, KeyVerificationResult, PaidNotify, ReplicationMessage,
    ReplicationMessageBody, VerificationRequest,
};
use crate::text::{decimal, decimal_chars, join};
use vstd::prelude::*;

verus! {

// ---------------------------------------------------------------------------
// Which messages are for the replication engine
// ---------------------------------------------------------------------------

/// Topic prefix of the request-response mechanism.
pub open spec fn rr_prefix() -> Seq<char> {
    "/rr/"@
}

/// Message identifier, whether it is a response, and payload of a
/// request-response envelope; `None` when the bytes are no envelope.
pub uninterp spec fn envelope_parts(data: Seq<u8>) -> Option<(Seq<char>, bool, Seq<u8>)>;

/// Calls `saorsa_core::P2PNode::parse_request_envelope`, which decodes the
/// bytes of a request-response envelope. What it decodes depends on the bytes
/// alone; the encoding itself is not described here.
#[verifier::external_body]
fn parse_request_envelope(data: &[u8]) -> (r: Option<(String, bool, Vec<u8>)>)
    ensures
        match r {
            Some(parts) => envelope_parts(data@) == Some((parts.0@, parts.1, parts.2@)),
            None => envelope_parts(data@) is None,
        },
{
    saorsa_core::P2PNode::parse_request_envelope(data)
}

/// A payload for the engine, with the identifier under which the answer is
/// expected when it came in as a request.
#[derive(Debug)]
pub struct IncomingPayload {
    /// Encoded replication message.
    pub payload: Vec<u8>,
    /// Request identifier, if the sender waits for an answer.
    pub rr_message_id: Option<String>,
}

/// Mathematical content of an [`IncomingPayload`].
pub struct PayloadModel {
    pub payload: Seq<u8>,
    pub rr_message_id: Option<Seq<char>>,
}

impl View for IncomingPayload {
    type V = PayloadModel;

    open spec fn view(&self) -> PayloadModel {
        PayloadModel {
            payload: self.payload@,
            rr_message_id: match self.rr_message_id {
                Some(id) => Some(id@),
                None => None,
            },
        }
    }
}

/// Content of an optional payload.
pub open spec fn payload_model(p: Option<IncomingPayload>) -> Option<PayloadModel> {
    match p {
        Some(p) => Some(p@),
        None => None,
    }
}

/// The request inside an envelope; responses and broken envelopes hold none.
pub open spec fn envelope_request(
    parts: Option<(Seq<char>, bool, Seq<u8>)>,
) -> Option<PayloadModel> {
    match parts {
        Some((id, is_response, payload)) => if is_response {
            None
        } else {
            Some(PayloadModel { payload, rr_message_id: Some(id) })
        },
        None => None,
    }
}

/// Take the request out of a decoded envelope.
pub fn request_from_envelope(parts: Option<(String, bool, Vec<u8>)>) -> (r: Option<
    IncomingPayload,
>)
    ensures
        payload_model(r) == envelope_request(
            match parts {
                Some(p) => Some((p.0@, p.1, p.2@)),
                None => None,
            },
        ),
{
    match parts {
        Some((id, is_response, payload)) => {
            if is_response {
                None
            } else {
                Some(IncomingPayload { payload, rr_message_id: Some(id) })
            }
        },
        None => None,
    }
}

/// What the engine gets to see of a network message.
pub open spec fn replication_payload(
    topic: Seq<char>,
    authenticated: bool,
    data: Seq<u8>,
    protocol: Seq<char>,
) -> Option<PayloadModel> {
    if !authenticated {
        None
    } else if topic == protocol {
        Some(PayloadModel { payload: data, rr_message_id: None })
    } else if topic == rr_prefix() + protocol {
        envelope_request(envelope_parts(data))
    } else {
        None
    }
}

/// Pick replication messages out of the network traffic. Plain messages carry
/// the payload as is; messages of the request-response mechanism wrap it in an
/// envelope. Messages without an authenticated sender are ignored.
pub fn incoming_payload(
    topic: &String,
    source: &Option<PeerId>,
    data: Vec<u8>,
    protocol: &String,
) -> (r: Option<IncomingPayload>)
    ensures
        payload_model(r) == replication_payload(topic@, source is Some, data@, protocol@),
{
    if source.is_none() {
        return None;
    }
    if *topic == *protocol {
        return Some(IncomingPayload { payload: data, rr_message_id: None });
    }
    let wrapped = join("/rr/", protocol.as_str());
    if *topic == wrapped {
        let parts = parse_request_envelope(data.as_slice());
        return request_from_envelope(parts);
    }
    None
}

/// What a change in the routing table calls for.
#[derive(Clone, Copy, Debug)]
pub enum DhtEvent {
    /// The set of closest peers changed.
    KClosestPeersChanged,
    /// A peer left the routing table.
    PeerRemoved {
        /// The peer.
        peer_id: PeerId,
    },
    /// Anything else.
    Other,
}

/// Reaction to a [`DhtEvent`].
#[derive(Clone, Copy, Debug)]
pub enum DhtReaction {
    /// Sync with neighbors early.
    TriggerNeighborSync,
    /// Forget the repair proofs of a peer.
    ForgetRepairProofs {
        /// The peer.
        peer: PeerId,
    },
    /// Do nothing.
    Ignore,
}

/// Decide how to react to a change in the routing table.
pub fn react_to_dht_event(event: &DhtEvent) -> (r: DhtReaction)
    ensures
        r == match *event {
            DhtEvent::KClosestPeersChanged => DhtReaction::TriggerNeighborSync,
            DhtEvent::PeerRemoved { peer_id } => DhtReaction::ForgetRepairProofs { peer: peer_id },
            DhtEvent::Other => DhtReaction::Ignore,
        },
{
    match event {
        DhtEvent::KClosestPeersChanged => DhtReaction::TriggerNeighborSync,
        DhtEvent::PeerRemoved { peer_id } => DhtReaction::ForgetRepairProofs { peer: *peer_id },
        DhtEvent::Other => DhtReaction::Ignore,
    }
}

// ---------------------------------------------------------------------------
// Which handler a message goes to
// ---------------------------------------------------------------------------

/// Handler of a replication message. Handlers that depend on the bootstrap
/// phase get to know it.
#[derive(Clone, Copy, Debug, PartialEq, Eq, Structural)]
pub enum MessageRoute {
    /// Decide on a fresh offer.
    FreshOffer,
    /// Decide on a payment notice.
    PaidNotify,
    /// Answer hints of a neighbor.
    NeighborSync {
        /// Whether this node is bootstrapping.
        bootstrapping: bool,
    },
    /// Answer which records are held.
    Verification,
    /// Answer a request for a record.
    Fetch,
    /// Answer a storage challenge.
    AuditChallenge {
        /// Whether this node is bootstrapping.
        bootstrapping: bool,
    },
    /// Answers are awaited by whoever asked.
    Ignore,
}

/// Handler for a message body.
pub open spec fn route_of(body: ReplicationMessageBody, bootstrapping: bool) -> MessageRoute {
    match body {
        ReplicationMessageBody::FreshReplicationOffer(_) => MessageRoute::FreshOffer,
        ReplicationMessageBody::PaidNotify(_) => MessageRoute::PaidNotify,
        ReplicationMessageBody::NeighborSyncRequest(_) => MessageRoute::NeighborSync {
            bootstrapping,
        },
        ReplicationMessageBody::VerificationRequest(_) => MessageRoute::Verification,
        ReplicationMessageBody::FetchRequest(_) => MessageRoute::Fetch,
        ReplicationMessageBody::AuditChallenge(_) => MessageRoute::AuditChallenge { bootstrapping },
        _ => MessageRoute::Ignore,
    }
}

/// Route a decoded message, or turn a decoding failure into an error.
pub fn handle_replication_message(
    decoded: &Result<ReplicationMessage, String>,
    is_bootstrapping: bool,
) -> (r: Result<MessageRoute, Error>)
    ensures
        match *decoded {
            Ok(msg) => r == Ok::<MessageRoute, Error>(route_of(msg.body, is_bootstrapping)),
            Err(e) => r matches Err(err) && err@ == ErrorModel::Protocol(
                "Failed to decode replication message: "@ + e@,
            ),
        },
        *decoded matches Ok(msg) ==> {
            &&& r is Ok
            &&& r->Ok_0 is FreshOffer <==> msg.body is FreshReplicationOffer
            &&& r->Ok_0 is PaidNotify <==> msg.body is PaidNotify
            &&& r->Ok_0 is NeighborSync <==> msg.body is NeighborSyncRequest
            &&& r->Ok_0 is Verification <==> msg.body is VerificationRequest
            &&& r->Ok_0 is Fetch <==> msg.body is FetchRequest
            &&& r->Ok_0 is AuditChallenge <==> msg.body is AuditChallenge
            &&& r->Ok_0 is Ignore <==> msg.body is FreshReplicationResponse
                || msg.body is NeighborSyncResponse || msg.body is VerificationResponse
                || msg.body is FetchResponse || msg.body is AuditResponse
        },
{
    match decoded {
        Ok(msg) => Ok(
            match &msg.body {
                ReplicationMessageBody::FreshReplicationOffer(_) => MessageRoute::FreshOffer,
                ReplicationMessageBody::PaidNotify(_) => MessageRoute::PaidNotify,
                ReplicationMessageBody::NeighborSyncRequest(_) => MessageRoute::NeighborSync {
                    bootstrapping: is_bootstrapping,
                },
                ReplicationMessageBody::VerificationRequest(_) => MessageRoute::Verification,
                ReplicationMessageBody::FetchRequest(_) => MessageRoute::Fetch,
                ReplicationMessageBody::AuditChallenge(_) => MessageRoute::AuditChallenge {
                    bootstrapping: is_bootstrapping,
                },
                ReplicationMessageBody::FreshReplicationResponse(_)
                | ReplicationMessageBody::NeighborSyncResponse(_)
                | ReplicationMessageBody::VerificationResponse(_)
                | ReplicationMessageBody::FetchResponse(_)
                | ReplicationMessageBody::AuditResponse(_) => MessageRoute::Ignore,
            },
        ),
        Err(e) => Err(
            Error::Protocol(join("Failed to decode replication message: ", e.as_str())),
        ),
    }
}

// ---------------------------------------------------------------------------
// Fresh offers
// ---------------------------------------------------------------------------

/// Answers obtained so far while deciding on a fresh offer; `None` where the
/// question has not been asked yet.
#[derive(Debug)]
pub struct FreshOfferProgress {
    /// Whether this node is responsible for the key.
    pub responsible: Option<bool>,
    /// Whether the disk has room.
    pub capacity: Option<Result<(), String>>,
    /// Whether the payment permits storing.
    pub payment: Option<Result<bool, String>>,
    /// Whether the key was put on the paid list.
    pub recorded: Option<Result<(), String>>,
    /// Whether the record was stored.
    pub stored: Option<Result<(), String>>,
}

/// Next thing to do about a fresh offer.
#[derive(Debug)]
pub enum FreshOfferAction {
    /// Ask whether this node is responsible for the key.
    CheckResponsibility,
    /// Ask whether the disk has room.
    CheckCapacity,
    /// Verify the payment.
    VerifyPayment,
    /// Put the key on the paid list.
    RecordPaid,
    /// Store the record.
    Store,
    /// Send the answer; `penalize` tells whether the sender is reported.
    Respond {
        /// The answer.
        response: FreshReplicationResponse,
        /// Whether the sender misbehaved.
        penalize: bool,
    },
}

/// Mathematical content of a [`FreshOfferAction`].
pub enum FreshActionModel {
    CheckResponsibility,
    CheckCapacity,
    VerifyPayment,
    RecordPaid,
    Store,
    Respond(FreshResponseModel, bool),
}

impl View for FreshOfferAction {
    type V = FreshActionModel;

    open spec fn view(&self) -> FreshActionModel {
        match self {
            FreshOfferAction::CheckResponsibility => FreshActionModel::CheckResponsibility,
            FreshOfferAction::CheckCapacity => FreshActionModel::CheckCapacity,
            FreshOfferAction::VerifyPayment => FreshActionModel::VerifyPayment,
            FreshOfferAction::RecordPaid => FreshActionModel::RecordPaid,
            FreshOfferAction::Store => FreshActionModel::Store,
            FreshOfferAction::Respond { response, penalize } => FreshActionModel::Respond(
                response@,
                *penalize,
            ),
        }
    }
}

/// Text of the answer to an oversized record.
pub open spec fn oversize_reason(size: nat, max_chunk_size: nat) -> Seq<char> {
    "Data size "@ + decimal_chars(size) + " exceeds maximum chunk size "@ + decimal_chars(
        max_chunk_size,
    )
}

/// Refusal of `offer`.
pub open spec fn refusal(
    offer: FreshReplicationOffer,
    reason: Seq<char>,
    penalize: bool,
) -> FreshActionModel {
    FreshActionModel::Respond(FreshResponseModel::Rejected(offer.key, reason), penalize)
}

/// Next thing to do about `offer`, given the answers so far.
pub open spec fn fresh_offer_action(
    offer: FreshReplicationOffer,
    max_chunk_size: u64,
    progress: FreshOfferProgress,
) -> FreshActionModel {
    if offer.proof_of_payment@.len() == 0 {
        refusal(offer, "Missing proof of payment"@, false)
    } else if offer.data@.len() > max_chunk_size {
        refusal(offer, oversize_reason(offer.data@.len(), max_chunk_size as nat), true)
    } else {
        match progress.responsible {
            None => FreshActionModel::CheckResponsibility,
            Some(false) => refusal(offer, "Not responsible for this key"@, false),
            Some(true) => match progress.capacity {
                None => FreshActionModel::CheckCapacity,
                Some(Err(e)) => refusal(offer, e@, false),
                Some(Ok(_)) => match progress.payment {
                    None => FreshActionModel::VerifyPayment,
                    Some(Err(e)) => refusal(offer, "Payment verification error: "@ + e@, false),
                    Some(Ok(false)) => refusal(
                        offer,
                        "Payment verification failed: payment required"@,
                        false,
                    ),
                    Some(Ok(true)) => match progress.recorded {
                        None => FreshActionModel::RecordPaid,
                        Some(_) => match progress.stored {
                            None => FreshActionModel::Store,
                            Some(Err(e)) => refusal(offer, e@, false),
                            Some(Ok(_)) => FreshActionModel::Respond(
                                FreshResponseModel::Accepted(offer.key),
                                false,
                            ),
                        },
                    },
                },
            },
        }
    }
}

fn refuse(key: XorName, reason: String, penalize: bool) -> (a: FreshOfferAction)
    ensures
        a@ == FreshActionModel::Respond(FreshResponseModel::Rejected(key, reason@), penalize),
{
    FreshOfferAction::Respond {
        response: FreshReplicationResponse::Rejected { key, reason },
        penalize,
    }
}

/// Decide what to do next about a fresh offer. The cheap checks come first:
/// receipt present, size, responsibility and disk space are settled before the
/// payment is verified, and only a verified payment leads to storing. Whether
/// the key then gets on the paid list decides nothing further.
pub fn handle_fresh_offer(
    offer: &FreshReplicationOffer,
    max_chunk_size: u64,
    progress: &FreshOfferProgress,
) -> (a: FreshOfferAction)
    ensures
        a@ == fresh_offer_action(*offer, max_chunk_size, *progress),
{
    if offer.proof_of_payment.len() == 0 {
        return refuse(offer.key, "Missing proof of payment".to_owned(), false);
    }
    let size: u64 = offer.data.len() as u64;
    if size > max_chunk_size {
        let mut reason = join("Data size ", decimal(size).as_str());
        reason.append(" exceeds maximum chunk size ");
        reason.append(decimal(max_chunk_size).as_str());
        return refuse(offer.key, reason, true);
    }
    match progress.responsible {
        None => return FreshOfferAction::CheckResponsibility,
        Some(false) => {
            return refuse(offer.key, "Not responsible for this key".to_owned(), false);
        },
        Some(true) => {},
    }
    match &progress.capacity {
        None => return FreshOfferAction::CheckCapacity,
        Some(Err(e)) => return refuse(offer.key, e.clone(), false),
        Some(Ok(_)) => {},
    }
    match &progress.payment {
        None => return FreshOfferAction::VerifyPayment,
        Some(Err(e)) => {
            return refuse(offer.key, join("Payment verification error: ", e.as_str()), false);
        },
        Some(Ok(can_store)) => {
            if !*can_store {
                return refuse(
                    offer.key,
                    "Payment verification failed: payment required".to_owned(),
                    false,
                );
            }
        },
    }
    if progress.recorded.is_none() {
        return FreshOfferAction::RecordPaid;
    }
    match &progress.stored {
        None => FreshOfferAction::Store,
        Some(Err(e)) => refuse(offer.key, e.clone(), false),
        Some(Ok(_)) => FreshOfferAction::Respond {
            response: FreshReplicationResponse::Accepted { key: offer.key },
            penalize: false,
        },
    }
}

/// A fresh offer is accepted exactly when it carries a receipt, is not too
/// large, this node is responsible, the disk has room, the payment permits
/// storing, putting the key on the paid list was tried, and the record was
/// stored.
pub proof fn lemma_fresh_offer_accepted_iff(
    offer: FreshReplicationOffer,
    max_chunk_size: u64,
    progress: FreshOfferProgress,
)
    ensures
        fresh_offer_action(offer, max_chunk_size, progress) == FreshActionModel::Respond(
            FreshResponseModel::Accepted(offer.key),
            false,
        ) <==> {
            &&& offer.proof_of_payment@.len() > 0
            &&& offer.data@.len() <= max_chunk_size
            &&& progress.responsible == Some(true)
            &&& progress.capacity matches Some(Ok(_))
            &&& progress.payment matches Some(Ok(true))
            &&& progress.recorded is Some
            &&& progress.stored matches Some(Ok(_))
        },
{
}

/// A failure to put the key on the paid list stops nothing: what follows, storing
/// first of all, is the same as if it had succeeded.
pub proof fn lemma_failed_record_stops_nothing(
    offer: FreshReplicationOffer,
    max_chunk_size: u64,
    progress: FreshOfferProgress,
    e: String,
)
    requires
        progress.recorded == Some(Err::<(), String>(e)),
    ensures
        fresh_offer_action(offer, max_chunk_size, progress) == fresh_offer_action(
            offer,
            max_chunk_size,
            FreshOfferProgress { recorded: Some(Ok(())), ..progress },
        ),
        fresh_offer_action(
            offer,
            max_chunk_size,
            FreshOfferProgress { recorded: None, ..progress },
        ) is RecordPaid && progress.stored is None ==> fresh_offer_action(
            offer,
            max_chunk_size,
            progress,
        ) is Store,
{
}

/// The payment is verified only for offers that passed every cheap check, and
/// the paid list and the store are touched only after it permitted storing.
pub proof fn lemma_fresh_offer_order(
    offer: FreshReplicationOffer,
    max_chunk_size: u64,
    progress: FreshOfferProgress,
)
    ensures
        fresh_offer_action(offer, max_chunk_size, progress) is VerifyPayment ==> {
            &&& offer.proof_of_payment@.len() > 0
            &&& offer.data@.len() <= max_chunk_size
            &&& progress.responsible == Some(true)
            &&& progress.capacity matches Some(Ok(_))
        },
        fresh_offer_action(offer, max_chunk_size, progress) is RecordPaid ==> {
            &&& progress.capacity matches Some(Ok(_))
            &&& progress.payment matches Some(Ok(true))
        },
        fresh_offer_action(offer, max_chunk_size, progress) is Store ==> {
            &&& progress.capacity matches Some(Ok(_))
            &&& progress.payment matches Some(Ok(true))
            &&& progress.recorded is Some
        },
{
}

/// Every answer to a fresh offer names the offered key, and the sender is
/// reported only for an oversized record.
pub proof fn lemma_fresh_offer_answers_its_key(
    offer: FreshReplicationOffer,
    max_chunk_size: u64,
    progress: FreshOfferProgress,
)
    ensures
        fresh_offer_action(offer, max_chunk_size, progress) matches FreshActionModel::Respond(
            response,
            penalize,
        ) ==> {
            &&& (response matches FreshResponseModel::Accepted(k) ==> k == offer.key)
            &&& (response matches FreshResponseModel::Rejected(k, _) ==> k == offer.key)
            &&& penalize == (offer.proof_of_payment@.len() > 0 && offer.data@.len()
                > max_chunk_size)
        },
{
}

// ---------------------------------------------------------------------------
// Payment notices
// ---------------------------------------------------------------------------

/// Next thing to do about a payment notice.
#[derive(Clone, Copy, Debug, PartialEq, Eq, Structural)]
pub enum PaidNotifyAction {
    /// Drop the notice.
    Ignore,
    /// Ask whether this node keeps the paid list of the key.
    CheckPaidCloseGroup,
    /// Verify the payment.
    VerifyPayment,
    /// Put the key on the paid list.
    RecordPaid,
}

/// Next thing to do about `notify`, given the answers so far.
pub open spec fn paid_notify_action(
    notify: PaidNotify,
    in_paid_close_group: Option<bool>,
    payment: Option<Result<bool, String>>,
) -> PaidNotifyAction {
    if notify.proof_of_payment@.len() == 0 {
        PaidNotifyAction::Ignore
    } else {
        match in_paid_close_group {
            None => PaidNotifyAction::CheckPaidCloseGroup,
            Some(false) => PaidNotifyAction::Ignore,
            Some(true) => match payment {
                None => PaidNotifyAction::VerifyPayment,
                Some(Ok(true)) => PaidNotifyAction::RecordPaid,
                _ => PaidNotifyAction::Ignore,
            },
        }
    }
}

/// Decide what to do next about a payment notice.
pub fn handle_paid_notify(
    notify: &PaidNotify,
    in_paid_close_group: Option<bool>,
    payment: &Option<Result<bool, String>>,
) -> (a: PaidNotifyAction)
    ensures
        a == paid_notify_action(*notify, in_paid_close_group, *payment),
{
    if notify.proof_of_payment.len() == 0 {
        return PaidNotifyAction::Ignore;
    }
    match in_paid_close_group {
        None => return PaidNotifyAction::CheckPaidCloseGroup,
        Some(false) => return PaidNotifyAction::Ignore,
        Some(true) => {},
    }
    match payment {
        None => PaidNotifyAction::VerifyPayment,
        Some(Ok(can_store)) => {
            if *can_store {
                PaidNotifyAction::RecordPaid
            } else {
                PaidNotifyAction::Ignore
            }
        },
        Some(Err(_)) => PaidNotifyAction::Ignore,
    }
}

/// A notice puts a key on the paid list exactly when it carries a receipt, this
/// node is in the paid close group, and the payment permits storing.
pub proof fn lemma_paid_notify_recorded_iff(
    notify: PaidNotify,
    in_paid_close_group: Option<bool>,
    payment: Option<Result<bool, String>>,
)
    ensures
        paid_notify_action(notify, in_paid_close_group, payment) is RecordPaid <==> {
            &&& notify.proof_of_payment@.len() > 0
            &&& in_paid_close_group == Some(true)
            &&& payment matches Some(Ok(true))
        },
{
}

// ---------------------------------------------------------------------------
// Verification requests
// ---------------------------------------------------------------------------

/// Whether the paid status of position `i` is asked. Positions past the end of
/// the key list are disregarded.
pub open spec fn paid_asked(request: VerificationRequest, i: int) -> bool {
    &&& 0 <= i < request.keys@.len()
    &&& exists|j: int|
        0 <= j < request.paid_list_check_indices@.len()
            && #[trigger] request.paid_list_check_indices@[j] == i
}

/// Answer about position `i`. A failed lookup counts as absent or unpaid.
pub open spec fn key_answer(
    request: VerificationRequest,
    i: int,
    stored: Option<bool>,
    paid: Option<bool>,
) -> KeyVerificationResult {
    KeyVerificationResult {
        key: request.keys@[i],
        present: stored == Some(true),
        paid: if paid_asked(request, i) {
            Some(paid == Some(true))
        } else {
            None
        },
    }
}

/// Whether the paid status of position `i` is asked.
pub fn is_paid_asked(request: &VerificationRequest, i: usize) -> (r: bool)
    ensures
        r == paid_asked(*request, i as int),
{
    if i >= request.keys.len() {
        return false;
    }
    for j in 0..request.paid_list_check_indices.len()
        invariant
            forall|k: int| 0 <= k < j ==> #[trigger] request.paid_list_check_indices@[k] != i,
            i < request.keys@.len(),
    {
        if request.paid_list_check_indices[j] as u64 == i as u64 {
            assert(request.paid_list_check_indices@[j as int] == i);
            return true;
        }
    }
    false
}

/// Answer a verification request: one result per key, in order. `stored` and
/// `paid` hold the lookups by position, `None` where one failed.
pub fn handle_verification_request(
    request: &VerificationRequest,
    stored: &Vec<Option<bool>>,
    paid: &Vec<Option<bool>>,
) -> (results: Vec<KeyVerificationResult>)
    requires
        stored@.len() == request.keys@.len(),
        paid@.len() == request.keys@.len(),
    ensures
        results@ == Seq::new(
            request.keys@.len(),
            |i: int| key_answer(*request, i, stored@[i], paid@[i]),
        ),
{
    let mut results: Vec<KeyVerificationResult> = Vec::new();
    for i in 0..request.keys.len()
        invariant
            stored@.len() == request.keys@.len(),
            paid@.len() == request.keys@.len(),
            results@.len() == i,
            forall|j: int|
                0 <= j < i ==> #[trigger] results@[j] == key_answer(
                    *request,
                    j,
                    stored@[j],
                    paid@[j],
                ),
    {
        let present = match stored[i] {
            Some(b) => b,
            None => false,
        };
        let paid_status: Option<bool> = if is_paid_asked(request, i) {
            Some(
                match paid[i] {
                    Some(b) => b,
                    None => false,
                },
            )
        } else {
            None
        };
        results.push(KeyVerificationResult { key: request.keys[i], present, paid: paid_status });
    }
    results
}

/// The paid status is answered exactly at the positions that the request lists;
/// a listed position past the end of the key list changes no answer.
pub proof fn lemma_paid_answered_where_asked(request: VerificationRequest, i: int)
    requires
        0 <= i < request.keys@.len(),
    ensures
        paid_asked(request, i) <==> i <= u32::MAX && request.paid_list_check_indices@.contains(
            i as u32,
        ),
        forall|j: int|
            j >= request.keys@.len() ==> !#[trigger] paid_asked(request, j),
{
    let indices = request.paid_list_check_indices@;
    if i <= u32::MAX && indices.contains(i as u32) {
        let j = choose|j: int| 0 <= j < indices.len() && indices[j] == i as u32;
        assert(indices[j] == i);
    }
    if paid_asked(request, i) {
        let j = choose|j: int| 0 <= j < indices.len() && #[trigger] indices[j] == i;
        assert(indices[j] == i as u32);
    }
}

// ---------------------------------------------------------------------------
// Fetch requests, audit challenges and replies
// ---------------------------------------------------------------------------

/// Answer a request for `key` with what the store returned.
pub fn handle_fetch_request(key: XorName, lookup: Result<Option<Vec<u8>>, String>) -> (r:
    FetchResponse)
    ensures
        r@ == match lookup {
            Ok(Some(data)) => FetchResponseModel::Success(key, data@),
            Ok(None) => FetchResponseModel::NotFound(key),
            Err(e) => FetchResponseModel::Error(key, e@),
        },
{
    match lookup {
        Ok(Some(data)) => FetchResponse::Success { key, data },
        Ok(None) => FetchResponse::NotFound { key },
        Err(reason) => FetchResponse::Error { key, reason },
    }
}

/// Number of stored chunks that bounds an audit challenge; zero when the store
/// could not tell.
pub fn audit_chunk_bound(current_chunks: &Result<u64, String>) -> (n: usize)
    ensures
        n == match *current_chunks {
            Ok(c) => c as usize,
            Err(_) => 0usize,
        },
{
    match current_chunks {
        Ok(c) => *c as usize,
        Err(_) => 0,
    }
}

/// How an answer travels.
#[derive(Debug)]
pub enum ReplyPath {
    /// Through the request-response mechanism, under this identifier.
    RequestResponse(String),
    /// As a plain message.
    Plain,
}

/// Decide how an answer travels: a request that came in through the
/// request-response mechanism is answered through it.
pub fn reply_path(rr_message_id: &Option<String>) -> (p: ReplyPath)
    ensures
        match *rr_message_id {
            Some(id) => p matches ReplyPath::RequestResponse(out) && out@ == id@,
            None => p is Plain,
        },
{
    match rr_message_id {
        Some(id) => ReplyPath::RequestResponse(id.clone()),
        None => ReplyPath::Plain,
    }
}

/// The answer to `request`: it carries the identifier of the request.
pub fn reply_message(request: &ReplicationMessage, body: ReplicationMessageBody) -> (m:
    ReplicationMessage)
    ensures
        m.request_id == request.request_id,
        m.body == body,
{
    ReplicationMessage { request_id: request.request_id, body }
}

/// Whether an answer left this node: it was encoded and the network took it.
/// `sent` is `None` when encoding failed and nothing was handed over.
pub fn response_accepted(sent: &Option<Result<(), String>>) -> (r: bool)
    ensures
        r == (*sent matches Some(Ok(_))),
{
    match sent {
        Some(Ok(_)) => true,
        Some(Err(_)) => false,
        None => false,
    }
}

// ---------------------------------------------------------------------------
// Laws
// ---------------------------------------------------------------------------

/// Every request reaches the handler of its own kind, and only answers are
/// passed over: they are awaited by whoever asked.
pub proof fn lemma_requests_reach_their_handler(body: ReplicationMessageBody, bootstrapping: bool)
    ensures
        ({
            let route = route_of(body, bootstrapping);
            &&& route is FreshOffer <==> body is FreshReplicationOffer
            &&& route is PaidNotify <==> body is PaidNotify
            &&& route is NeighborSync <==> body is NeighborSyncRequest
            &&& route is Verification <==> body is VerificationRequest
            &&& route is Fetch <==> body is FetchRequest
            &&& route is AuditChallenge <==> body is AuditChallenge
            &&& route is Ignore <==> body is FreshReplicationResponse || body is NeighborSyncResponse
                || body is VerificationResponse || body is FetchResponse || body is AuditResponse
            &&& route matches MessageRoute::NeighborSync { bootstrapping: told } ==> told
                == bootstrapping
            &&& route matches MessageRoute::AuditChallenge { bootstrapping: told } ==> told
                == bootstrapping
        }),
{
}

/// The engine sees the payloads of authenticated senders only: of a message on
/// the protocol's own topic the data as it is, of one on the request-response
/// topic the request in its envelope with the identifier to answer under, and
/// of answers, broken envelopes and other topics nothing.
pub proof fn lemma_engine_sees_requests_only(
    topic: Seq<char>,
    authenticated: bool,
    data: Seq<u8>,
    protocol: Seq<char>,
)
    ensures
        ({
            let seen = replication_payload(topic, authenticated, data, protocol);
            let plain = topic == protocol;
            let wrapped = topic == "/rr/"@ + protocol;
            &&& !authenticated ==> seen is None
            &&& !plain && !wrapped ==> seen is None
            &&& authenticated && plain ==> (seen matches Some(p) && p.payload == data
                && p.rr_message_id is None)
            &&& authenticated && wrapped ==> match envelope_parts(data) {
                Some((id, is_response, payload)) => if is_response {
                    seen is None
                } else {
                    seen matches Some(p) && p.payload == payload && p.rr_message_id == Some(id)
                },
                None => seen is None,
            }
        }),
{
    reveal_strlit("/rr/");
    assert(("/rr/"@ + protocol).len() == protocol.len() + 4);
}

/// The questions about a fresh offer are asked one after another, each exactly
/// when all before it were answered in its favour and it was not asked yet.
pub proof fn lemma_fresh_offer_asks_in_turn(
    offer: FreshReplicationOffer,
    max_chunk_size: u64,
    progress: FreshOfferProgress,
)
    ensures
        ({
            let action = fresh_offer_action(offer, max_chunk_size, progress);
            let sound = offer.proof_of_payment@.len() > 0 && offer.data@.len() <= max_chunk_size;
            let ours = sound && progress.responsible == Some(true);
            let room = ours && (progress.capacity matches Some(Ok(_)));
            let paid = room && (progress.payment matches Some(Ok(true)));
            &&& action is CheckResponsibility <==> sound && progress.responsible is None
            &&& action is CheckCapacity <==> ours && progress.capacity is None
            &&& action is VerifyPayment <==> room && progress.payment is None
            &&& action is RecordPaid <==> paid && progress.recorded is None
            &&& action is Store <==> paid && progress.recorded is Some && progress.stored is None
        }),
{
}

/// Why a fresh offer is refused: the first thing that is wrong with it is named
/// in the answer, which goes to the offered key, and only a record that is too
/// large is held against its sender.
pub proof fn lemma_fresh_offer_refusals(
    offer: FreshReplicationOffer,
    max_chunk_size: u64,
    progress: FreshOfferProgress,
)
    ensures
        ({
            let action = fresh_offer_action(offer, max_chunk_size, progress);
            let sound = offer.proof_of_payment@.len() > 0 && offer.data@.len() <= max_chunk_size;
            let ours = sound && progress.responsible == Some(true);
            let room = ours && (progress.capacity matches Some(Ok(_)));
            let paid = room && (progress.payment matches Some(Ok(true)));
            &&& offer.proof_of_payment@.len() == 0 ==> action == FreshActionModel::Respond(
                FreshResponseModel::Rejected(offer.key, "Missing proof of payment"@),
                false,
            )
            &&& offer.proof_of_payment@.len() > 0 && offer.data@.len() > max_chunk_size ==> action
                == FreshActionModel::Respond(
                FreshResponseModel::Rejected(
                    offer.key,
                    "Data size "@ + decimal_chars(offer.data@.len())
                        + " exceeds maximum chunk size "@ + decimal_chars(max_chunk_size as nat),
                ),
                true,
            )
            &&& sound && progress.responsible == Some(false) ==> action
                == FreshActionModel::Respond(
                FreshResponseModel::Rejected(offer.key, "Not responsible for this key"@),
                false,
            )
            &&& progress.capacity matches Some(Err(e)) ==> ours ==> action
                == FreshActionModel::Respond(
                FreshResponseModel::Rejected(offer.key, e@),
                false,
            )
            &&& progress.payment matches Some(Err(e)) ==> room ==> action
                == FreshActionModel::Respond(
                FreshResponseModel::Rejected(offer.key, "Payment verification error: "@ + e@),
                false,
            )
            &&& room && progress.payment == Some(Ok::<bool, String>(false)) ==> action
                == FreshActionModel::Respond(
                FreshResponseModel::Rejected(
                    offer.key,
                    "Payment verification failed: payment required"@,
                ),
                false,
            )
            &&& progress.stored matches Some(Err(e)) ==> paid && progress.recorded is Some ==> action
                == FreshActionModel::Respond(
                FreshResponseModel::Rejected(offer.key, e@),
                false,
            )
        }),
{
}

/// A payment notice without a receipt, for a key of another group or with a
/// payment that does not hold is dropped; before that is known, first the group
/// and then the payment is asked about.
pub proof fn lemma_paid_notify_asks_in_turn(
    notify: PaidNotify,
    in_paid_close_group: Option<bool>,
    payment: Option<Result<bool, String>>,
)
    ensures
        ({
            let action = paid_notify_action(notify, in_paid_close_group, payment);
            let receipt = notify.proof_of_payment@.len() > 0;
            &&& action is CheckPaidCloseGroup <==> receipt && in_paid_close_group is None
            &&& action is VerifyPayment <==> receipt && in_paid_close_group == Some(true)
                && payment is None
            &&& action is Ignore <==> !receipt || in_paid_close_group == Some(false) || (
            in_paid_close_group == Some(true) && payment is Some && !(payment matches Some(
                Ok(true),
            )))
        }),
{
}

/// The answer about a key names that key; it is present only if the lookup
/// found it, and its paid status is given exactly where the request asks for
/// it, as paid only if that lookup found it.
pub proof fn lemma_answer_reports_the_lookups(
    request: VerificationRequest,
    i: int,
    stored: Option<bool>,
    paid: Option<bool>,
)
    requires
        0 <= i < request.keys@.len(),
    ensures
        ({
            let answer = key_answer(request, i, stored, paid);
            let asked = i <= u32::MAX && request.paid_list_check_indices@.contains(i as u32);
            &&& answer.key == request.keys@[i]
            &&& answer.present <==> stored == Some(true)
            &&& answer.paid is Some <==> asked
            &&& asked ==> (answer.paid == Some(true) <==> paid == Some(true))
        }),
{
    lemma_paid_answered_where_asked(request, i);
}

} // verus!
