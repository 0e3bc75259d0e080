//! Incoming replication messages.

use ant_node::error::Error;
use ant_node::ids::PeerId;
use ant_node::replication::inbound::{
    audit_chunk_bound, handle_fetch_request, handle_fresh_offer, handle_paid_notify,
    handle_replication_message, handle_verification_request, incoming_payload, is_paid_asked,
    react_to_dht_event,
    reply_message, reply_path, request_from_envelope, response_accepted, DhtEvent, DhtReaction, FreshOfferAction,
    FreshOfferProgress, MessageRoute, PaidNotifyAction, ReplyPath,
};
use ant_node::replication::protocol::{
    FetchRequest, FetchResponse, FreshReplicationOffer, FreshReplicationResponse,
    NeighborSyncRequest, PaidNotify, ReplicationMessage, ReplicationMessageBody,
    VerificationRequest,
};

const MAX: u64 = 8;

fn envelope(id: &str, is_response: bool, payload: &[u8]) -> Vec<u8> {
    let mut bytes = vec![id.len() as u8];
    bytes.extend_from_slice(id.as_bytes());
    bytes.push(u8::from(is_response));
    bytes.push(payload.len() as u8);
    bytes.extend_from_slice(payload);
    bytes
}

fn topics() -> (String, String) {
    ("replication/1".to_string(), "/rr/replication/1".to_string())
}

#[test]
fn plain_message_is_taken_as_it_is() {
    let (protocol, _) = topics();
    let from = Some(PeerId([1; 32]));
    let p = incoming_payload(&protocol, &from, vec![1, 2, 3], &protocol).unwrap();
    assert_eq!(p.payload, vec![1, 2, 3]);
    assert!(p.rr_message_id.is_none());
}

#[test]
fn request_is_taken_out_of_its_envelope() {
    let (protocol, wrapped) = topics();
    let from = Some(PeerId([1; 32]));
    let data = envelope("msg-1", false, &[9, 8, 7]);
    let p = incoming_payload(&wrapped, &from, data, &protocol).unwrap();
    assert_eq!(p.payload, vec![9, 8, 7]);
    assert_eq!(p.rr_message_id.as_deref(), Some("msg-1"));
}

#[test]
fn responses_and_broken_envelopes_are_ignored() {
    let (protocol, wrapped) = topics();
    let from = Some(PeerId([1; 32]));
    let response = envelope("msg-1", true, &[9]);
    assert!(incoming_payload(&wrapped, &from, response, &protocol).is_none());
    assert!(incoming_payload(&wrapped, &from, vec![200], &protocol).is_none());
}

#[test]
fn strangers_and_other_topics_are_ignored() {
    let (protocol, _) = topics();
    assert!(incoming_payload(&protocol, &None, vec![1], &protocol).is_none());
    let other = "other".to_string();
    let from = Some(PeerId([1; 32]));
    assert!(incoming_payload(&other, &from, vec![1], &protocol).is_none());
    let half = "/rr/".to_string();
    assert!(incoming_payload(&half, &from, vec![1], &protocol).is_none());
}

#[test]
fn only_requests_come_out_of_envelopes() {
    let p = request_from_envelope(Some(("a".to_string(), false, vec![5]))).unwrap();
    assert_eq!(p.payload, vec![5]);
    assert_eq!(p.rr_message_id.as_deref(), Some("a"));
    assert!(request_from_envelope(Some(("a".to_string(), true, vec![5]))).is_none());
    assert!(request_from_envelope(None).is_none());
}

#[test]
fn dht_events() {
    assert!(matches!(
        react_to_dht_event(&DhtEvent::KClosestPeersChanged),
        DhtReaction::TriggerNeighborSync
    ));
    let removed = DhtEvent::PeerRemoved {
        peer_id: PeerId([3; 32]),
    };
    assert!(matches!(
        react_to_dht_event(&removed),
        DhtReaction::ForgetRepairProofs { peer } if peer.0 == [3; 32]
    ));
    assert!(matches!(
        react_to_dht_event(&DhtEvent::Other),
        DhtReaction::Ignore
    ));
}

fn message(body: ReplicationMessageBody) -> Result<ReplicationMessage, String> {
    Ok(ReplicationMessage {
        request_id: 1,
        body,
    })
}

#[test]
fn messages_find_their_handler() {
    let sync = message(ReplicationMessageBody::NeighborSyncRequest(
        NeighborSyncRequest {
            replica_hints: Vec::new(),
            paid_hints: Vec::new(),
            bootstrapping: false,
        },
    ));
    assert_eq!(
        handle_replication_message(&sync, true).unwrap(),
        MessageRoute::NeighborSync {
            bootstrapping: true
        }
    );
    let fetch = message(ReplicationMessageBody::FetchRequest(FetchRequest {
        key: [1; 32],
    }));
    assert_eq!(
        handle_replication_message(&fetch, true).unwrap(),
        MessageRoute::Fetch
    );
    let challenge = message(ReplicationMessageBody::AuditChallenge(vec![1]));
    assert_eq!(
        handle_replication_message(&challenge, false).unwrap(),
        MessageRoute::AuditChallenge {
            bootstrapping: false
        }
    );
    let answer = message(ReplicationMessageBody::AuditResponse(vec![1]));
    assert_eq!(
        handle_replication_message(&answer, false).unwrap(),
        MessageRoute::Ignore
    );
}

#[test]
fn answers_carry_the_id_of_the_request() {
    let request = ReplicationMessage {
        request_id: 77,
        body: ReplicationMessageBody::AuditChallenge(vec![1]),
    };
    let answer = reply_message(&request, ReplicationMessageBody::AuditResponse(vec![2]));
    assert_eq!(answer.request_id, 77);
    assert!(matches!(answer.body, ReplicationMessageBody::AuditResponse(b) if b == vec![2]));
}

#[test]
fn undecodable_message_is_a_protocol_error() {
    let r = handle_replication_message(&Err("eof".to_string()), false);
    assert!(matches!(
        r,
        Err(Error::Protocol(e)) if e == "Failed to decode replication message: eof"
    ));
}

fn offer(data: &[u8], receipt: &[u8]) -> FreshReplicationOffer {
    FreshReplicationOffer {
        key: [7; 32],
        data: data.to_vec(),
        proof_of_payment: receipt.to_vec(),
    }
}

fn progress() -> FreshOfferProgress {
    FreshOfferProgress {
        responsible: None,
        capacity: None,
        payment: None,
        recorded: None,
        stored: None,
    }
}

fn refusal(action: FreshOfferAction) -> (String, bool) {
    match action {
        FreshOfferAction::Respond {
            response: FreshReplicationResponse::Rejected { key, reason },
            penalize,
        } => {
            assert_eq!(key, [7; 32]);
            (reason, penalize)
        }
        other => panic!("no refusal: {other:?}"),
    }
}

#[test]
fn offer_goes_through_all_checks_in_order() {
    let offer = offer(&[1; 8], &[1]);
    let mut p = progress();
    let step = |p: &FreshOfferProgress| handle_fresh_offer(&offer, MAX, p);
    assert!(matches!(step(&p), FreshOfferAction::CheckResponsibility));
    p.responsible = Some(true);
    assert!(matches!(step(&p), FreshOfferAction::CheckCapacity));
    p.capacity = Some(Ok(()));
    assert!(matches!(step(&p), FreshOfferAction::VerifyPayment));
    p.payment = Some(Ok(true));
    assert!(matches!(step(&p), FreshOfferAction::RecordPaid));
    p.recorded = Some(Err("paid list".to_string()));
    assert!(matches!(step(&p), FreshOfferAction::Store));
    p.recorded = Some(Ok(()));
    assert!(matches!(step(&p), FreshOfferAction::Store));
    p.stored = Some(Ok(()));
    assert!(matches!(
        step(&p),
        FreshOfferAction::Respond {
            response: FreshReplicationResponse::Accepted { key },
            penalize: false,
        } if key == [7; 32]
    ));
}

#[test]
fn offer_refusals() {
    let mut p = progress();
    assert_eq!(
        refusal(handle_fresh_offer(&offer(&[1], &[]), MAX, &p)),
        ("Missing proof of payment".to_string(), false)
    );
    assert_eq!(
        refusal(handle_fresh_offer(&offer(&[1; 12], &[1]), MAX, &p)),
        (
            "Data size 12 exceeds maximum chunk size 8".to_string(),
            true
        )
    );
    let good = offer(&[1; 8], &[1]);
    p.responsible = Some(false);
    assert_eq!(
        refusal(handle_fresh_offer(&good, MAX, &p)),
        ("Not responsible for this key".to_string(), false)
    );
    p.responsible = Some(true);
    p.capacity = Some(Err("disk full".to_string()));
    assert_eq!(
        refusal(handle_fresh_offer(&good, MAX, &p)),
        ("disk full".to_string(), false)
    );
    p.capacity = Some(Ok(()));
    p.payment = Some(Ok(false));
    assert_eq!(
        refusal(handle_fresh_offer(&good, MAX, &p)),
        (
            "Payment verification failed: payment required".to_string(),
            false
        )
    );
    p.payment = Some(Err("rpc".to_string()));
    assert_eq!(
        refusal(handle_fresh_offer(&good, MAX, &p)),
        ("Payment verification error: rpc".to_string(), false)
    );
    p.payment = Some(Ok(true));
    p.recorded = Some(Ok(()));
    p.stored = Some(Err("write".to_string()));
    assert_eq!(
        refusal(handle_fresh_offer(&good, MAX, &p)),
        ("write".to_string(), false)
    );
}

#[test]
fn paid_notices() {
    let notice = |receipt: &[u8]| PaidNotify {
        key: [1; 32],
        proof_of_payment: receipt.to_vec(),
    };
    let good = notice(&[1]);
    assert_eq!(
        handle_paid_notify(&notice(&[]), Some(true), &Some(Ok(true))),
        PaidNotifyAction::Ignore
    );
    assert_eq!(
        handle_paid_notify(&good, None, &None),
        PaidNotifyAction::CheckPaidCloseGroup
    );
    assert_eq!(
        handle_paid_notify(&good, Some(false), &None),
        PaidNotifyAction::Ignore
    );
    assert_eq!(
        handle_paid_notify(&good, Some(true), &None),
        PaidNotifyAction::VerifyPayment
    );
    assert_eq!(
        handle_paid_notify(&good, Some(true), &Some(Ok(true))),
        PaidNotifyAction::RecordPaid
    );
    assert_eq!(
        handle_paid_notify(&good, Some(true), &Some(Ok(false))),
        PaidNotifyAction::Ignore
    );
    assert_eq!(
        handle_paid_notify(&good, Some(true), &Some(Err("rpc".to_string()))),
        PaidNotifyAction::Ignore
    );
}

#[test]
fn verification_answers_in_order() {
    let request = VerificationRequest {
        keys: vec![[1; 32], [2; 32], [3; 32]],
        paid_list_check_indices: vec![2, 0, 99],
    };
    let results = handle_verification_request(
        &request,
        &vec![Some(true), Some(false), None],
        &vec![None, Some(true), Some(true)],
    );
    assert_eq!(results.len(), 3);
    assert_eq!(
        (results[0].key, results[0].present, results[0].paid),
        ([1; 32], true, Some(false))
    );
    assert_eq!(
        (results[1].key, results[1].present, results[1].paid),
        ([2; 32], false, None)
    );
    assert_eq!(
        (results[2].key, results[2].present, results[2].paid),
        ([3; 32], false, Some(true))
    );
}

#[test]
fn listed_positions_past_the_end_change_nothing() {
    let request = VerificationRequest {
        keys: vec![[1; 32]],
        paid_list_check_indices: vec![1, u32::MAX],
    };
    assert!(!is_paid_asked(&request, 0));
    assert!(!is_paid_asked(&request, 1));
    let results = handle_verification_request(&request, &vec![Some(true)], &vec![Some(true)]);
    assert_eq!(results[0].paid, None);
}

#[test]
fn fetch_answers() {
    assert!(matches!(
        handle_fetch_request([1; 32], Ok(Some(vec![4]))),
        FetchResponse::Success { key, data } if key == [1; 32] && data == vec![4]
    ));
    assert!(matches!(
        handle_fetch_request([1; 32], Ok(None)),
        FetchResponse::NotFound { key } if key == [1; 32]
    ));
    assert!(matches!(
        handle_fetch_request([1; 32], Err("io".to_string())),
        FetchResponse::Error { key, reason } if key == [1; 32] && reason == "io"
    ));
}

#[test]
fn audit_bound_is_zero_when_unknown() {
    assert_eq!(audit_chunk_bound(&Ok(12)), 12);
    assert_eq!(audit_chunk_bound(&Err("io".to_string())), 0);
}

#[test]
fn replies_travel_as_the_request_came() {
    assert!(matches!(
        reply_path(&Some("id".to_string())),
        ReplyPath::RequestResponse(id) if id == "id"
    ));
    assert!(matches!(reply_path(&None), ReplyPath::Plain));
    assert!(response_accepted(&Some(Ok(()))));
    assert!(!response_accepted(&Some(Err("closed".to_string()))));
    assert!(!response_accepted(&None));
}
