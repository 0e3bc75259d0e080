//! The replication pipeline: admission, verification, fetching, bootstrap.

use ant_node::bytemap::{ByteMap, ByteSet};
use ant_node::ids::{is_nearer, xor_distance, PeerId};
use ant_node::replication::admission::admit_and_queue_hints;
use ant_node::replication::bootstrap::BootstrapState;
use ant_node::replication::fetch::{
    execute_single_fetch, fetch_message, fill_fetch_slots, finish_fetch, new_fetch_message,
    FetchNext, FetchReply, FetchResult, FetchStep,
};
use ant_node::replication::protocol::{FetchResponse, ReplicationMessageBody};
use ant_node::replication::queues::ReplicationQueues;
use ant_node::replication::types::{
    AdmissionResult, HintPipeline, KeyVerificationOutcome, VerificationEntry, VerificationState,
};
use ant_node::replication::verification::{begin_verification_cycle, split_by_paid_list};
use ant_node::text::decimal;

const SELF: PeerId = PeerId([0; 32]);

fn peer(n: u8) -> PeerId {
    PeerId([n; 32])
}

fn queues() -> ReplicationQueues {
    ReplicationQueues::new(4, 2, 2)
}

fn entry(pipeline: HintPipeline, sender: u8, at: u64) -> VerificationEntry {
    VerificationEntry {
        state: VerificationState::PendingVerify,
        pipeline,
        created_at: at,
        hint_sender: peer(sender),
    }
}

fn pend(q: &mut ReplicationQueues, key: u8, pipeline: HintPipeline) {
    assert_eq!(
        q.add_pending_verify([key; 32], entry(pipeline, key, 0)),
        AdmissionResult::Admitted
    );
}

#[test]
fn decimal_has_no_leading_zeros() {
    assert_eq!(decimal(0), "0");
    assert_eq!(decimal(9), "9");
    assert_eq!(decimal(10), "10");
    assert_eq!(decimal(18_446_744_073_709_551_615), "18446744073709551615");
}

#[test]
fn distance_is_exclusive_or() {
    let mut a = [0u8; 32];
    a[0] = 0b1100;
    let mut b = [0u8; 32];
    b[0] = 0b1010;
    let d = xor_distance(&a, &b);
    assert_eq!(d[0], 0b0110);
    assert_eq!(d[1], 0);
    assert!(is_nearer(&[1; 32], &[2; 32]));
    assert!(!is_nearer(&[2; 32], &[1; 32]));
    assert!(!is_nearer(&[1; 32], &[1; 32]));
}

#[test]
fn byte_map_and_set() {
    let mut m: ByteMap<u32> = ByteMap::new();
    m.insert([1; 32], 5);
    m.insert([1; 32], 6);
    m.insert([2; 32], 7);
    assert_eq!(m.len(), 2);
    assert_eq!(m.get(&[1; 32]), Some(&6));
    assert_eq!(m.remove(&[1; 32]), Some(6));
    assert_eq!(m.remove(&[1; 32]), None);
    assert!(!m.contains(&[1; 32]));
    assert_eq!(m.keys(), vec![[2; 32]]);
    let mut s = ByteSet::new();
    assert!(s.is_empty());
    s.insert([1; 32]);
    s.insert([1; 32]);
    assert_eq!(s.to_vec(), vec![[1; 32]]);
    s.remove(&[1; 32]);
    assert!(s.is_empty());
}

#[test]
fn admission_bounds() {
    let mut q = queues();
    let e = |s: u8| entry(HintPipeline::Replica, s, 0);
    assert_eq!(q.add_pending_verify([1; 32], e(1)), AdmissionResult::Admitted);
    assert_eq!(
        q.add_pending_verify([1; 32], e(2)),
        AdmissionResult::AlreadyPresent
    );
    assert_eq!(q.add_pending_verify([2; 32], e(1)), AdmissionResult::Admitted);
    // The third key of one sender.
    assert_eq!(
        q.add_pending_verify([3; 32], e(1)),
        AdmissionResult::CapacityRejected
    );
    assert_eq!(q.add_pending_verify([3; 32], e(2)), AdmissionResult::Admitted);
    assert_eq!(q.add_pending_verify([4; 32], e(2)), AdmissionResult::Admitted);
    // The fifth key of all.
    assert_eq!(
        q.add_pending_verify([5; 32], e(3)),
        AdmissionResult::CapacityRejected
    );
}

#[test]
fn hints_are_accounted_for() {
    let mut q = queues();
    let outcome = admit_and_queue_hints(
        &mut q,
        &vec![[1; 32], [2; 32], [3; 32]],
        &vec![Some(true), Some(false), None],
        &vec![[2; 32], [4; 32]],
        &peer(9),
        0,
    );
    // The first is stored, the second and third are found, the fourth is
    // already there and the fifth finds no room for this sender.
    assert_eq!(outcome.discovered.to_vec().len(), 2);
    assert!(outcome.discovered.contains(&[2; 32]));
    assert!(outcome.discovered.contains(&[3; 32]));
    assert_eq!(outcome.capacity_rejected_count, 1);
    assert_eq!(
        q.get_pending(&[2; 32]).unwrap().pipeline,
        HintPipeline::Replica
    );
    assert!(!q.contains_key(&[1; 32]));
}

#[test]
fn stale_keys_are_evicted() {
    let mut q = queues();
    q.add_pending_verify([1; 32], entry(HintPipeline::Replica, 1, 0));
    q.add_pending_verify([2; 32], entry(HintPipeline::Replica, 2, 50));
    let keys = begin_verification_cycle(&mut q, 100, 100);
    assert_eq!(keys, vec![[2; 32]]);
}

#[test]
fn nearest_candidate_is_fetched_first() {
    let mut q = queues();
    pend(&mut q, 5, HintPipeline::Replica);
    pend(&mut q, 3, HintPipeline::Replica);
    assert!(q.promote_pending_to_fetch([5; 32], [5; 32], vec![peer(1)]));
    assert!(q.promote_pending_to_fetch([3; 32], [3; 32], vec![peer(2), peer(3)]));
    let tasks = fill_fetch_slots(&mut q, 0, 1);
    assert_eq!(tasks.len(), 1);
    assert_eq!(tasks[0].key, [3; 32]);
    assert_eq!(tasks[0].source.0, peer(2).0);
    let tasks = fill_fetch_slots(&mut q, 1, 1);
    assert!(tasks.is_empty());
    let tasks = fill_fetch_slots(&mut q, 1, 2);
    assert_eq!(tasks[0].key, [5; 32]);
    assert!(q.dequeue_fetch().is_none());
}

#[test]
fn full_fetch_queue_keeps_verified_keys_pending() {
    let mut q = queues();
    for k in 1..=3 {
        pend(&mut q, k, HintPipeline::Replica);
    }
    assert!(q.promote_pending_to_fetch([1; 32], [1; 32], vec![peer(1)]));
    assert!(q.promote_pending_to_fetch([2; 32], [2; 32], vec![peer(1)]));
    assert!(!q.promote_pending_to_fetch([3; 32], [3; 32], vec![peer(1)]));
    assert!(q.get_pending(&[3; 32]).is_some());
}

fn in_flight(sources: Vec<PeerId>) -> ReplicationQueues {
    let mut q = queues();
    pend(&mut q, 1, HintPipeline::Replica);
    assert!(q.promote_pending_to_fetch([1; 32], [1; 32], sources));
    assert_eq!(fill_fetch_slots(&mut q, 0, 1).len(), 1);
    q
}

#[test]
fn source_failure_moves_to_the_next_source() {
    let mut q = in_flight(vec![peer(1), peer(2)]);
    let failed = Some(FetchResult::SourceFailed);
    assert!(matches!(
        finish_fetch(&mut q, &[1; 32], failed),
        FetchNext::Retry { source } if source.0 == peer(2).0
    ));
    assert!(q.contains_key(&[1; 32]));
    assert!(matches!(
        finish_fetch(&mut q, &[1; 32], failed),
        FetchNext::Terminal
    ));
    assert!(!q.contains_key(&[1; 32]));
}

#[test]
fn other_outcomes_end_the_fetch() {
    for outcome in [
        Some(FetchResult::Stored),
        Some(FetchResult::IntegrityFailed),
        None,
    ] {
        let mut q = in_flight(vec![peer(1), peer(2)]);
        assert!(matches!(
            finish_fetch(&mut q, &[1; 32], outcome),
            FetchNext::Terminal
        ));
        assert!(!q.contains_key(&[1; 32]));
    }
}

fn success(key: u8, len: usize) -> FetchReply {
    FetchReply::Answer(FetchResponse::Success {
        key: [key; 32],
        data: vec![0; len],
    })
}

fn finish(result: FetchResult, penalize: bool) -> FetchStep {
    FetchStep::Finish { result, penalize }
}

#[test]
fn fetched_record_is_checked_then_stored() {
    let key = [1; 32];
    let reply = success(1, 8);
    assert_eq!(
        execute_single_fetch(&key, 8, &reply, &None, None),
        FetchStep::ComputeAddress
    );
    assert_eq!(
        execute_single_fetch(&key, 8, &reply, &Some(key), None),
        FetchStep::Store
    );
    assert_eq!(
        execute_single_fetch(&key, 8, &reply, &Some(key), Some(true)),
        finish(FetchResult::Stored, false)
    );
    assert_eq!(
        execute_single_fetch(&key, 8, &reply, &Some(key), Some(false)),
        finish(FetchResult::SourceFailed, false)
    );
}

#[test]
fn false_records_are_refused() {
    let key = [1; 32];
    let refused = finish(FetchResult::IntegrityFailed, true);
    assert_eq!(
        execute_single_fetch(&key, 8, &success(2, 8), &None, None),
        refused
    );
    assert_eq!(
        execute_single_fetch(&key, 8, &success(1, 9), &None, None),
        refused
    );
    assert_eq!(
        execute_single_fetch(&key, 8, &success(1, 8), &Some([2; 32]), None),
        refused
    );
}

#[test]
fn failed_sources() {
    let key = [1; 32];
    let step = |reply: FetchReply| execute_single_fetch(&key, 8, &reply, &None, None);
    let silent = finish(FetchResult::SourceFailed, false);
    let blamed = finish(FetchResult::SourceFailed, true);
    assert_eq!(step(FetchReply::NotEncoded), silent);
    assert_eq!(step(FetchReply::SendFailed), silent);
    assert_eq!(step(FetchReply::Undecodable), blamed);
    assert_eq!(step(FetchReply::Unexpected), blamed);
    assert_eq!(
        step(FetchReply::Answer(FetchResponse::NotFound { key })),
        blamed
    );
    assert_eq!(
        step(FetchReply::Answer(FetchResponse::Error {
            key,
            reason: "busy".to_string()
        })),
        blamed
    );
}

#[test]
fn fetch_messages_ask_for_the_key() {
    let m = fetch_message(5, [1; 32]);
    assert_eq!(m.request_id, 5);
    assert!(
        matches!(m.body, ReplicationMessageBody::FetchRequest(r) if r.key == [1; 32])
    );
    let m = new_fetch_message([2; 32]);
    assert!(
        matches!(m.body, ReplicationMessageBody::FetchRequest(r) if r.key == [2; 32])
    );
}

#[test]
fn locally_paid_keys_skip_the_network() {
    let mut q = queues();
    pend(&mut q, 1, HintPipeline::Replica);
    pend(&mut q, 2, HintPipeline::PaidOnly);
    pend(&mut q, 3, HintPipeline::PaidOnly);
    pend(&mut q, 4, HintPipeline::Replica);
    let keys = vec![[1; 32], [2; 32], [3; 32], [4; 32]];
    let split = split_by_paid_list(
        &mut q,
        &keys,
        &vec![Some(true), Some(true), Some(true), None],
    );
    assert_eq!(split.probe, vec![[1; 32]]);
    assert_eq!(split.paid_only, vec![[2; 32], [3; 32]]);
    assert_eq!(split.network, vec![[4; 32]]);
    assert_eq!(
        q.get_pending(&[1; 32]).unwrap().state,
        VerificationState::PaidListVerified
    );
    assert_eq!(
        q.get_pending(&[4; 32]).unwrap().state,
        VerificationState::PendingVerify
    );

    // Responsible for the second key, not for the third.
    let stage = split.settle_paid_only(
        &mut q,
        &SELF,
        &vec![Some(false), Some(false)],
        &vec![true, false],
    );
    assert_eq!(stage.probe, vec![[1; 32], [2; 32]]);
    assert_eq!(stage.terminal, vec![[3; 32]]);
    assert!(!q.contains_key(&[3; 32]));

    // Somebody holds the first key, nobody the second.
    let stage = stage.apply_presence(
        &mut q,
        &SELF,
        &vec![Some(false), Some(false)],
        &vec![vec![peer(8)], vec![]],
    );
    assert_eq!(stage.terminal, vec![[3; 32], [2; 32]]);
    assert_eq!(stage.network, vec![[4; 32]]);
    let candidate = q.dequeue_fetch().unwrap();
    assert_eq!(candidate.key, [1; 32]);
    assert_eq!(candidate.sources.len(), 1);
}

#[test]
fn network_verdicts() {
    let mut q = ReplicationQueues::new(8, 8, 8);
    for k in 1..=3 {
        pend(&mut q, k, HintPipeline::Replica);
    }
    for k in 4..=5 {
        pend(&mut q, k, HintPipeline::PaidOnly);
    }
    let keys: Vec<[u8; 32]> = (1..=5).map(|k| [k; 32]).collect();
    let split = split_by_paid_list(&mut q, &keys, &vec![None; 5]);
    let stage = split.settle_paid_only(&mut q, &SELF, &vec![], &vec![]);
    let stage = stage.apply_presence(&mut q, &SELF, &vec![], &vec![]);
    let verified = |p: u8| {
        Some(KeyVerificationOutcome::QuorumVerified {
            sources: vec![peer(p)],
        })
    };
    let outcomes = vec![
        verified(7),
        Some(KeyVerificationOutcome::QuorumFailed),
        None,
        Some(KeyVerificationOutcome::PaidListVerified {
            sources: vec![peer(7)],
        }),
        verified(7),
    ];
    let stage = stage.evaluate(&q, &outcomes);
    assert_eq!(
        stage.paid_insert_keys(),
        vec![[1; 32], [4; 32], [5; 32]]
    );
    assert!(!stage.asks_for_repair(0));
    assert!(stage.asks_for_repair(2));
    // Responsible for the fourth key only.
    let repair = stage.paid_only_fetch_keys(
        &vec![None, None, Some(false), Some(false)],
        &vec![false, false, true, false],
    );
    assert!(repair.contains(&[4; 32]));
    assert!(!repair.contains(&[5; 32]));
    let terminal = stage.apply_outcomes(&mut q, &SELF, &repair);
    assert_eq!(terminal, vec![[2; 32], [5; 32]]);
    assert!(q.get_pending(&[1; 32]).is_none() && q.contains_key(&[1; 32]));
    assert!(q.get_pending(&[4; 32]).is_none() && q.contains_key(&[4; 32]));
    // No evidence yet: the key waits for the next cycle.
    assert!(q.get_pending(&[3; 32]).is_some());
}

#[test]
fn stage_leaves_keys_that_other_tasks_took_up() {
    let mut q = queues();
    pend(&mut q, 1, HintPipeline::PaidOnly);
    pend(&mut q, 2, HintPipeline::PaidOnly);
    let keys = vec![[1; 32], [2; 32]];
    let split = split_by_paid_list(&mut q, &keys, &vec![Some(true), Some(true)]);
    // Meanwhile the first key moved on to the fetch queue.
    assert!(q.promote_pending_to_fetch([1; 32], [1; 32], vec![peer(1)]));
    let stage = split.settle_paid_only(&mut q, &SELF, &vec![None, None], &vec![false, false]);
    assert_eq!(stage.terminal, keys);
    assert!(q.contains_key(&[1; 32]));
    assert!(!q.contains_key(&[2; 32]));
}

#[test]
fn bootstrap_drains_when_nothing_is_left() {
    let mut q = queues();
    pend(&mut q, 1, HintPipeline::Replica);
    let mut b = BootstrapState::new();
    b.increment_pending_requests();
    assert!(!b.check_drained(&q));
    b.decrement_pending_requests();
    let mut found = ByteSet::new();
    found.insert([1; 32]);
    b.track_admission(&peer(1), &found, 1);
    assert!(!b.check_drained(&q));
    // A clean round of the same source clears it; the key is still pending.
    b.track_admission(&peer(1), &ByteSet::new(), 0);
    assert!(!b.check_drained(&q));
    q.remove_pending(&[1; 32]);
    b.remove_keys(&vec![[1; 32]]);
    assert!(b.check_drained(&q));
    assert!(b.is_drained());
    // It stays drained.
    b.increment_pending_requests();
    assert!(b.check_drained(&q));
}
