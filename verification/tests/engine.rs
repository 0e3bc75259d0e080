//! The replication engine.

use ant_node::error::Error;
use ant_node::ids::PeerId;
use ant_node::replication::audit::AuditTickResult;
use ant_node::replication::engine::{
    must_abort, record_sent_replica_hints, BootstrapPass, BootstrapSyncPlan, CreateAction,
    ReplicationConfig, ReplicationEngine, ShutdownAction, ShutdownEvent, SyncRound, TaskEnd,
};
use ant_node::replication::fetch::{FetchNext, FetchResult};
use ant_node::replication::sync_state::{NeighborSyncState, SyncHistory};
use ant_node::replication::types::{
    BootstrapClaimObservation, SentReplicaHint, TrustSignal,
};

fn peer(n: u8) -> PeerId {
    PeerId([n; 32])
}

fn config() -> ReplicationConfig {
    ReplicationConfig {
        neighbor_sync_peer_count: 2,
        neighbor_sync_cooldown: 100,
        bootstrap_claim_grace_period: 1_000,
        pending_verify_max_age: 10_000,
        pending_verify_limit: 8,
        pending_verify_per_source_limit: 2,
        fetch_queue_limit: 8,
    }
}

fn engine() -> ReplicationEngine {
    ReplicationEngine::new(config(), peer(0), Ok(()), Ok(())).unwrap()
}

fn hint(key: u8) -> SentReplicaHint {
    SentReplicaHint {
        key: [key; 32],
        close_peers: vec![peer(1), peer(2)],
    }
}

/// Shut the engine down with tasks that all finish.
fn stop(engine: &mut ReplicationEngine) {
    let mut pass = engine.begin_shutdown();
    loop {
        match pass.action() {
            ShutdownAction::Cancel => assert!(!pass.note(ShutdownEvent::Cancelled)),
            ShutdownAction::AwaitTask | ShutdownAction::AwaitAborted => {
                assert!(!pass.note(ShutdownEvent::Task(TaskEnd::Finished)));
            }
            ShutdownAction::Finish => break,
        }
    }
    assert!(engine.shutdown(&pass));
}

#[test]
fn paid_list_is_opened_for_a_valid_configuration_only() {
    let step = ReplicationEngine::creation_step;
    assert_eq!(step(&None, &None).unwrap(), CreateAction::Validate);
    assert_eq!(
        step(&Some(Ok(())), &None).unwrap(),
        CreateAction::OpenPaidList
    );
    assert_eq!(
        step(&Some(Ok(())), &Some(Ok(()))).unwrap(),
        CreateAction::Create
    );
    let invalid = Some(Err("bad quorum".to_string()));
    assert!(matches!(step(&invalid, &None), Err(Error::Config(e)) if e == "bad quorum"));
    let failed = Some(Err("lmdb".to_string()));
    assert!(matches!(
        step(&Some(Ok(())), &failed),
        Err(Error::Storage(e)) if e == "Failed to open PaidList: lmdb"
    ));
}

#[test]
fn shutdown_waits_for_every_task() {
    let mut engine = engine();
    assert_eq!(engine.start(), Some(true));
    let mut pass = engine.begin_shutdown();
    assert_eq!(pass.action(), ShutdownAction::Cancel);
    assert!(!engine.shutdown(&pass));
    pass.note(ShutdownEvent::Cancelled);
    // One finishes, one crashes, one is cancelled, four more finish.
    for end in [
        TaskEnd::Finished,
        TaskEnd::Panicked,
        TaskEnd::Cancelled,
        TaskEnd::Finished,
        TaskEnd::Finished,
        TaskEnd::Finished,
        TaskEnd::Finished,
    ] {
        assert_eq!(pass.action(), ShutdownAction::AwaitTask);
        assert!(!pass.note(ShutdownEvent::Task(end)));
    }
    // The last one hangs: it is aborted and still waited for.
    assert!(pass.note(ShutdownEvent::Task(TaskEnd::TimedOut)));
    assert_eq!(pass.action(), ShutdownAction::AwaitAborted);
    assert!(!engine.shutdown(&pass));
    assert_eq!(engine.start(), None);
    assert!(!pass.note(ShutdownEvent::Task(TaskEnd::Cancelled)));
    assert_eq!(pass.action(), ShutdownAction::Finish);
    assert!(engine.shutdown(&pass));
    assert_eq!(engine.start(), Some(false));
}

#[test]
fn creation_failures() {
    let r = ReplicationEngine::new(
        config(),
        peer(0),
        Err("bad quorum".to_string()),
        Err("unread".to_string()),
    );
    assert!(matches!(r, Err(Error::Config(e)) if e == "bad quorum"));
    let r = ReplicationEngine::new(config(), peer(0), Ok(()), Err("lmdb".to_string()));
    assert!(matches!(r, Err(Error::Storage(e)) if e == "Failed to open PaidList: lmdb"));
}

#[test]
fn start_is_ignored_while_running() {
    let mut engine = engine();
    assert_eq!(engine.start(), Some(true));
    assert_eq!(engine.start(), None);
    stop(&mut engine);
    // The channel of fresh writes went to the first start.
    assert_eq!(engine.start(), Some(false));
}

#[test]
fn only_hanging_tasks_are_aborted() {
    assert!(must_abort(TaskEnd::TimedOut));
    assert!(!must_abort(TaskEnd::Finished));
    assert!(!must_abort(TaskEnd::Cancelled));
    assert!(!must_abort(TaskEnd::Panicked));
}

#[test]
fn waiting_for_bootstrap() {
    let mut engine = engine();
    assert!(engine.is_bootstrapping());
    assert!(!engine.wait_for_bootstrap_complete(false));
    assert!(engine.wait_for_bootstrap_complete(true));
    assert_eq!(
        engine.plan_bootstrap_sync(false, 0),
        BootstrapSyncPlan::Complete
    );
    assert!(!engine.is_bootstrapping());
    assert!(engine.is_bootstrap_drained());
    assert!(engine.wait_for_bootstrap_complete(false));
}

#[test]
fn bootstrap_gate() {
    let mut engine = engine();
    assert_eq!(engine.plan_bootstrap_sync(true, 0), BootstrapSyncPlan::Stop);
    assert!(engine.is_bootstrapping());
    assert_eq!(
        engine.plan_bootstrap_sync(false, 3),
        BootstrapSyncPlan::SyncNeighbors
    );
    assert!(engine.is_bootstrapping());
}

#[test]
fn bootstrap_pass_visits_each_neighbor_once() {
    let mut pass = BootstrapPass::new(vec![peer(1), peer(2)]);
    assert_eq!(pass.next_peer(false).unwrap().0, peer(1).0);
    assert!(pass.next_peer(true).is_none());
    assert_eq!(pass.next_peer(false).unwrap().0, peer(2).0);
    assert!(pass.next_peer(false).is_none());
}

#[test]
fn empty_bootstrap_sync_completes() {
    let mut engine = engine();
    engine.begin_bootstrap_request();
    assert!(!engine.finish_bootstrap_sync());
    engine.end_bootstrap_request();
    assert!(engine.finish_bootstrap_sync());
    assert!(!engine.is_bootstrapping());
}

#[test]
fn discovered_key_holds_bootstrap_until_fetched() {
    let mut engine = engine();
    let keys = vec![[1; 32]];
    let outcome =
        engine.admit_and_queue_hints(&keys, &vec![Some(false)], &vec![], &peer(5), 0, true);
    assert!(outcome.discovered.contains(&[1; 32]));
    assert!(!engine.finish_bootstrap_sync());

    // Verify locally, promote and fetch.
    let pending = engine.begin_verification_cycle(1);
    assert_eq!(pending, keys);
    let split = engine.split_by_paid_list(&pending, &vec![Some(true)]);
    let stage = engine.settle_paid_only(split, &vec![], &vec![]);
    let stage = engine.apply_presence(stage, &vec![None], &vec![vec![peer(7)]]);
    let stage = engine.evaluate(stage, &vec![]);
    let repair = stage.paid_only_fetch_keys(&vec![], &vec![]);
    assert!(!engine.apply_outcomes(stage, &repair));
    assert!(engine.is_bootstrapping());
    let tasks = engine.fill_fetch_slots(0, 4);
    assert_eq!(tasks.len(), 1);
    assert!(!engine.finish_bootstrap_sync());
    let (next, completed) = engine.finish_fetch(&[1; 32], Some(FetchResult::Stored));
    assert!(matches!(next, FetchNext::Terminal));
    assert!(completed);
    assert!(!engine.is_bootstrapping());
}

#[test]
fn dropped_keys_end_bootstrap_in_the_verification_cycle() {
    let mut engine = engine();
    engine.admit_and_queue_hints(
        &vec![[1; 32]],
        &vec![None],
        &vec![],
        &peer(5),
        0,
        true,
    );
    let pending = engine.begin_verification_cycle(1);
    let split = engine.split_by_paid_list(&pending, &vec![Some(true)]);
    let stage = engine.settle_paid_only(split, &vec![], &vec![]);
    // Nobody holds it.
    let stage = engine.apply_presence(stage, &vec![None], &vec![vec![]]);
    let stage = engine.evaluate(stage, &vec![]);
    let repair = stage.paid_only_fetch_keys(&vec![], &vec![]);
    assert!(engine.apply_outcomes(stage, &repair));
    assert!(!engine.is_bootstrapping());
    // Later terminal keys have no say any more.
    assert!(!engine.update_bootstrap_after_verification(&vec![[2; 32]]));
}

#[test]
fn turned_away_hints_hold_bootstrap() {
    let mut engine = engine();
    let keys = vec![[1; 32], [2; 32], [3; 32]];
    let stored = vec![Some(false), Some(false), Some(false)];
    let outcome = engine.admit_and_queue_hints(&keys, &stored, &vec![], &peer(5), 0, true);
    assert_eq!(outcome.capacity_rejected_count, 1);
    assert!(!engine.update_bootstrap_after_verification(&keys));
    assert!(engine.is_bootstrapping());
}

#[test]
fn untracked_hints_do_not_hold_bootstrap() {
    let mut engine = engine();
    engine.admit_and_queue_hints(&vec![[1; 32]], &vec![None], &vec![], &peer(5), 0, false);
    assert!(engine.finish_bootstrap_sync());
}

#[test]
fn sync_request_from_the_routing_table() {
    let mut engine = engine();
    let plan =
        engine.handle_neighbor_sync_request(&peer(1), true, true, false, true, &vec![hint(9)], 50);
    assert!(plan.accept && plan.track);
    assert_eq!(plan.proofs.len(), 1);
    assert_eq!(plan.proofs[0].peer.0, peer(1).0);
    assert_eq!(plan.proofs[0].key, [9; 32]);
    assert_eq!(plan.proofs[0].close_peers.len(), 2);
    assert_eq!(plan.proofs[0].epoch, 0);
    let record = engine.sync_record(&peer(1)).unwrap();
    assert_eq!((record.last_sync, record.cycles_since_sync), (Some(50), 0));
}

#[test]
fn sync_request_of_a_stranger_leaves_no_trace() {
    let mut engine = engine();
    let plan =
        engine.handle_neighbor_sync_request(&peer(1), false, true, false, true, &vec![hint(9)], 50);
    assert!(!plan.accept && !plan.track);
    assert!(plan.proofs.is_empty());
    assert!(engine.sync_record(&peer(1)).is_none());
}

#[test]
fn proofs_need_a_sent_answer_to_a_settled_peer() {
    let mut engine = engine();
    let plan =
        engine.handle_neighbor_sync_request(&peer(1), true, false, false, false, &vec![hint(9)], 50);
    assert!(plan.accept && !plan.track && plan.proofs.is_empty());
    let plan = engine.handle_neighbor_sync_request(&peer(1), true, true, true, true, &vec![hint(9)], 50);
    assert!(plan.accept && plan.proofs.is_empty());
}

#[test]
fn sync_response_of_a_settled_peer() {
    let mut engine = engine();
    let plan = engine.handle_sync_response(&peer(1), false, true, &vec![hint(9)], 50);
    assert!(!plan.report_abuse);
    assert!(plan.hints.accept && plan.hints.track);
    assert_eq!(plan.hints.proofs.len(), 1);
    assert_eq!(engine.sync_record(&peer(1)).unwrap().last_sync, Some(50));
    // After bootstrap the hints no longer count toward it.
    let plan = engine.handle_sync_response(&peer(1), false, false, &vec![], 60);
    assert!(plan.hints.accept && !plan.hints.track);
}

#[test]
fn bootstrap_claims_are_abuse_past_grace_or_repeated() {
    let mut engine = engine();
    let plan = engine.handle_sync_response(&peer(1), true, true, &vec![hint(9)], 0);
    assert!(!plan.report_abuse && !plan.hints.accept && plan.hints.proofs.is_empty());
    assert!(!engine.handle_sync_response(&peer(1), true, true, &vec![], 1_000).report_abuse);
    assert!(engine.handle_sync_response(&peer(1), true, true, &vec![], 1_001).report_abuse);
    // Another peer stops claiming and claims again.
    assert!(!engine.handle_sync_response(&peer(2), true, true, &vec![], 0).report_abuse);
    assert!(!engine.handle_sync_response(&peer(2), false, true, &vec![], 10).report_abuse);
    assert!(engine.handle_sync_response(&peer(2), true, true, &vec![], 20).report_abuse);
}

#[test]
fn bootstrap_hints_of_bootstrapping_peers_are_disregarded() {
    let engine = engine();
    let plan = engine.plan_bootstrap_hints(&peer(1), true, &vec![hint(9)]);
    assert!(!plan.accept && !plan.track && plan.proofs.is_empty());
    let plan = engine.plan_bootstrap_hints(&peer(1), false, &vec![hint(9)]);
    assert!(plan.accept && plan.track && plan.proofs.len() == 1);
}

#[test]
fn sync_round_over_a_cycle() {
    let mut engine = engine();
    engine.handle_sync_response(&peer(9), false, true, &vec![], 0);
    // The first cycle has no neighbors, so it is complete.
    let round = engine.begin_sync_round();
    assert!(round.bootstrapping);
    let plan = round.cycle.unwrap();
    assert_eq!(plan.current_sync_epoch, 1);
    assert!(!plan.allow_remote_prune_audits);
    assert_eq!(engine.sync_record(&peer(9)).unwrap().cycles_since_sync, 1);
    engine.start_next_cycle(vec![peer(1), peer(2), peer(3), peer(9)]);
    assert!(engine.begin_sync_round().cycle.is_none());
    let batch = engine.select_sync_batch(50);
    assert_eq!(batch.iter().map(|p| p.0[0]).collect::<Vec<u8>>(), vec![1, 2]);
    // The second peer fails and is replaced.
    assert_eq!(engine.handle_sync_failure(&peer(2), 50).unwrap().0, peer(3).0);
    // The last one is still cooling down.
    assert!(engine.select_sync_batch(50).is_empty());
    let plan = engine.begin_sync_round().cycle.unwrap();
    assert_eq!(plan.current_sync_epoch, 2);
    assert_eq!(engine.sync_cycle_epoch(), 2);
}

/// Ask for targets until the round ends; `fails` names the peers that fail.
fn targets(engine: &mut ReplicationEngine, round: &mut SyncRound, fails: &[u8]) -> Vec<u8> {
    let mut asked = Vec::new();
    let mut failed = false;
    while let Some(peer) = engine.next_sync_target(round, failed, 50) {
        asked.push(peer.0[0]);
        failed = fails.contains(&peer.0[0]);
    }
    asked
}

fn round_over(neighbors: Vec<PeerId>) -> (ReplicationEngine, SyncRound) {
    let mut engine = engine();
    engine.begin_sync_round();
    engine.start_next_cycle(neighbors);
    let round = SyncRound::new(engine.select_sync_batch(50));
    (engine, round)
}

#[test]
fn round_asks_its_batch_once() {
    let (mut engine, mut round) = round_over((1..=5).map(peer).collect());
    assert_eq!(targets(&mut engine, &mut round, &[]), vec![1, 2]);
}

#[test]
fn failed_peer_is_replaced_once() {
    let (mut engine, mut round) = round_over((1..=5).map(peer).collect());
    // The first fails and so does its replacement; the second then has its turn.
    assert_eq!(targets(&mut engine, &mut round, &[1, 3]), vec![1, 3, 2]);
    let (mut engine, mut round) = round_over((1..=5).map(peer).collect());
    assert_eq!(targets(&mut engine, &mut round, &[1, 2]), vec![1, 3, 2, 4]);
}

#[test]
fn failed_peer_without_replacement_is_let_go() {
    let (mut engine, mut round) = round_over((1..=2).map(peer).collect());
    assert_eq!(targets(&mut engine, &mut round, &[1]), vec![1, 2]);
}

#[test]
fn prune_audits_wait_for_bootstrap() {
    let mut engine = engine();
    assert!(!engine.begin_sync_round().cycle.unwrap().allow_remote_prune_audits);
    engine.plan_bootstrap_sync(false, 0);
    assert!(engine.begin_sync_round().cycle.unwrap().allow_remote_prune_audits);
}

#[test]
fn claims_survive_a_cycle() {
    let mut state = NeighborSyncState::new_cycle(Vec::new());
    state.record_successful_sync(&peer(1), 5);
    state.set_prune_cursor(3);
    state.observe_bootstrap_claim(&peer(2), 5, 10);
    assert!(state.is_cycle_complete());
    state.start_next_cycle(vec![peer(1), peer(3)]);
    // The cooldown of the first neighbor still holds.
    let batch = state.select_sync_batch(2, 6, 100);
    assert_eq!(batch.len(), 1);
    assert_eq!(batch[0].0, peer(3).0);
    assert_eq!(
        state.observe_bootstrap_claim(&peer(2), 16, 10),
        BootstrapClaimObservation::PastGrace { first_seen: 5 }
    );
    // An unfinished cycle is not replaced.
    let mut running = NeighborSyncState::new_cycle(vec![peer(1)]);
    running.start_next_cycle(vec![peer(2)]);
    assert_eq!(running.select_sync_batch(1, 0, 0)[0].0, peer(1).0);
}

#[test]
fn history_ages_by_cycles() {
    let mut history = SyncHistory::new();
    history.record_sync(&peer(1), 5);
    history.complete_cycle();
    history.complete_cycle();
    assert_eq!(history.get(&peer(1)).unwrap().cycles_since_sync, 2);
    history.record_sync(&peer(1), 9);
    let record = history.get(&peer(1)).unwrap();
    assert_eq!((record.last_sync, record.cycles_since_sync), (Some(9), 0));
    assert!(history.get(&peer(2)).is_none());
}

#[test]
fn audits_go_through_the_engine() {
    let mut engine = engine();
    let claim = AuditTickResult::BootstrapClaim { peer: peer(1) };
    assert!(engine.handle_audit_result(&claim, 0).trust.is_none());
    let reaction = engine.handle_audit_result(&claim, 2_000);
    assert_eq!(reaction.trust.unwrap().signal, TrustSignal::Failure);
}

#[test]
fn proofs_of_hints() {
    let proofs = record_sent_replica_hints(&peer(4), &vec![hint(1), hint(2)], 7);
    assert_eq!(proofs.len(), 2);
    assert_eq!(proofs[1].key, [2; 32]);
    assert_eq!(proofs[1].peer.0, peer(4).0);
    assert_eq!(proofs[1].epoch, 7);
    assert_eq!(proofs[1].close_peers[1].0, peer(2).0);
    assert!(record_sent_replica_hints(&peer(4), &vec![], 7).is_empty());
}

#[test]
fn pending_keys_and_prune_cursor() {
    let mut engine = engine();
    assert!(engine.pending_keys().is_empty());
    engine.set_prune_cursor(4);
    engine.admit_and_queue_hints(&vec![], &vec![], &vec![[3; 32]], &peer(1), 0, false);
    assert_eq!(engine.pending_keys(), vec![[3; 32]]);
}
