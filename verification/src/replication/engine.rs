//! The replication engine: shared state and the transitions that its
//! background tasks perform on it.
//!
//! The engine is bootstrapping until its bootstrap work has drained; it never
//! starts bootstrapping again.

use crate::bytemap::ByteSet;
use crate::error::{Error, ErrorModel};
use crate::ids::{copy_peers, PeerId, XorName};
use crate::replication::admission::{
    admission, admit_and_queue_hints, AdmissionModel, AdmissionOutcome,
};
use crate::replication::audit::{
    audit_label, audit_state, audit_trust, handle_audit_result, is_abuse, observe_claim,
    AuditReaction, AuditTickResult,
};
use crate::replication::bootstrap::{lemma_requests_are_counted, BootstrapModel, BootstrapState};
use crate::replication::fetch::{
    fetch_next, fill_fetch_slots, filled, finish_fetch, FetchNext, FetchResult, FetchTask,
};
use crate::replication::queues::{QueuesModel, ReplicationQueues};
use crate::replication::sync_state::{
    aged, lemma_failed_peer_leaves_the_order, lemma_first_due_peer_is_selected,
    lemma_records_of_a_peer, lemma_selection, NeighborSyncState, SyncHistory, SyncModel,
};
use crate::replication::types::{
    HintPipeline, KeyVerificationOutcome, PeerSyncRecord, RepairProof, SentReplicaHint,
};
use crate::replication::verification::{
    begin_verification_cycle, disposed, drop_flags, evaluated_keys, evaluated_models, keep_flags,
    local_flags, marked, network_flags, outcome_dispositions, paid_only_dispositions, picked,
    presence_dispositions, split_by_paid_list, verdicts, EvaluatedStage, LocalSplit, NetworkStage,
    ProbeStage,
};
use crate::text::join;
use vstd::prelude::*;

verus! {

/// Settings of the engine. Times are in milliseconds.
#[derive(Clone, Copy, Debug)]
pub struct ReplicationConfig {
    /// Most neighbors synced with in one round.
    pub neighbor_sync_peer_count: usize,
    /// Least time between two syncs with one peer.
    pub neighbor_sync_cooldown: u64,
    /// How long a peer may claim to be bootstrapping.
    pub bootstrap_claim_grace_period: u64,
    /// How long a key may wait for verification.
    pub pending_verify_max_age: u64,
    /// Most keys that may wait for verification.
    pub pending_verify_limit: usize,
    /// Most keys of one sender that may wait for verification.
    pub pending_verify_per_source_limit: usize,
    /// Most keys that may wait for a fetch slot.
    pub fetch_queue_limit: usize,
}

/// Mathematical content of a [`RepairProof`].
#[verifier::ext_equal]
pub struct ProofModel {
    pub peer: PeerId,
    pub key: XorName,
    pub close_peers: Seq<PeerId>,
    pub epoch: u64,
}

impl View for RepairProof {
    type V = ProofModel;

    open spec fn view(&self) -> ProofModel {
        ProofModel {
            peer: self.peer,
            key: self.key,
            close_peers: self.close_peers@,
            epoch: self.epoch,
        }
    }
}

/// Contents of a list of repair proofs.
pub open spec fn proof_models(proofs: Seq<RepairProof>) -> Seq<ProofModel> {
    proofs.map_values(|p: RepairProof| p@)
}

/// The repair proofs that sending `hints` to `peer` during `epoch` gives.
pub open spec fn hint_proofs(
    peer: PeerId,
    hints: Seq<SentReplicaHint>,
    epoch: u64,
) -> Seq<ProofModel> {
    hints.map_values(
        |h: SentReplicaHint| ProofModel { peer, key: h.key, close_peers: h.close_peers@, epoch },
    )
}

/// List the repair proofs that sending `hints` to `peer` gives.
pub fn record_sent_replica_hints(peer: &PeerId, hints: &Vec<SentReplicaHint>, epoch: u64) -> (r:
    Vec<RepairProof>)
    ensures
        proof_models(r@) == hint_proofs(*peer, hints@, epoch),
{
    let mut r: Vec<RepairProof> = Vec::new();
    for i in 0..hints.len()
        invariant
            r@.len() == i,
            forall|j: int|
                0 <= j < i ==> #[trigger] r@[j]@ == hint_proofs(*peer, hints@, epoch)[j],
    {
        let p = RepairProof {
            peer: *peer,
            key: hints[i].key,
            close_peers: copy_peers(&hints[i].close_peers),
            epoch,
        };
        r.push(p);
    }
    assert(proof_models(r@) =~= hint_proofs(*peer, hints@, epoch));
    r
}

/// What to do about hints that a peer sent.
#[derive(Debug)]
pub struct HintPlan {
    /// Whether the hints of the peer are admitted.
    pub accept: bool,
    /// Whether they then count toward bootstrap.
    pub track: bool,
    /// Repair proofs to record first.
    pub proofs: Vec<RepairProof>,
}

/// What to do after a neighbor answered a sync request.
#[derive(Debug)]
pub struct SyncResponsePlan {
    /// Whether the peer is reported for abusing bootstrap claims.
    pub report_abuse: bool,
    /// What to do about its hints.
    pub hints: HintPlan,
}

/// What follows the completion of a sync cycle.
#[derive(Clone, Copy, Debug)]
pub struct CyclePlan {
    /// Number of completed cycles.
    pub current_sync_epoch: u64,
    /// Whether the prune pass may audit other nodes.
    pub allow_remote_prune_audits: bool,
}

/// A sync round that has begun.
#[derive(Clone, Copy, Debug)]
pub struct SyncRoundPlan {
    /// Whether this node was bootstrapping when the round began.
    pub bootstrapping: bool,
    /// What to do first, where a cycle was complete.
    pub cycle: Option<CyclePlan>,
}

/// Mathematical content of a [`SyncRound`].
#[verifier::ext_equal]
pub struct RoundModel {
    /// Neighbors of the batch that were not asked yet, in order.
    pub left: Seq<PeerId>,
    /// The neighbor that is asked now.
    pub asked: Option<PeerId>,
    /// Whether that one stands in for a neighbor of the batch that failed.
    pub stands_in: bool,
}

impl RoundModel {
    /// A round over `batch` that has not begun.
    pub open spec fn over(batch: Seq<PeerId>) -> RoundModel {
        RoundModel { left: batch, asked: None, stands_in: false }
    }

    /// The round after it moved on in its batch.
    pub open spec fn moved_on(self) -> RoundModel {
        if self.left.len() == 0 {
            RoundModel { left: self.left, asked: None, stands_in: false }
        } else {
            RoundModel { left: self.left.skip(1), asked: Some(self.left[0]), stands_in: false }
        }
    }
}

/// The syncs of one round with the neighbors of its batch.
pub struct SyncRound {
    batch: Vec<PeerId>,
    next: usize,
    asked: Option<PeerId>,
    stands_in: bool,
}

impl View for SyncRound {
    type V = RoundModel;

    closed spec fn view(&self) -> RoundModel {
        RoundModel {
            left: self.batch@.skip(self.next as int),
            asked: self.asked,
            stands_in: self.stands_in,
        }
    }
}

impl SyncRound {
    /// The round is somewhere in its batch.
    pub closed spec fn wf(&self) -> bool {
        self.next <= self.batch@.len()
    }

    /// Begin a round over `batch`.
    pub fn new(batch: Vec<PeerId>) -> (round: Self)
        ensures
            round.wf(),
            round@ == RoundModel::over(batch@),
    {
        let round = SyncRound { batch, next: 0, asked: None, stands_in: false };
        assert(round@ =~= RoundModel::over(batch@));
        round
    }

    /// Move on to the next neighbor of the batch.
    fn move_on(&mut self) -> (r: Option<PeerId>)
        requires
            old(self).wf(),
        ensures
            final(self).wf(),
            final(self)@ == old(self)@.moved_on(),
            r == final(self)@.asked,
    {
        self.stands_in = false;
        if self.next >= self.batch.len() {
            self.asked = None;
            assert(self@ =~= old(self)@.moved_on());
            return None;
        }
        let peer = self.batch[self.next];
        self.next = self.next + 1;
        self.asked = Some(peer);
        assert(self@ =~= old(self)@.moved_on());
        Some(peer)
    }

    /// Ask `peer` in place of the neighbor that failed.
    fn stand_in(&mut self, peer: PeerId)
        requires
            old(self).wf(),
        ensures
            final(self).wf(),
            final(self)@ == (RoundModel { asked: Some(peer), stands_in: true, ..old(self)@ }),
    {
        self.asked = Some(peer);
        self.stands_in = true;
    }
}

/// How the wait for the routing table ended, or what was found after it.
#[derive(Clone, Copy, Debug, PartialEq, Eq, Structural)]
pub enum BootstrapSyncPlan {
    /// The node is shutting down.
    Stop,
    /// There is nobody to sync with; bootstrap is complete.
    Complete,
    /// Sync with every neighbor.
    SyncNeighbors,
}

/// The pass of the bootstrap sync over the neighbors.
pub struct BootstrapPass {
    neighbors: Vec<PeerId>,
    next: usize,
}

impl BootstrapPass {
    /// Neighbors that are still to be synced with, in order.
    pub closed spec fn left(&self) -> Seq<PeerId> {
        self.neighbors@.skip(self.next as int)
    }

    /// The pass is somewhere in its list.
    pub closed spec fn wf(&self) -> bool {
        self.next <= self.neighbors@.len()
    }

    /// Begin a pass over `neighbors`.
    pub fn new(neighbors: Vec<PeerId>) -> (pass: Self)
        ensures
            pass.wf(),
            pass.left() == neighbors@,
    {
        let pass = BootstrapPass { neighbors, next: 0 };
        assert(pass.left() =~= neighbors@);
        pass
    }

    /// The neighbor to sync with now. The pass ends when all were synced with or
    /// the node is shutting down.
    pub fn next_peer(&mut self, shutting_down: bool) -> (r: Option<PeerId>)
        requires
            old(self).wf(),
        ensures
            final(self).wf(),
            r == if shutting_down || old(self).left().len() == 0 {
                None
            } else {
                Some(old(self).left()[0])
            },
            final(self).left() == if r is Some {
                old(self).left().skip(1)
            } else {
                old(self).left()
            },
    {
        if shutting_down || self.next >= self.neighbors.len() {
            return None;
        }
        let peer = self.neighbors[self.next];
        self.next = self.next + 1;
        assert(self.left() =~= old(self).left().skip(1));
        Some(peer)
    }
}

/// How a background task ended after it was told to stop.
#[derive(Clone, Copy, Debug, PartialEq, Eq, Structural)]
pub enum TaskEnd {
    /// It finished.
    Finished,
    /// It was cancelled.
    Cancelled,
    /// It crashed.
    Panicked,
    /// It did not stop in time.
    TimedOut,
}

/// Whether a background task must be aborted: only one that does not stop.
pub fn must_abort(end: TaskEnd) -> (r: bool)
    ensures
        r == (end is TimedOut),
{
    match end {
        TaskEnd::TimedOut => true,
        TaskEnd::Finished | TaskEnd::Cancelled | TaskEnd::Panicked => false,
    }
}

/// What to do next to shut the engine down.
#[derive(Clone, Copy, Debug, PartialEq, Eq, Structural)]
pub enum ShutdownAction {
    /// Tell all tasks to stop.
    Cancel,
    /// Wait for the next task, for a limited time.
    AwaitTask,
    /// Wait for the task that was aborted, for as long as it takes to end.
    AwaitAborted,
    /// Every task has ended.
    Finish,
}

/// Something that happened during shutdown.
#[derive(Clone, Copy, Debug, PartialEq, Eq, Structural)]
pub enum ShutdownEvent {
    /// All tasks were told to stop.
    Cancelled,
    /// The wait for a task is over.
    Task(TaskEnd),
}

/// Mathematical content of a [`ShutdownPass`].
pub struct ShutdownModel {
    /// Tasks in all.
    pub total: nat,
    /// Tasks that have not ended yet.
    pub left: nat,
    /// Whether all tasks were told to stop.
    pub cancelled: bool,
    /// Whether the task waited for was aborted.
    pub aborted: bool,
}

impl ShutdownModel {
    /// A pass over `tasks` tasks that has not begun.
    pub open spec fn over(tasks: nat) -> ShutdownModel {
        ShutdownModel { total: tasks, left: tasks, cancelled: false, aborted: false }
    }

    /// What to do next.
    pub open spec fn action(self) -> ShutdownAction {
        if !self.cancelled {
            ShutdownAction::Cancel
        } else if self.left == 0 {
            ShutdownAction::Finish
        } else if self.aborted {
            ShutdownAction::AwaitAborted
        } else {
            ShutdownAction::AwaitTask
        }
    }

    /// Whether a task is waited for.
    pub open spec fn waiting(self) -> bool {
        self.cancelled && self.left > 0
    }

    /// After `event`. Only a task that has ended is done with; one that did not
    /// stop in time is waited for again.
    pub open spec fn after(self, event: ShutdownEvent) -> ShutdownModel {
        match event {
            ShutdownEvent::Cancelled => ShutdownModel { cancelled: true, ..self },
            ShutdownEvent::Task(end) => if !self.waiting() {
                self
            } else if end is TimedOut {
                ShutdownModel { aborted: true, ..self }
            } else {
                ShutdownModel { left: (self.left - 1) as nat, aborted: false, ..self }
            },
        }
    }

    /// After the waits for tasks ended as `ends` says.
    pub open spec fn after_tasks(self, ends: Seq<TaskEnd>) -> ShutdownModel
        decreases ends.len(),
    {
        if ends.len() == 0 {
            self
        } else {
            self.after_tasks(ends.drop_last()).after(ShutdownEvent::Task(ends.last()))
        }
    }
}

/// The pass over the background tasks that shuts the engine down.
pub struct ShutdownPass {
    total: usize,
    left: usize,
    cancelled: bool,
    aborted: bool,
}

impl View for ShutdownPass {
    type V = ShutdownModel;

    closed spec fn view(&self) -> ShutdownModel {
        ShutdownModel {
            total: self.total as nat,
            left: self.left as nat,
            cancelled: self.cancelled,
            aborted: self.aborted,
        }
    }
}

impl ShutdownPass {
    /// What to do next.
    pub fn action(&self) -> (r: ShutdownAction)
        ensures
            r == self@.action(),
    {
        if !self.cancelled {
            ShutdownAction::Cancel
        } else if self.left == 0 {
            ShutdownAction::Finish
        } else if self.aborted {
            ShutdownAction::AwaitAborted
        } else {
            ShutdownAction::AwaitTask
        }
    }

    /// Take in what happened. Tells whether the task waited for is to be
    /// aborted; it is then waited for until it has ended.
    pub fn note(&mut self, event: ShutdownEvent) -> (abort: bool)
        ensures
            final(self)@ == old(self)@.after(event),
            abort == (old(self)@.waiting() && event == ShutdownEvent::Task(TaskEnd::TimedOut)),
    {
        match event {
            ShutdownEvent::Cancelled => {
                self.cancelled = true;
                false
            },
            ShutdownEvent::Task(end) => {
                if !self.cancelled || self.left == 0 {
                    return false;
                }
                let abort = must_abort(end);
                if abort {
                    self.aborted = true;
                } else {
                    self.left = self.left - 1;
                    self.aborted = false;
                }
                abort
            },
        }
    }
}

/// What to do next to create an engine.
#[derive(Clone, Copy, Debug, PartialEq, Eq, Structural)]
pub enum CreateAction {
    /// Validate the configuration.
    Validate,
    /// Open the paid list.
    OpenPaidList,
    /// Create the engine.
    Create,
}

/// The next step of creating an engine; `None` where a step was not taken yet.
pub open spec fn create_next(
    validation: Option<Result<(), String>>,
    paid_list: Option<Result<(), String>>,
) -> Result<CreateAction, ErrorModel> {
    match validation {
        None => Ok(CreateAction::Validate),
        Some(Err(e)) => Err(ErrorModel::Config(e@)),
        Some(Ok(_)) => match paid_list {
            None => Ok(CreateAction::OpenPaidList),
            Some(Err(e)) => Err(ErrorModel::Storage("Failed to open PaidList: "@ + e@)),
            Some(Ok(_)) => Ok(CreateAction::Create),
        },
    }
}

/// Number of background tasks besides the one that drains fresh writes.
pub const CORE_TASKS: usize = 7;

/// Mathematical content of the engine.
#[verifier::ext_equal]
pub struct EngineModel {
    pub config: ReplicationConfig,
    pub self_id: PeerId,
    pub queues: QueuesModel,
    pub sync: SyncModel,
    pub history: Map<[u8; 32], PeerSyncRecord>,
    pub epoch: u64,
    pub bootstrap: BootstrapModel,
    pub bootstrapping: bool,
    pub tasks: nat,
    pub fresh_writes: bool,
}

impl EngineModel {
    /// A freshly created engine.
    pub open spec fn initial(config: ReplicationConfig, self_id: PeerId) -> EngineModel {
        EngineModel {
            config,
            self_id,
            queues: QueuesModel {
                pending: Map::empty(),
                queued: Seq::empty(),
                in_flight: Map::empty(),
                pending_limit: config.pending_verify_limit as nat,
                per_source_limit: config.pending_verify_per_source_limit as nat,
                fetch_limit: config.fetch_queue_limit as nat,
            },
            sync: SyncModel {
                order: Seq::empty(),
                cursor: 0,
                last_sync: Map::empty(),
                claims: Map::empty(),
                claim_history: Map::empty(),
                prune_cursor: 0,
            },
            history: Map::empty(),
            epoch: 0,
            bootstrap: BootstrapModel {
                drained: false,
                pending_requests: 0,
                discovered: Set::empty(),
                rejected: Set::empty(),
            },
            bootstrapping: true,
            tasks: 0,
            fresh_writes: true,
        }
    }

    /// After the drain condition was checked; bootstrap ends when it holds.
    pub open spec fn drain_checked(self) -> EngineModel {
        EngineModel {
            bootstrap: self.bootstrap.checked(self.queues),
            bootstrapping: self.bootstrapping && !self.bootstrap.checked(self.queues).drained,
            ..self
        }
    }

    /// After `keys` left the pipeline for good.
    pub open spec fn retired(self, keys: Seq<XorName>) -> EngineModel {
        if keys.len() == 0 || self.bootstrap.drained {
            self
        } else {
            (EngineModel { bootstrap: self.bootstrap.without_keys(keys), ..self }).drain_checked()
        }
    }

    /// Whether retiring `keys` runs into the end of bootstrap.
    pub open spec fn retiring_completes(self, keys: Seq<XorName>) -> bool {
        keys.len() > 0 && !self.bootstrap.drained && self.bootstrap.without_keys(keys).checked(
            self.queues,
        ).drained
    }

    /// After a fetch attempt for `key` ended.
    pub open spec fn fetch_finished(
        self,
        key: XorName,
        outcome: Option<FetchResult>,
    ) -> EngineModel {
        let (queues, next) = fetch_next(self.queues, key, outcome);
        let after = EngineModel { queues, ..self };
        if next is Terminal {
            after.retired(seq![key])
        } else {
            after
        }
    }

    /// After hints of `source` were queued; `track` tells whether they count
    /// toward bootstrap.
    pub open spec fn hints_admitted(
        self,
        replica_keys: Seq<XorName>,
        stored: Seq<Option<bool>>,
        paid_only_keys: Seq<XorName>,
        source: PeerId,
        now: u64,
        track: bool,
    ) -> EngineModel {
        let m = admission(self.queues, replica_keys, stored, paid_only_keys, source, now);
        EngineModel {
            queues: m.queues,
            bootstrap: if track {
                self.bootstrap.admitted(source, m.discovered, m.rejected)
            } else {
                self.bootstrap
            },
            ..self
        }
    }

    /// After the current sync cycle was found complete.
    pub open spec fn cycle_counted(self) -> EngineModel {
        if self.sync.cycle_complete() {
            EngineModel {
                history: self.history.map_values(|r: PeerSyncRecord| aged(r)),
                epoch: if self.epoch < u64::MAX {
                    (self.epoch + 1) as u64
                } else {
                    self.epoch
                },
                ..self
            }
        } else {
            self
        }
    }

    /// After a sync request of `source` was answered.
    pub open spec fn request_answered(
        self,
        source: PeerId,
        sender_in_rt: bool,
        now: u64,
    ) -> EngineModel {
        if sender_in_rt {
            EngineModel {
                history: self.history.insert(
                    source.0,
                    PeerSyncRecord { last_sync: Some(now), cycles_since_sync: 0 },
                ),
                ..self
            }
        } else {
            self
        }
    }

    /// After `peer` answered a sync request.
    pub open spec fn response_recorded(
        self,
        peer: PeerId,
        peer_bootstrapping: bool,
        now: u64,
    ) -> EngineModel {
        let synced = self.sync.synced(peer, now);
        EngineModel {
            sync: if peer_bootstrapping {
                synced.claimed(peer, now)
            } else {
                synced.cleared(peer)
            },
            history: self.history.insert(
                peer.0,
                PeerSyncRecord { last_sync: Some(now), cycles_since_sync: 0 },
            ),
            ..self
        }
    }

    /// After the search for neighbors to bootstrap from.
    pub open spec fn bootstrap_gated(self, shutting_down: bool, neighbors: nat) -> EngineModel {
        if !shutting_down && neighbors == 0 {
            EngineModel {
                bootstrap: BootstrapModel { drained: true, ..self.bootstrap },
                bootstrapping: false,
                ..self
            }
        } else {
            self
        }
    }

    /// The engine and the round after the sync with the neighbor that was asked
    /// ended, or before the first one; the round then says who is asked now. A
    /// neighbor of the batch that failed leaves the cycle, and one other may
    /// stand in for it. A stand-in that failed is let go.
    pub open spec fn next_target(self, round: RoundModel, failed: bool, now: u64) -> (
        EngineModel,
        RoundModel,
    ) {
        if failed && round.asked is Some && !round.stands_in {
            let (sync, peers) = self.sync.without_peer(round.asked->0).selected(
                1,
                now,
                self.config.neighbor_sync_cooldown,
            );
            if peers.len() > 0 {
                (
                    self.with_sync(sync),
                    RoundModel { asked: Some(peers[0]), stands_in: true, ..round },
                )
            } else {
                (self.with_sync(sync), round.moved_on())
            }
        } else {
            (self, round.moved_on())
        }
    }

    /// After a bootstrap sync request went out.
    pub open spec fn request_counted(self) -> EngineModel {
        EngineModel { bootstrap: self.bootstrap.requested(), ..self }
    }

    /// After a bootstrap sync request ended.
    pub open spec fn request_ended(self) -> EngineModel {
        EngineModel { bootstrap: self.bootstrap.answered(), ..self }
    }

    /// The engine with other queues.
    pub open spec fn with_queues(self, queues: QueuesModel) -> EngineModel {
        EngineModel { queues, ..self }
    }

    /// The engine with another sync cycle.
    pub open spec fn with_sync(self, sync: SyncModel) -> EngineModel {
        EngineModel { sync, ..self }
    }
}

/// The replication engine.
pub struct ReplicationEngine {
    config: ReplicationConfig,
    self_id: PeerId,
    queues: ReplicationQueues,
    sync_state: NeighborSyncState,
    sync_history: SyncHistory,
    sync_cycle_epoch: u64,
    bootstrap_state: BootstrapState,
    bootstrapping: bool,
    tasks: usize,
    fresh_writes: bool,
}

impl View for ReplicationEngine {
    type V = EngineModel;

    closed spec fn view(&self) -> EngineModel {
        EngineModel {
            config: self.config,
            self_id: self.self_id,
            queues: self.queues@,
            sync: self.sync_state@,
            history: self.sync_history@,
            epoch: self.sync_cycle_epoch,
            bootstrap: self.bootstrap_state@,
            bootstrapping: self.bootstrapping,
            tasks: self.tasks as nat,
            fresh_writes: self.fresh_writes,
        }
    }
}

impl ReplicationEngine {
    /// All parts are sound, and the engine leaves the bootstrap phase only once
    /// bootstrap has drained.
    pub closed spec fn wf(&self) -> bool {
        &&& self.queues.wf()
        &&& self.sync_state.wf()
        &&& self.sync_history.wf()
        &&& self.bootstrap_state.wf()
        &&& !self.bootstrapping ==> self.bootstrap_state@.drained
    }

    /// What holds of every engine: its pipeline and its sync cycle are valid,
    /// and unless it is bootstrapping its bootstrap work has drained.
    pub proof fn lemma_invariant(&self)
        requires
            self.wf(),
        ensures
            self@.queues.valid(),
            self@.sync.valid(),
            !self@.bootstrapping ==> self@.bootstrap.drained,
    {
        self.queues.lemma_valid();
        self.sync_state.lemma_valid();
    }

    /// Decide what to do next to create an engine: the paid list is opened only
    /// for a valid configuration.
    pub fn creation_step(
        validation: &Option<Result<(), String>>,
        paid_list: &Option<Result<(), String>>,
    ) -> (r: Result<CreateAction, Error>)
        ensures
            match r {
                Ok(action) => create_next(*validation, *paid_list) == Ok::<
                    CreateAction,
                    ErrorModel,
                >(action),
                Err(e) => create_next(*validation, *paid_list) == Err::<CreateAction, ErrorModel>(
                    e@,
                ),
            },
    {
        match validation {
            None => {
                return Ok(CreateAction::Validate);
            },
            Some(Err(e)) => {
                return Err(Error::Config(e.clone()));
            },
            Some(Ok(_)) => {},
        }
        match paid_list {
            None => Ok(CreateAction::OpenPaidList),
            Some(Err(e)) => Err(Error::Storage(join("Failed to open PaidList: ", e.as_str()))),
            Some(Ok(_)) => Ok(CreateAction::Create),
        }
    }

    /// Create an engine. Fails when the configuration was found invalid or the
    /// paid list could not be opened; the latter is not looked at when the
    /// configuration is invalid.
    pub fn new(
        config: ReplicationConfig,
        self_id: PeerId,
        validation: Result<(), String>,
        paid_list: Result<(), String>,
    ) -> (r: Result<Self, Error>)
        ensures
            match validation {
                Err(e) => r matches Err(err) && err@ == ErrorModel::Config(e@),
                Ok(_) => match paid_list {
                    Err(e) => r matches Err(err) && err@ == ErrorModel::Storage(
                        "Failed to open PaidList: "@ + e@,
                    ),
                    Ok(_) => r matches Ok(engine) && engine.wf() && engine@
                        == EngineModel::initial(config, self_id),
                },
            },
    {
        match validation {
            Err(e) => return Err(Error::Config(e)),
            Ok(_) => {},
        }
        match paid_list {
            Err(e) => {
                return Err(Error::Storage(join("Failed to open PaidList: ", e.as_str())));
            },
            Ok(_) => {},
        }
        let neighbors: Vec<PeerId> = Vec::new();
        let engine = ReplicationEngine {
            config,
            self_id,
            queues: ReplicationQueues::new(
                config.pending_verify_limit,
                config.pending_verify_per_source_limit,
                config.fetch_queue_limit,
            ),
            sync_state: NeighborSyncState::new_cycle(neighbors),
            sync_history: SyncHistory::new(),
            sync_cycle_epoch: 0,
            bootstrap_state: BootstrapState::new(),
            bootstrapping: true,
            tasks: 0,
            fresh_writes: true,
        };
        assert(engine@.sync.order =~= Seq::empty());
        assert(engine@ =~= EngineModel::initial(config, self_id));
        Ok(engine)
    }

    /// Start the background tasks. Does nothing while they are running; the
    /// fresh-write channel can be drained by the first start only. Tells
    /// whether tasks are to be started, and whether fresh writes are drained.
    pub fn start(&mut self) -> (r: Option<bool>)
        requires
            old(self).wf(),
        ensures
            final(self).wf(),
            r == if old(self)@.tasks > 0 {
                None
            } else {
                Some(old(self)@.fresh_writes)
            },
            final(self)@ == if old(self)@.tasks > 0 {
                old(self)@
            } else {
                EngineModel {
                    tasks: if old(self)@.fresh_writes {
                        (CORE_TASKS + 1) as nat
                    } else {
                        CORE_TASKS as nat
                    },
                    fresh_writes: false,
                    ..old(self)@
                }
            },
            r is Some ==> final(self)@.tasks == if old(self)@.fresh_writes {
                8nat
            } else {
                7nat
            },
    {
        if self.tasks > 0 {
            return None;
        }
        let drain = self.fresh_writes;
        self.tasks = if drain {
            CORE_TASKS + 1
        } else {
            CORE_TASKS
        };
        self.fresh_writes = false;
        Some(drain)
    }

    /// Begin to shut the engine down.
    pub fn begin_shutdown(&self) -> (pass: ShutdownPass)
        ensures
            pass@ == ShutdownModel::over(self@.tasks),
    {
        ShutdownPass { total: self.tasks, left: self.tasks, cancelled: false, aborted: false }
    }

    /// Finish shutting down, after a pass over all background tasks. Tells
    /// whether every task has ended; only then no task is left.
    pub fn shutdown(&mut self, pass: &ShutdownPass) -> (ended: bool)
        requires
            old(self).wf(),
        ensures
            final(self).wf(),
            ended == (pass@.action() is Finish && pass@.total == old(self)@.tasks),
            final(self)@ == if ended {
                EngineModel { tasks: 0, ..old(self)@ }
            } else {
                old(self)@
            },
    {
        match pass.action() {
            ShutdownAction::Finish => {
                if pass.total == self.tasks {
                    self.tasks = 0;
                    return true;
                }
                false
            },
            _ => false,
        }
    }

    /// Whether the node is still in the bootstrap phase.
    pub fn is_bootstrapping(&self) -> (r: bool)
        ensures
            r == self@.bootstrapping,
    {
        self.bootstrapping
    }

    /// Whether bootstrap work has drained.
    pub fn is_bootstrap_drained(&self) -> (r: bool)
        ensures
            r == self@.bootstrap.drained,
    {
        self.bootstrap_state.is_drained()
    }

    /// Result of waiting for the end of bootstrap: immediately true when it is
    /// over, otherwise whether the notification arrived in time.
    pub fn wait_for_bootstrap_complete(&self, notified_in_time: bool) -> (r: bool)
        ensures
            r == (!self@.bootstrapping || notified_in_time),
    {
        !self.bootstrapping || notified_in_time
    }

    /// Completed sync cycles.
    pub fn sync_cycle_epoch(&self) -> (r: u64)
        ensures
            r == self@.epoch,
    {
        self.sync_cycle_epoch
    }

    /// Sync record of `peer`.
    pub fn sync_record(&self, peer: &PeerId) -> (r: Option<PeerSyncRecord>)
        requires
            self.wf(),
        ensures
            r is Some <==> self@.history.contains_key(peer.0),
            r is Some ==> r->0 == self@.history[peer.0],
    {
        self.sync_history.get(peer)
    }

    /// Keys that wait for verification.
    pub fn pending_keys(&self) -> (r: Vec<XorName>)
        requires
            self.wf(),
        ensures
            r@.no_duplicates(),
            forall|k: XorName| r@.contains(k) <==> #[trigger] self@.queues.pending.contains_key(k),
    {
        let r = self.queues.pending_keys();
        assert(self@.queues == self.queues@);
        r
    }

    // -----------------------------------------------------------------------
    // Bootstrap
    // -----------------------------------------------------------------------

    /// Check the drain condition and leave the bootstrap phase when it holds.
    /// Tells whether waiters are to be woken.
    fn check_drain(&mut self) -> (completed: bool)
        requires
            old(self).wf(),
        ensures
            final(self).wf(),
            final(self)@ == old(self)@.drain_checked(),
            completed == final(self)@.bootstrap.drained,
    {
        let drained = self.bootstrap_state.check_drained(&self.queues);
        if drained {
            self.bootstrapping = false;
        }
        drained
    }

    /// Retire keys that left the pipeline for good, and leave the bootstrap
    /// phase when that was the last of its work. Tells whether waiters are to
    /// be woken.
    pub fn update_bootstrap_after_verification(&mut self, terminal_keys: &Vec<XorName>) -> (
        completed: bool)
        requires
            old(self).wf(),
        ensures
            final(self).wf(),
            final(self)@ == old(self)@.retired(terminal_keys@),
            completed == old(self)@.retiring_completes(terminal_keys@),
    {
        if terminal_keys.len() == 0 || self.bootstrap_state.is_drained() {
            return false;
        }
        self.bootstrap_state.remove_keys(terminal_keys);
        self.check_drain()
    }

    /// Decide how to bootstrap once the routing table is ready, or the wait for
    /// it was given up.
    pub fn plan_bootstrap_sync(&mut self, shutting_down: bool, neighbor_count: usize) -> (r:
        BootstrapSyncPlan)
        requires
            old(self).wf(),
        ensures
            final(self).wf(),
            final(self)@ == old(self)@.bootstrap_gated(shutting_down, neighbor_count as nat),
            r == if shutting_down {
                BootstrapSyncPlan::Stop
            } else if neighbor_count == 0 {
                BootstrapSyncPlan::Complete
            } else {
                BootstrapSyncPlan::SyncNeighbors
            },
    {
        if shutting_down {
            return BootstrapSyncPlan::Stop;
        }
        if neighbor_count == 0 {
            self.bootstrap_state.mark_drained();
            self.bootstrapping = false;
            return BootstrapSyncPlan::Complete;
        }
        BootstrapSyncPlan::SyncNeighbors
    }

    /// Note that a bootstrap sync request goes out.
    pub fn begin_bootstrap_request(&mut self)
        requires
            old(self).wf(),
        ensures
            final(self).wf(),
            final(self)@ == old(self)@.request_counted(),
    {
        self.bootstrap_state.increment_pending_requests();
    }

    /// Note that a bootstrap sync request ended.
    pub fn end_bootstrap_request(&mut self)
        requires
            old(self).wf(),
        ensures
            final(self).wf(),
            final(self)@ == old(self)@.request_ended(),
    {
        self.bootstrap_state.decrement_pending_requests();
    }

    /// Decide on the answer to a bootstrap sync request: hints of a peer that
    /// is bootstrapping itself are disregarded, all others count toward
    /// bootstrap.
    pub fn plan_bootstrap_hints(
        &self,
        peer: &PeerId,
        peer_bootstrapping: bool,
        sent_hints: &Vec<SentReplicaHint>,
    ) -> (plan: HintPlan)
        ensures
            plan.accept == !peer_bootstrapping,
            plan.track == plan.accept,
            proof_models(plan.proofs@) == if peer_bootstrapping {
                Seq::empty()
            } else {
                hint_proofs(*peer, sent_hints@, self@.epoch)
            },
    {
        if peer_bootstrapping {
            let proofs: Vec<RepairProof> = Vec::new();
            assert(proof_models(proofs@) =~= Seq::empty());
            HintPlan { accept: false, track: false, proofs }
        } else {
            HintPlan {
                accept: true,
                track: true,
                proofs: record_sent_replica_hints(peer, sent_hints, self.sync_cycle_epoch),
            }
        }
    }

    /// Check at the end of the bootstrap sync whether its work is done already.
    /// Tells whether waiters are to be woken.
    pub fn finish_bootstrap_sync(&mut self) -> (completed: bool)
        requires
            old(self).wf(),
        ensures
            final(self).wf(),
            final(self)@ == old(self)@.drain_checked(),
            completed == final(self)@.bootstrap.drained,
    {
        self.check_drain()
    }

    // -----------------------------------------------------------------------
    // Hints
    // -----------------------------------------------------------------------

    /// Queue the admitted hints of `source` for verification. With `track` the
    /// keys found count toward bootstrap, and the source is remembered while
    /// hints of it found no room.
    pub fn admit_and_queue_hints(
        &mut self,
        replica_keys: &Vec<XorName>,
        stored: &Vec<Option<bool>>,
        paid_only_keys: &Vec<XorName>,
        source: &PeerId,
        now: u64,
        track: bool,
    ) -> (outcome: AdmissionOutcome)
        requires
            old(self).wf(),
            stored@.len() == replica_keys@.len(),
            replica_keys@.len() + paid_only_keys@.len() <= usize::MAX,
        ensures
            final(self).wf(),
            final(self)@ == old(self)@.hints_admitted(
                replica_keys@,
                stored@,
                paid_only_keys@,
                *source,
                now,
                track,
            ),
            outcome.discovered.wf(),
            (AdmissionModel {
                queues: final(self)@.queues,
                discovered: outcome.discovered@,
                rejected: outcome.capacity_rejected_count as nat,
            }) == admission(
                old(self)@.queues,
                replica_keys@,
                stored@,
                paid_only_keys@,
                *source,
                now,
            ),
    {
        let outcome = admit_and_queue_hints(
            &mut self.queues,
            replica_keys,
            stored,
            paid_only_keys,
            source,
            now,
        );
        if track {
            self.bootstrap_state.track_admission(
                source,
                &outcome.discovered,
                outcome.capacity_rejected_count,
            );
        }
        outcome
    }

    /// Take in a sync request that was answered. Only a sender in the routing
    /// table is recorded and has its hints admitted, and repair proofs are
    /// recorded only for hints that were actually sent to a peer that is not
    /// bootstrapping. The hints count toward bootstrap if this node was
    /// `bootstrapping` when the request came in.
    pub fn handle_neighbor_sync_request(
        &mut self,
        source: &PeerId,
        sender_in_rt: bool,
        response_sent: bool,
        request_bootstrapping: bool,
        bootstrapping: bool,
        sent_hints: &Vec<SentReplicaHint>,
        now: u64,
    ) -> (plan: HintPlan)
        requires
            old(self).wf(),
        ensures
            final(self).wf(),
            final(self)@ == old(self)@.request_answered(*source, sender_in_rt, now),
            plan.accept == sender_in_rt,
            plan.track == (plan.accept && bootstrapping),
            proof_models(plan.proofs@) == if sender_in_rt && response_sent
                && !request_bootstrapping {
                hint_proofs(*source, sent_hints@, old(self)@.epoch)
            } else {
                Seq::empty()
            },
    {
        let mut proofs: Vec<RepairProof> = Vec::new();
        assert(proof_models(proofs@) =~= Seq::empty());
        if !sender_in_rt {
            return HintPlan { accept: false, track: false, proofs };
        }
        self.sync_history.record_sync(source, now);
        if response_sent && !request_bootstrapping {
            proofs = record_sent_replica_hints(source, sent_hints, self.sync_cycle_epoch);
        }
        HintPlan { accept: true, track: bootstrapping, proofs }
    }

    /// Take in the answer of `peer` to a sync request: record the sync, check a
    /// bootstrap claim for abuse, and decide on the hints. A peer that does not
    /// claim to be bootstrapping loses its active claim but not its history, and
    /// its hints count toward bootstrap if this node was `bootstrapping` when the
    /// round began.
    pub fn handle_sync_response(
        &mut self,
        peer: &PeerId,
        peer_bootstrapping: bool,
        bootstrapping: bool,
        sent_hints: &Vec<SentReplicaHint>,
        now: u64,
    ) -> (plan: SyncResponsePlan)
        requires
            old(self).wf(),
        ensures
            final(self).wf(),
            final(self)@ == old(self)@.response_recorded(*peer, peer_bootstrapping, now),
            plan.report_abuse == (peer_bootstrapping && is_abuse(
                old(self)@.sync.observation(
                    *peer,
                    now,
                    old(self)@.config.bootstrap_claim_grace_period,
                ),
            )),
            plan.hints.accept == !peer_bootstrapping,
            plan.hints.track == (plan.hints.accept && bootstrapping),
            proof_models(plan.hints.proofs@) == if peer_bootstrapping {
                Seq::empty()
            } else {
                hint_proofs(*peer, sent_hints@, old(self)@.epoch)
            },
    {
        self.sync_state.record_successful_sync(peer, now);
        self.sync_history.record_sync(peer, now);
        if peer_bootstrapping {
            let report_abuse = observe_claim(
                &mut self.sync_state,
                peer,
                now,
                self.config.bootstrap_claim_grace_period,
            );
            let proofs: Vec<RepairProof> = Vec::new();
            assert(proof_models(proofs@) =~= Seq::empty());
            SyncResponsePlan { report_abuse, hints: HintPlan { accept: false, track: false, proofs } }
        } else {
            self.sync_state.clear_active_bootstrap_claim(peer);
            SyncResponsePlan {
                report_abuse: false,
                hints: HintPlan {
                    accept: true,
                    track: bootstrapping,
                    proofs: record_sent_replica_hints(peer, sent_hints, self.sync_cycle_epoch),
                },
            }
        }
    }

    // -----------------------------------------------------------------------
    // Neighbor sync rounds
    // -----------------------------------------------------------------------

    /// Begin a sync round. When the cycle is complete, repair proofs mature by
    /// one epoch and a prune pass follows; other nodes are audited for it only
    /// after bootstrap.
    pub fn begin_sync_round(&mut self) -> (r: SyncRoundPlan)
        requires
            old(self).wf(),
        ensures
            final(self).wf(),
            final(self)@ == old(self)@.cycle_counted(),
            r.bootstrapping == old(self)@.bootstrapping,
            r.cycle == if old(self)@.sync.cycle_complete() {
                Some(
                    CyclePlan {
                        current_sync_epoch: final(self)@.epoch,
                        allow_remote_prune_audits: !old(self)@.bootstrapping
                            && old(self)@.bootstrap.drained,
                    },
                )
            } else {
                None
            },
    {
        let bootstrapping = self.bootstrapping;
        if !self.sync_state.is_cycle_complete() {
            return SyncRoundPlan { bootstrapping, cycle: None };
        }
        self.sync_history.complete_cycle();
        if self.sync_cycle_epoch < u64::MAX {
            self.sync_cycle_epoch = self.sync_cycle_epoch + 1;
        }
        let cycle = CyclePlan {
            current_sync_epoch: self.sync_cycle_epoch,
            allow_remote_prune_audits: !bootstrapping && self.bootstrap_state.is_drained(),
        };
        SyncRoundPlan { bootstrapping, cycle: Some(cycle) }
    }

    /// Begin the next cycle over a fresh snapshot of neighbors, unless another
    /// task has begun one meanwhile.
    pub fn start_next_cycle(&mut self, neighbors: Vec<PeerId>)
        requires
            old(self).wf(),
        ensures
            final(self).wf(),
            final(self)@ == old(self)@.with_sync(old(self)@.sync.next_cycle(neighbors@)),
    {
        self.sync_state.start_next_cycle(neighbors);
    }

    /// Remember where the next prune pass resumes.
    pub fn set_prune_cursor(&mut self, at: usize)
        requires
            old(self).wf(),
        ensures
            final(self).wf(),
            final(self)@ == old(self)@.with_sync(
                SyncModel { prune_cursor: at, ..old(self)@.sync },
            ),
    {
        self.sync_state.set_prune_cursor(at);
    }

    /// Pick the neighbors to sync with in this round.
    pub fn select_sync_batch(&mut self, now: u64) -> (batch: Vec<PeerId>)
        requires
            old(self).wf(),
        ensures
            final(self).wf(),
            ({
                let c = old(self)@.config;
                let (sync, peers) = old(self)@.sync.selected(
                    c.neighbor_sync_peer_count as nat,
                    now,
                    c.neighbor_sync_cooldown,
                );
                &&& final(self)@ == old(self)@.with_sync(sync)
                &&& batch@ == peers
            }),
    {
        self.sync_state.select_sync_batch(
            self.config.neighbor_sync_peer_count,
            now,
            self.config.neighbor_sync_cooldown,
        )
    }

    /// Take a neighbor that could not be synced with out of the cycle, and pick
    /// a replacement.
    pub fn handle_sync_failure(&mut self, peer: &PeerId, now: u64) -> (r: Option<PeerId>)
        requires
            old(self).wf(),
        ensures
            final(self).wf(),
            ({
                let (sync, peers) = old(self)@.sync.without_peer(*peer).selected(
                    1,
                    now,
                    old(self)@.config.neighbor_sync_cooldown,
                );
                &&& final(self)@ == old(self)@.with_sync(sync)
                &&& match r {
                    Some(p) => peers == seq![p],
                    None => peers.len() == 0,
                }
            }),
    {
        self.sync_state.handle_sync_failure(peer, now, self.config.neighbor_sync_cooldown)
    }

    /// The neighbor to sync with now. `failed` tells whether the sync with the
    /// one before failed. Each neighbor of the batch is asked once; for one that
    /// failed a replacement is asked, if there is one, and for a replacement
    /// nobody.
    pub fn next_sync_target(&mut self, round: &mut SyncRound, failed: bool, now: u64) -> (r: Option<
        PeerId,
    >)
        requires
            old(self).wf(),
            old(round).wf(),
        ensures
            final(self).wf(),
            final(round).wf(),
            (final(self)@, final(round)@) == old(self)@.next_target(old(round)@, failed, now),
            r == final(round)@.asked,
    {
        if failed && !round.stands_in {
            if let Some(peer) = round.asked {
                if let Some(replacement) = self.handle_sync_failure(&peer, now) {
                    round.stand_in(replacement);
                    return Some(replacement);
                }
            }
        }
        round.move_on()
    }

    // -----------------------------------------------------------------------
    // Audits
    // -----------------------------------------------------------------------

    /// Take in the result of an audit tick.
    pub fn handle_audit_result(&mut self, result: &AuditTickResult, now: u64) -> (reaction:
        AuditReaction)
        requires
            old(self).wf(),
        ensures
            final(self).wf(),
            final(self)@ == old(self)@.with_sync(audit_state(old(self)@.sync, *result, now)),
            reaction.trust == audit_trust(
                old(self)@.sync,
                *result,
                now,
                old(self)@.config.bootstrap_claim_grace_period,
            ),
            match reaction.first_failed_key {
                Some(label) => audit_label(*result) == Some(label@),
                None => audit_label(*result) is None,
            },
    {
        handle_audit_result(
            &mut self.sync_state,
            result,
            now,
            self.config.bootstrap_claim_grace_period,
        )
    }

    // -----------------------------------------------------------------------
    // Fetch worker
    // -----------------------------------------------------------------------

    /// Start fetches while slots are free.
    pub fn fill_fetch_slots(&mut self, in_flight: usize, concurrency: usize) -> (tasks: Vec<
        FetchTask,
    >)
        requires
            old(self).wf(),
        ensures
            final(self).wf(),
            ({
                let (queues, started) = filled(
                    old(self)@.queues,
                    if in_flight < concurrency {
                        (concurrency - in_flight) as nat
                    } else {
                        0
                    },
                );
                &&& final(self)@ == old(self)@.with_queues(queues)
                &&& tasks@ == started
            }),
    {
        fill_fetch_slots(&mut self.queues, in_flight, concurrency)
    }

    /// Take in the end of a fetch attempt: decide what follows, and retire the
    /// key from bootstrap when it is done with. Also tells whether waiters for
    /// the end of bootstrap are to be woken.
    pub fn finish_fetch(&mut self, key: &XorName, outcome: Option<FetchResult>) -> (r: (
        FetchNext,
        bool,
    ))
        requires
            old(self).wf(),
        ensures
            final(self).wf(),
            final(self)@ == old(self)@.fetch_finished(*key, outcome),
            r.0 == fetch_next(old(self)@.queues, *key, outcome).1,
            r.1 == (r.0 is Terminal && old(self)@.with_queues(
                fetch_next(old(self)@.queues, *key, outcome).0,
            ).retiring_completes(seq![*key])),
    {
        let next = finish_fetch(&mut self.queues, key, outcome);
        match next {
            FetchNext::Retry { source } => (next, false),
            FetchNext::Terminal => {
                let mut keys: Vec<XorName> = Vec::new();
                keys.push(*key);
                assert(keys@ =~= seq![*key]);
                let completed = self.update_bootstrap_after_verification(&keys);
                (next, completed)
            },
        }
    }

    // -----------------------------------------------------------------------
    // Verification cycle
    // -----------------------------------------------------------------------

    /// First stage of a verification cycle; see the verification module.
    pub fn begin_verification_cycle(&mut self, now: u64) -> (keys: Vec<XorName>)
        requires
            old(self).wf(),
        ensures
            final(self).wf(),
            final(self)@ == old(self)@.with_queues(
                old(self)@.queues.evicted(now, old(self)@.config.pending_verify_max_age),
            ),
            keys@.no_duplicates(),
            forall|k: XorName|
                keys@.contains(k) <==> #[trigger] final(self)@.queues.pending.contains_key(k),
    {
        begin_verification_cycle(&mut self.queues, now, self.config.pending_verify_max_age)
    }

    /// Second stage: the local paid list.
    pub fn split_by_paid_list(&mut self, keys: &Vec<XorName>, paid: &Vec<Option<bool>>) -> (split:
        LocalSplit)
        requires
            old(self).wf(),
            paid@.len() == keys@.len(),
        ensures
            final(self).wf(),
            final(self)@ == old(self)@.with_queues(marked(old(self)@.queues, keys@, paid@)),
            split.probe@ == picked(
                keys@,
                local_flags(old(self)@.queues, keys@, paid@, HintPipeline::Replica),
            ),
            split.paid_only@ == picked(
                keys@,
                local_flags(old(self)@.queues, keys@, paid@, HintPipeline::PaidOnly),
            ),
            split.network@ == picked(keys@, network_flags(keys@, paid@)),
    {
        split_by_paid_list(&mut self.queues, keys, paid)
    }

    /// Third stage: paid-only keys.
    pub fn settle_paid_only(
        &mut self,
        split: LocalSplit,
        stored: &Vec<Option<bool>>,
        responsible: &Vec<bool>,
    ) -> (stage: ProbeStage)
        requires
            old(self).wf(),
            stored@.len() == split.paid_only@.len(),
            responsible@.len() == split.paid_only@.len(),
        ensures
            final(self).wf(),
            ({
                let ds = paid_only_dispositions(stored@, responsible@);
                &&& final(self)@ == old(self)@.with_queues(
                    disposed(old(self)@.queues, old(self)@.self_id, split.paid_only@, ds),
                )
                &&& stage.probe@ == split.probe@ + picked(split.paid_only@, keep_flags(ds))
                &&& stage.network@ == split.network@
                &&& stage.terminal@ == picked(split.paid_only@, drop_flags(ds))
            }),
    {
        let self_id = self.self_id;
        split.settle_paid_only(&mut self.queues, &self_id, stored, responsible)
    }

    /// Fourth stage: holders of authorized keys.
    pub fn apply_presence(
        &mut self,
        stage: ProbeStage,
        stored: &Vec<Option<bool>>,
        sources: &Vec<Vec<PeerId>>,
    ) -> (next: NetworkStage)
        requires
            old(self).wf(),
            stored@.len() == stage.probe@.len(),
            sources@.len() == stage.probe@.len(),
        ensures
            final(self).wf(),
            ({
                let ds = presence_dispositions(stored@, sources@);
                &&& final(self)@ == old(self)@.with_queues(
                    disposed(old(self)@.queues, old(self)@.self_id, stage.probe@, ds),
                )
                &&& next.network@ == stage.network@
                &&& next.terminal@ == stage.terminal@ + picked(stage.probe@, drop_flags(ds))
            }),
    {
        let self_id = self.self_id;
        stage.apply_presence(&mut self.queues, &self_id, stored, sources)
    }

    /// Fifth stage: verdicts of the network.
    pub fn evaluate(
        &self,
        stage: NetworkStage,
        outcomes: &Vec<Option<KeyVerificationOutcome>>,
    ) -> (next: EvaluatedStage)
        requires
            self.wf(),
            outcomes@.len() == stage.network@.len(),
        ensures
            evaluated_models(next.evaluated@) == verdicts(
                self@.queues,
                stage.network@,
                outcomes@,
            ),
            next.terminal@ == stage.terminal@,
    {
        stage.evaluate(&self.queues, outcomes)
    }

    /// Last stage: act on the verdicts, and retire every key that the cycle
    /// took out of the pipeline. Tells whether waiters for the end of bootstrap
    /// are to be woken.
    pub fn apply_outcomes(&mut self, stage: EvaluatedStage, repair: &ByteSet) -> (completed: bool)
        requires
            old(self).wf(),
            repair.wf(),
        ensures
            final(self).wf(),
            ({
                let evaluated = evaluated_models(stage.evaluated@);
                let ds = outcome_dispositions(evaluated, repair@);
                let keys = evaluated_keys(evaluated);
                let acted = old(self)@.with_queues(
                    disposed(old(self)@.queues, old(self)@.self_id, keys, ds),
                );
                let terminal = stage.terminal@ + picked(keys, drop_flags(ds));
                &&& final(self)@ == acted.retired(terminal)
                &&& completed == acted.retiring_completes(terminal)
            }),
    {
        let self_id = self.self_id;
        let terminal = stage.apply_outcomes(&mut self.queues, &self_id, repair);
        self.update_bootstrap_after_verification(&terminal)
    }
}

// ---------------------------------------------------------------------------
// Laws
// ---------------------------------------------------------------------------

/// The paid list is opened exactly if the configuration was found valid, and an
/// engine is created exactly if both succeeded; an invalid configuration is an
/// error whatever became of the paid list.
pub proof fn lemma_paid_list_opened_iff_valid(
    validation: Option<Result<(), String>>,
    paid_list: Option<Result<(), String>>,
)
    ensures
        create_next(validation, None) == Ok::<CreateAction, ErrorModel>(CreateAction::OpenPaidList)
            <==> validation is Some && validation->0 is Ok,
        create_next(validation, paid_list) == Ok::<CreateAction, ErrorModel>(
            CreateAction::OpenPaidList,
        ) ==> validation is Some && validation->0 is Ok,
        create_next(validation, paid_list) == Ok::<CreateAction, ErrorModel>(CreateAction::Create)
            <==> validation is Some && validation->0 is Ok && paid_list is Some && paid_list->0 is Ok,
        validation is Some && validation->0 is Err ==> create_next(validation, paid_list) is Err,
{
}

/// Number of waits in `ends` after which a task had ended.
pub open spec fn ended_count(ends: Seq<TaskEnd>) -> nat
    decreases ends.len(),
{
    if ends.len() == 0 {
        0
    } else if ends.last() is TimedOut {
        ended_count(ends.drop_last())
    } else {
        ended_count(ends.drop_last()) + 1
    }
}

/// Shutdown finishes exactly when each task has ended: a wait that ran out of
/// time ends nothing, and a task that crashed counts like any other, so that it
/// keeps no other task from being waited for.
pub proof fn lemma_shutdown_awaits_every_task(tasks: nat, ends: Seq<TaskEnd>)
    ensures
        ({
            let pass = ShutdownModel::over(tasks).after(ShutdownEvent::Cancelled).after_tasks(ends);
            &&& pass.total == tasks
            &&& pass.action() is Finish <==> ended_count(ends) >= tasks
            &&& pass.left == if ended_count(ends) >= tasks {
                0
            } else {
                tasks - ended_count(ends)
            }
        }),
        !(ShutdownModel::over(tasks).action() is Finish),
    decreases ends.len(),
{
    if ends.len() > 0 {
        lemma_shutdown_awaits_every_task(tasks, ends.drop_last());
    }
    lemma_pass_stays_cancelled(
        ShutdownModel::over(tasks).after(ShutdownEvent::Cancelled),
        ends,
    );
    if ends.len() > 0 {
        lemma_pass_stays_cancelled(
            ShutdownModel::over(tasks).after(ShutdownEvent::Cancelled),
            ends.drop_last(),
        );
    }
}

/// What was told to stop stays told to stop.
proof fn lemma_pass_stays_cancelled(pass: ShutdownModel, ends: Seq<TaskEnd>)
    requires
        pass.cancelled,
    ensures
        pass.after_tasks(ends).cancelled,
    decreases ends.len(),
{
    if ends.len() > 0 {
        lemma_pass_stays_cancelled(pass, ends.drop_last());
    }
}

/// Who is asked in a round, and whether as a stand-in, when the syncs end as
/// `answers` says: whether each failed, and when.
pub open spec fn round_targets(
    m: EngineModel,
    round: RoundModel,
    answers: Seq<(bool, u64)>,
) -> Seq<(PeerId, bool)>
    decreases answers.len(),
{
    if answers.len() == 0 {
        Seq::empty()
    } else {
        let (m1, r1) = m.next_target(round, answers[0].0, answers[0].1);
        match r1.asked {
            Some(peer) => seq![(peer, r1.stands_in)] + round_targets(
                m1,
                r1,
                answers.drop_first(),
            ),
            None => Seq::empty(),
        }
    }
}

/// Those of `targets` that belong to the batch.
pub open spec fn batch_targets(targets: Seq<(PeerId, bool)>) -> Seq<PeerId>
    decreases targets.len(),
{
    if targets.len() == 0 {
        Seq::empty()
    } else if targets[0].1 {
        batch_targets(targets.drop_first())
    } else {
        seq![targets[0].0] + batch_targets(targets.drop_first())
    }
}

/// A round asks the neighbors of its batch in order and each at most once, and no
/// stand-in follows another: a failed neighbor is replaced by at most one other.
pub proof fn lemma_round_asks_each_once(
    m: EngineModel,
    round: RoundModel,
    answers: Seq<(bool, u64)>,
)
    ensures
        ({
            let targets = round_targets(m, round, answers);
            &&& batch_targets(targets).is_prefix_of(round.left)
            &&& forall|i: int|
                0 <= i < targets.len() - 1 && (#[trigger] targets[i]).1 ==> !targets[i + 1].1
            &&& round.stands_in && targets.len() > 0 ==> !targets[0].1
        }),
    decreases answers.len(),
{
    if answers.len() > 0 {
        let (m1, r1) = m.next_target(round, answers[0].0, answers[0].1);
        let rest = round_targets(m1, r1, answers.drop_first());
        lemma_round_asks_each_once(m1, r1, answers.drop_first());
        match r1.asked {
            Some(peer) => {
                let targets = round_targets(m, round, answers);
                assert(targets.drop_first() =~= rest);
                let later = batch_targets(rest);
                if r1.stands_in {
                    assert(r1.left == round.left);
                } else {
                    assert(round.left.len() > 0 && peer == round.left[0]);
                    assert(r1.left =~= round.left.skip(1));
                    assert(round.left.take(later.len() as int + 1) =~= seq![peer]
                        + round.left.skip(1).take(later.len() as int));
                    assert(seq![peer] + later =~= round.left.take(later.len() as int + 1));
                }
                assert forall|i: int|
                    0 <= i < targets.len() - 1 && (#[trigger] targets[i]).1 implies !targets[i
                    + 1].1 by {
                    if i > 0 {
                        assert(targets[i] == rest[i - 1]);
                        assert(targets[i + 1] == rest[i]);
                    } else {
                        assert(targets[1] == rest[0]);
                    }
                }
            },
            None => {},
        }
    }
}

/// While no sync fails, a round asks exactly its batch, and the cycle stays as it
/// is.
pub proof fn lemma_undisturbed_round_asks_its_batch(
    m: EngineModel,
    batch: Seq<PeerId>,
    answers: Seq<(bool, u64)>,
)
    requires
        answers.len() > batch.len(),
        forall|i: int| 0 <= i < answers.len() ==> !(#[trigger] answers[i]).0,
    ensures
        batch_targets(round_targets(m, RoundModel::over(batch), answers)) == batch,
        round_targets(m, RoundModel::over(batch), answers).len() == batch.len(),
{
    lemma_undisturbed_rest(m, RoundModel::over(batch), answers);
}

proof fn lemma_undisturbed_rest(m: EngineModel, round: RoundModel, answers: Seq<(bool, u64)>)
    requires
        answers.len() > round.left.len(),
        forall|i: int| 0 <= i < answers.len() ==> !(#[trigger] answers[i]).0,
    ensures
        batch_targets(round_targets(m, round, answers)) == round.left,
        round_targets(m, round, answers).len() == round.left.len(),
    decreases round.left.len(),
{
    let (m1, r1) = m.next_target(round, answers[0].0, answers[0].1);
    assert(!answers[0].0);
    assert(m1 == m && r1 == round.moved_on());
    if round.left.len() == 0 {
        assert(batch_targets(round_targets(m, round, answers)) =~= round.left);
    } else {
        let later = answers.drop_first();
        assert forall|i: int| 0 <= i < later.len() implies !(#[trigger] later[i]).0 by {
            assert(later[i] == answers[i + 1]);
        }
        lemma_undisturbed_rest(m1, r1, later);
        let targets = round_targets(m, round, answers);
        assert(targets.drop_first() =~= round_targets(m1, r1, later));
        assert(seq![round.left[0]] + round.left.skip(1) =~= round.left);
    }
}

/// Hints that a node takes in while it bootstraps hold bootstrap, and others do
/// not: what a plan says of tracking is what admission then does.
pub proof fn lemma_tracked_hints_count(
    m: EngineModel,
    replica_keys: Seq<XorName>,
    stored: Seq<Option<bool>>,
    paid_only_keys: Seq<XorName>,
    source: PeerId,
    now: u64,
    key: XorName,
)
    requires
        admission(m.queues, replica_keys, stored, paid_only_keys, source, now).discovered.contains(
            key,
        ),
    ensures
        m.hints_admitted(
            replica_keys,
            stored,
            paid_only_keys,
            source,
            now,
            true,
        ).bootstrap.discovered.contains(key),
        m.hints_admitted(replica_keys, stored, paid_only_keys, source, now, false).bootstrap
            == m.bootstrap,
{
}

/// The bootstrap phase is left only when bootstrap work has drained, and it is
/// never entered again.
pub open spec fn bootstrap_moves_forward(before: EngineModel, after: EngineModel) -> bool {
    &&& before.bootstrap.drained ==> after.bootstrap.drained
    &&& !before.bootstrapping ==> !after.bootstrapping
    &&& before.bootstrapping && !after.bootstrapping ==> after.bootstrap.drained
}

/// Every transition of the engine moves bootstrap forward only.
pub proof fn lemma_bootstrap_never_restarts(
    m: EngineModel,
    keys: Seq<XorName>,
    key: XorName,
    outcome: Option<FetchResult>,
    replica_keys: Seq<XorName>,
    stored: Seq<Option<bool>>,
    paid_only_keys: Seq<XorName>,
    source: PeerId,
    now: u64,
    flag: bool,
    neighbors: nat,
    queues: QueuesModel,
    sync: SyncModel,
)
    ensures
        bootstrap_moves_forward(m, m.drain_checked()),
        bootstrap_moves_forward(m, m.retired(keys)),
        bootstrap_moves_forward(m, m.fetch_finished(key, outcome)),
        bootstrap_moves_forward(
            m,
            m.hints_admitted(replica_keys, stored, paid_only_keys, source, now, flag),
        ),
        bootstrap_moves_forward(m, m.bootstrap_gated(flag, neighbors)),
        bootstrap_moves_forward(m, m.request_counted()),
        bootstrap_moves_forward(m, m.request_ended()),
        bootstrap_moves_forward(m, m.cycle_counted()),
        bootstrap_moves_forward(m, m.request_answered(source, flag, now)),
        bootstrap_moves_forward(m, m.response_recorded(source, flag, now)),
        bootstrap_moves_forward(m, m.with_queues(queues)),
        bootstrap_moves_forward(m, m.with_sync(sync)),
{
}

/// A check ends the bootstrap phase only when no sync request is outstanding, no
/// source owes hints that were turned away, and no discovered key is left in the
/// pipeline.
pub proof fn lemma_bootstrap_ends_with_its_work(m: EngineModel)
    requires
        m.bootstrapping,
        !m.bootstrap.drained,
        !m.drain_checked().bootstrapping,
    ensures
        m.bootstrap.pending_requests == 0,
        m.bootstrap.rejected == Set::<[u8; 32]>::empty(),
        forall|k: XorName| #[trigger]
            m.bootstrap.discovered.contains(k) ==> !m.queues.holds(k),
{
}

/// When the transition that ends bootstrap wakes the waiters, the phase is
/// over; while it is not over, nobody is woken.
pub proof fn lemma_waiters_wake_when_bootstrap_ends(m: EngineModel, keys: Seq<XorName>)
    requires
        !m.bootstrapping ==> m.bootstrap.drained,
    ensures
        m.retiring_completes(keys) ==> !m.retired(keys).bootstrapping,
        m.bootstrapping && !m.retired(keys).bootstrapping ==> m.retiring_completes(keys),
{
}

/// Work turned away for lack of room keeps the engine bootstrapping: after hints
/// of `source` were counted toward bootstrap and some found no room, no check
/// ends the phase.
pub proof fn lemma_turned_away_hints_hold_bootstrap(
    m: EngineModel,
    replica_keys: Seq<XorName>,
    stored: Seq<Option<bool>>,
    paid_only_keys: Seq<XorName>,
    source: PeerId,
    now: u64,
    keys: Seq<XorName>,
)
    requires
        m.bootstrapping,
        !m.bootstrap.drained,
        admission(m.queues, replica_keys, stored, paid_only_keys, source, now).rejected > 0,
    ensures
        ({
            let after = m.hints_admitted(
                replica_keys,
                stored,
                paid_only_keys,
                source,
                now,
                true,
            );
            &&& after.bootstrapping
            &&& after.drain_checked().bootstrapping
            &&& after.retired(keys).bootstrapping
        }),
{
    let after = m.hints_admitted(replica_keys, stored, paid_only_keys, source, now, true);
    assert(after.bootstrap.rejected.contains(source.0));
}

/// A discovered key keeps the engine bootstrapping until it has left the
/// pipeline.
pub proof fn lemma_discovered_key_holds_bootstrap(m: EngineModel, key: XorName)
    requires
        m.bootstrapping,
        !m.bootstrap.drained,
        m.bootstrap.discovered.contains(key),
        m.queues.holds(key),
    ensures
        m.drain_checked().bootstrapping,
{
}

/// Whether `key` is pending, waits for a fetch or is in flight.
pub open spec fn in_pipeline(queues: QueuesModel, key: XorName) -> bool {
    ||| queues.pending.contains_key(key)
    ||| queues.in_flight.contains_key(key)
    ||| exists|i: int| 0 <= i < queues.queued.len() && #[trigger] queues.queued[i].key == key
}

/// Apart from the bootstrap phase and its bookkeeping nothing changed.
pub open spec fn only_bootstrap_changed(before: EngineModel, after: EngineModel) -> bool {
    &&& after.config == before.config
    &&& after.self_id == before.self_id
    &&& after.queues == before.queues
    &&& after.sync == before.sync
    &&& after.history == before.history
    &&& after.epoch == before.epoch
    &&& after.tasks == before.tasks
    &&& after.fresh_writes == before.fresh_writes
}

/// The bootstrap phase goes on exactly as long as it has work: a check ends it
/// when bootstrap had drained already, or when no sync request is outstanding, no
/// source owes hints, and no discovered key is in the pipeline.
pub proof fn lemma_check_ends_bootstrap_iff_no_work_is_left(m: EngineModel)
    ensures
        ({
            let after = m.drain_checked();
            let done = m.bootstrap.drained || {
                &&& m.bootstrap.pending_requests == 0
                &&& forall|s: [u8; 32]| !#[trigger] m.bootstrap.rejected.contains(s)
                &&& forall|k: XorName| #[trigger]
                    m.bootstrap.discovered.contains(k) ==> !in_pipeline(m.queues, k)
            };
            &&& after.bootstrap.drained <==> done
            &&& after.bootstrapping <==> m.bootstrapping && !done
            &&& after.bootstrap.discovered == m.bootstrap.discovered
            &&& after.bootstrap.rejected == m.bootstrap.rejected
            &&& after.bootstrap.pending_requests == m.bootstrap.pending_requests
            &&& only_bootstrap_changed(m, after)
        }),
{
    assert forall|k: XorName| #[trigger] m.queues.holds(k) == in_pipeline(m.queues, k) by {}
    if forall|s: [u8; 32]| !#[trigger] m.bootstrap.rejected.contains(s) {
        assert(m.bootstrap.rejected =~= Set::empty());
    }
}

/// Retired keys no longer count toward bootstrap, and bootstrap ends with them
/// when nothing else is left to do. Nothing happens when no key is retired or
/// bootstrap had drained before. Waiters are woken exactly by the retirement
/// that finds all work done.
pub proof fn lemma_retired_keys_hold_nothing(m: EngineModel, keys: Seq<XorName>, key: XorName)
    ensures
        ({
            let after = m.retired(keys);
            let idle = keys.len() == 0 || m.bootstrap.drained;
            let done = {
                &&& m.bootstrap.pending_requests == 0
                &&& forall|s: [u8; 32]| !#[trigger] m.bootstrap.rejected.contains(s)
                &&& forall|k: XorName| #[trigger]
                    m.bootstrap.discovered.contains(k) && !keys.contains(k) ==> !in_pipeline(
                        m.queues,
                        k,
                    )
            };
            &&& idle ==> after == m && !m.retiring_completes(keys)
            &&& !idle ==> {
                &&& after.bootstrap.discovered.contains(key) <==> m.bootstrap.discovered.contains(
                    key,
                ) && !keys.contains(key)
                &&& after.bootstrap.drained <==> done
                &&& after.bootstrapping <==> m.bootstrapping && !done
                &&& m.retiring_completes(keys) <==> done
            }
            &&& after.bootstrap.rejected == m.bootstrap.rejected
            &&& after.bootstrap.pending_requests == m.bootstrap.pending_requests
            &&& only_bootstrap_changed(m, after)
        }),
{
    if keys.len() > 0 && !m.bootstrap.drained {
        let rest = EngineModel { bootstrap: m.bootstrap.without_keys(keys), ..m };
        lemma_check_ends_bootstrap_iff_no_work_is_left(rest);
        assert forall|k: XorName|
            #![trigger rest.bootstrap.discovered.contains(k)]
            #![trigger m.bootstrap.discovered.contains(k)]
            rest.bootstrap.discovered.contains(k) <==> m.bootstrap.discovered.contains(k)
                && !keys.contains(k) by {}
        assert(m.retiring_completes(keys) == rest.drain_checked().bootstrap.drained);
    }
}

/// A fetch that goes on leaves bootstrap alone; one that is over takes its key out
/// of flight and retires it, and bootstrap ends with it when nothing else is left
/// to do.
pub proof fn lemma_finished_fetch_retires_its_key(
    m: EngineModel,
    key: XorName,
    outcome: Option<FetchResult>,
    other: XorName,
)
    ensures
        ({
            let after = m.fetch_finished(key, outcome);
            let (queues, next) = fetch_next(m.queues, key, outcome);
            &&& after.queues == queues
            &&& next is Retry ==> after.bootstrap == m.bootstrap && after.bootstrapping
                == m.bootstrapping
            &&& next is Terminal ==> {
                let done = m.bootstrap.drained || {
                    &&& m.bootstrap.pending_requests == 0
                    &&& forall|s: [u8; 32]| !#[trigger] m.bootstrap.rejected.contains(s)
                    &&& forall|k: XorName| #[trigger]
                        m.bootstrap.discovered.contains(k) && k != key ==> !in_pipeline(queues, k)
                };
                &&& !after.queues.in_flight.contains_key(key)
                &&& !m.bootstrap.drained ==> (after.bootstrap.discovered.contains(other)
                    <==> m.bootstrap.discovered.contains(other) && other != key)
                &&& after.bootstrap.drained <==> done
                &&& !m.bootstrap.drained ==> (after.bootstrapping <==> m.bootstrapping && !done)
            }
            &&& after.bootstrap.rejected == m.bootstrap.rejected
            &&& after.bootstrap.pending_requests == m.bootstrap.pending_requests
            &&& after.sync == m.sync
            &&& after.history == m.history
            &&& after.epoch == m.epoch
            &&& after.tasks == m.tasks
            &&& after.config == m.config
        }),
{
    let (queues, next) = fetch_next(m.queues, key, outcome);
    let keys = seq![key];
    assert forall|k: XorName| #[trigger] keys.contains(k) <==> k == key by {
        assert(keys[0] == key);
    }
    lemma_retired_keys_hold_nothing(m.with_queues(queues), keys, other);
}

/// Queued hints reach the pipeline in any case; toward bootstrap they count only
/// when tracked: then the discovered keys are added, and the source owes hints
/// exactly if some were turned away.
pub proof fn lemma_hints_reach_pipeline_and_bootstrap(
    m: EngineModel,
    replica_keys: Seq<XorName>,
    stored: Seq<Option<bool>>,
    paid_only_keys: Seq<XorName>,
    source: PeerId,
    now: u64,
    track: bool,
    key: XorName,
    other: PeerId,
)
    ensures
        ({
            let after = m.hints_admitted(replica_keys, stored, paid_only_keys, source, now, track);
            let queued = admission(m.queues, replica_keys, stored, paid_only_keys, source, now);
            &&& after.queues == queued.queues
            &&& !track ==> after.bootstrap == m.bootstrap
            &&& track ==> {
                &&& after.bootstrap.discovered.contains(key) <==> m.bootstrap.discovered.contains(
                    key,
                ) || queued.discovered.contains(key)
                &&& after.bootstrap.rejected.contains(source.0) <==> queued.rejected > 0
                &&& other.0 != source.0 ==> (after.bootstrap.rejected.contains(other.0)
                    <==> m.bootstrap.rejected.contains(other.0))
                &&& after.bootstrap.pending_requests == m.bootstrap.pending_requests
                &&& after.bootstrap.drained == m.bootstrap.drained
            }
            &&& after.bootstrapping == m.bootstrapping
            &&& after.sync == m.sync
            &&& after.history == m.history
            &&& after.epoch == m.epoch
            &&& after.tasks == m.tasks
            &&& after.config == m.config
        }),
{
}

/// A complete cycle counts once: the epoch goes up by one and every peer's record
/// counts one more cycle, each up to its largest value. An incomplete cycle
/// counts nothing.
pub proof fn lemma_complete_cycle_counts_once(m: EngineModel, peer: PeerId)
    requires
        m.sync.valid(),
    ensures
        ({
            let after = m.cycle_counted();
            &&& m.sync.cursor < m.sync.order.len() ==> after == m
            &&& m.sync.cursor == m.sync.order.len() ==> {
                &&& after.epoch == if m.epoch < u64::MAX {
                    m.epoch + 1
                } else {
                    m.epoch as int
                }
                &&& after.history.contains_key(peer.0) <==> m.history.contains_key(peer.0)
                &&& m.history.contains_key(peer.0) ==> {
                    let record = m.history[peer.0];
                    &&& after.history[peer.0].last_sync == record.last_sync
                    &&& after.history[peer.0].cycles_since_sync == if record.cycles_since_sync
                        < u32::MAX {
                        record.cycles_since_sync + 1
                    } else {
                        record.cycles_since_sync as int
                    }
                }
            }
            &&& after.sync == m.sync
            &&& after.queues == m.queues
            &&& after.bootstrap == m.bootstrap
            &&& after.bootstrapping == m.bootstrapping
            &&& after.tasks == m.tasks
            &&& after.config == m.config
        }),
{
}

/// A sync request leaves a record of its sender, and only if the sender is in
/// the routing table. It says nothing of the cycle, and of no other peer.
pub proof fn lemma_request_is_recorded_for_known_senders(
    m: EngineModel,
    source: PeerId,
    sender_in_rt: bool,
    now: u64,
    other: PeerId,
)
    ensures
        ({
            let after = m.request_answered(source, sender_in_rt, now);
            &&& !sender_in_rt ==> after == m
            &&& sender_in_rt ==> {
                &&& after.history.contains_key(source.0)
                &&& after.history[source.0].last_sync == Some(now)
                &&& after.history[source.0].cycles_since_sync == 0
            }
            &&& other.0 != source.0 ==> (after.history.contains_key(other.0)
                <==> m.history.contains_key(other.0))
            &&& other.0 != source.0 && m.history.contains_key(other.0) ==> after.history[other.0]
                == m.history[other.0]
            &&& after.sync == m.sync
            &&& after.queues == m.queues
            &&& after.bootstrap == m.bootstrap
            &&& after.bootstrapping == m.bootstrapping
            &&& after.epoch == m.epoch
            &&& after.tasks == m.tasks
            &&& after.config == m.config
        }),
{
}

/// An answer to a sync request starts the cooldown of its peer and leaves a
/// record of it. A peer that claims to be bootstrapping is on record as claiming
/// from its first claim on; any other answer ends an active claim and keeps the
/// history. Other peers are not concerned.
pub proof fn lemma_response_is_recorded(
    m: EngineModel,
    peer: PeerId,
    peer_bootstrapping: bool,
    now: u64,
    other: PeerId,
)
    requires
        m.sync.valid(),
    ensures
        ({
            let after = m.response_recorded(peer, peer_bootstrapping, now);
            &&& after.sync.valid()
            &&& after.sync.last_sync.contains_key(peer.0)
            &&& after.sync.last_sync[peer.0] == now
            &&& after.history.contains_key(peer.0)
            &&& after.history[peer.0].last_sync == Some(now)
            &&& after.history[peer.0].cycles_since_sync == 0
            &&& peer_bootstrapping ==> after.sync.claim_history.contains_key(peer.0)
            &&& peer_bootstrapping && m.sync.claim_history.contains_key(peer.0)
                ==> after.sync.claims == m.sync.claims && after.sync.claim_history
                == m.sync.claim_history
            &&& peer_bootstrapping && !m.sync.claim_history.contains_key(peer.0)
                ==> after.sync.claims.contains_key(peer.0) && after.sync.claims[peer.0] == now
            &&& !peer_bootstrapping ==> !after.sync.claims.contains_key(peer.0)
                && after.sync.claim_history == m.sync.claim_history
            &&& other.0 != peer.0 ==> {
                &&& after.sync.claims.contains_key(other.0) <==> m.sync.claims.contains_key(other.0)
                &&& after.sync.last_sync.contains_key(other.0)
                    <==> m.sync.last_sync.contains_key(other.0)
                &&& after.history.contains_key(other.0) <==> m.history.contains_key(other.0)
                &&& m.history.contains_key(other.0) ==> after.history[other.0]
                    == m.history[other.0]
                &&& m.sync.last_sync.contains_key(other.0) ==> after.sync.last_sync[other.0]
                    == m.sync.last_sync[other.0]
                &&& m.sync.claims.contains_key(other.0) ==> after.sync.claims[other.0]
                    == m.sync.claims[other.0]
                &&& after.sync.claim_history.contains_key(other.0)
                    <==> m.sync.claim_history.contains_key(other.0)
            }
            &&& after.sync.prune_cursor == m.sync.prune_cursor
            &&& after.sync.order == m.sync.order
            &&& after.sync.cursor == m.sync.cursor
            &&& after.queues == m.queues
            &&& after.bootstrap == m.bootstrap
            &&& after.bootstrapping == m.bootstrapping
            &&& after.epoch == m.epoch
            &&& after.tasks == m.tasks
            &&& after.config == m.config
        }),
{
    lemma_records_of_a_peer(m.sync, peer, now, other);
    lemma_records_of_a_peer(m.sync.synced(peer, now), peer, now, other);
}

/// A node without neighbors is done with bootstrap at once, unless it is
/// shutting down; with neighbors nothing is decided yet.
pub proof fn lemma_node_without_neighbors_is_done(
    m: EngineModel,
    shutting_down: bool,
    neighbors: nat,
)
    ensures
        ({
            let after = m.bootstrap_gated(shutting_down, neighbors);
            &&& shutting_down || neighbors > 0 ==> after == m
            &&& !shutting_down && neighbors == 0 ==> after.bootstrap.drained
                && !after.bootstrapping
            &&& after.bootstrap.discovered == m.bootstrap.discovered
            &&& after.bootstrap.rejected == m.bootstrap.rejected
            &&& after.bootstrap.pending_requests == m.bootstrap.pending_requests
            &&& only_bootstrap_changed(m, after)
        }),
{
}

/// The end of a bootstrap request undoes its beginning; both touch nothing but
/// the count.
pub proof fn lemma_bootstrap_requests_are_counted(m: EngineModel)
    ensures
        m.bootstrap.pending_requests < usize::MAX ==> {
            &&& m.request_counted().bootstrap.pending_requests == m.bootstrap.pending_requests + 1
            &&& m.request_counted().request_ended() == m
        },
        m.bootstrap.pending_requests > 0 ==> m.request_ended().bootstrap.pending_requests
            == m.bootstrap.pending_requests - 1,
        m.request_counted().bootstrap.discovered == m.bootstrap.discovered,
        m.request_ended().bootstrap.discovered == m.bootstrap.discovered,
        m.request_counted().bootstrap.rejected == m.bootstrap.rejected,
        m.request_ended().bootstrap.rejected == m.bootstrap.rejected,
        m.request_counted().bootstrapping == m.bootstrapping,
        m.request_ended().bootstrapping == m.bootstrapping,
        only_bootstrap_changed(m, m.request_counted()),
        only_bootstrap_changed(m, m.request_ended()),
{
    lemma_requests_are_counted(m.bootstrap);
}

/// Whom a round asks next. After a sync that went well, or one with a stand-in,
/// it is the next neighbor of the batch, and the cycle stays as it is. After a
/// failed sync with a neighbor of the batch, that one leaves the cycle, and the
/// first peer at or behind the cursor that was never synced with, or at least
/// the cooldown ago, stands in for it; only where there is none the round moves
/// on in its batch. At the end of the batch nobody is asked.
pub proof fn lemma_round_replaces_a_failed_neighbor(
    m: EngineModel,
    round: RoundModel,
    failed: bool,
    now: u64,
)
    requires
        m.sync.valid(),
    ensures
        ({
            let (after, next) = m.next_target(round, failed, now);
            let cooldown = m.config.neighbor_sync_cooldown;
            let replace = failed && round.asked is Some && !round.stands_in;
            let sync = m.sync.without_peer(round.asked->0);
            let due = |p: PeerId|
                !sync.last_sync.contains_key(p.0) || cooldown == 0 || now - sync.last_sync[p.0]
                    >= cooldown;
            let found = replace && exists|i: int|
                sync.cursor <= i < sync.order.len() && due(#[trigger] sync.order[i]);
            &&& !replace ==> after == m
            &&& found ==> {
                &&& next.stands_in
                &&& next.left == round.left
                &&& exists|i: int|
                    {
                        &&& sync.cursor <= i < sync.order.len()
                        &&& next.asked == Some(#[trigger] sync.order[i])
                        &&& due(sync.order[i])
                        &&& forall|j: int| sync.cursor <= j < i ==> !due(#[trigger] sync.order[j])
                    }
            }
            &&& !found && round.left.len() > 0 ==> {
                &&& next.asked == Some(round.left[0])
                &&& next.left == round.left.skip(1)
                &&& !next.stands_in
            }
            &&& !found && round.left.len() == 0 ==> {
                &&& next.asked is None
                &&& next.left.len() == 0
                &&& !next.stands_in
            }
            &&& after.sync.last_sync == m.sync.last_sync
            &&& after.queues == m.queues
            &&& after.bootstrap == m.bootstrap
            &&& after.bootstrapping == m.bootstrapping
            &&& after.history == m.history
            &&& after.epoch == m.epoch
            &&& after.tasks == m.tasks
            &&& after.config == m.config
        }),
{
    if failed && round.asked is Some && !round.stands_in {
        let cooldown = m.config.neighbor_sync_cooldown;
        let sync = m.sync.without_peer(round.asked->0);
        lemma_failed_peer_leaves_the_order(m.sync, round.asked->0);
        lemma_selection(sync, 1, now, cooldown);
        lemma_first_due_peer_is_selected(sync, now, cooldown);
    }
}

/// Every repair proof names the peer that was hinted, the hinted key with its
/// close group, and the epoch; there is one for each hint, in order.
pub proof fn lemma_one_proof_per_hint(
    peer: PeerId,
    hints: Seq<SentReplicaHint>,
    epoch: u64,
    i: int,
)
    requires
        0 <= i < hints.len(),
    ensures
        hint_proofs(peer, hints, epoch).len() == hints.len(),
        hint_proofs(peer, hints, epoch)[i].peer == peer,
        hint_proofs(peer, hints, epoch)[i].key == hints[i].key,
        hint_proofs(peer, hints, epoch)[i].close_peers == hints[i].close_peers@,
        hint_proofs(peer, hints, epoch)[i].epoch == epoch,
{
}

/// A new engine has nothing to do, knows nobody, runs no task, keeps to the
/// bounds of its configuration, and bootstraps.
pub proof fn lemma_new_engine_is_empty(config: ReplicationConfig, self_id: PeerId, key: XorName)
    ensures
        ({
            let m = EngineModel::initial(config, self_id);
            &&& !in_pipeline(m.queues, key)
            &&& m.queues.pending_limit == config.pending_verify_limit
            &&& m.queues.per_source_limit == config.pending_verify_per_source_limit
            &&& m.queues.fetch_limit == config.fetch_queue_limit
            &&& m.sync.order.len() == 0
            &&& m.sync.cursor == 0
            &&& m.sync.prune_cursor == 0
            &&& !m.sync.last_sync.contains_key(key)
            &&& !m.sync.claims.contains_key(key)
            &&& !m.sync.claim_history.contains_key(key)
            &&& !m.history.contains_key(key)
            &&& m.epoch == 0
            &&& m.bootstrapping
            &&& !m.bootstrap.drained
            &&& m.bootstrap.pending_requests == 0
            &&& !m.bootstrap.discovered.contains(key)
            &&& !m.bootstrap.rejected.contains(key)
            &&& m.tasks == 0
            &&& m.fresh_writes
            &&& m.config == config
            &&& m.self_id == self_id
        }),
{
}

/// Why an engine cannot be created: an invalid configuration is named as such,
/// and a paid list that does not open is a storage error. Until both are known
/// they are found out one after the other.
pub proof fn lemma_creation_failures(
    validation: Option<Result<(), String>>,
    paid_list: Option<Result<(), String>>,
)
    ensures
        ({
            let next = create_next(validation, paid_list);
            &&& next == Ok::<CreateAction, ErrorModel>(CreateAction::Validate)
                <==> validation is None
            &&& validation matches Some(Err(e)) ==> next == Err::<CreateAction, ErrorModel>(
                ErrorModel::Config(e@),
            )
            &&& validation == Some(Ok::<(), String>(())) && paid_list is None ==> next == Ok::<
                CreateAction,
                ErrorModel,
            >(CreateAction::OpenPaidList)
            &&& paid_list matches Some(Err(e)) ==> validation == Some(Ok::<(), String>(()))
                ==> next == Err::<CreateAction, ErrorModel>(
                ErrorModel::Storage("Failed to open PaidList: "@ + e@),
            )
        }),
{
}

/// What shutting down asks for: first that all tasks are told to stop, then one
/// task after the other is waited for, an aborted one until it ends, and when
/// none is left it is over. A wait that runs out of time has the task aborted
/// and counts no end; every other end of a wait counts one.
pub proof fn lemma_shutdown_steps(pass: ShutdownModel, end: TaskEnd)
    ensures
        pass.action() is Cancel <==> !pass.cancelled,
        pass.action() is Finish <==> pass.cancelled && pass.left == 0,
        pass.action() is AwaitAborted <==> pass.cancelled && pass.left > 0 && pass.aborted,
        pass.action() is AwaitTask <==> pass.cancelled && pass.left > 0 && !pass.aborted,
        pass.waiting() <==> pass.action() is AwaitTask || pass.action() is AwaitAborted,
        ({
            let told = pass.after(ShutdownEvent::Cancelled);
            &&& told.cancelled
            &&& told.left == pass.left
            &&& told.aborted == pass.aborted
            &&& told.total == pass.total
        }),
        ({
            let after = pass.after(ShutdownEvent::Task(end));
            &&& !(pass.cancelled && pass.left > 0) ==> after == pass
            &&& pass.cancelled && pass.left > 0 && end is TimedOut ==> after.left == pass.left
                && after.action() is AwaitAborted
            &&& pass.cancelled && pass.left > 0 && !(end is TimedOut) ==> after.left + 1
                == pass.left && !after.aborted
            &&& after.cancelled == pass.cancelled
            &&& after.total == pass.total
        }),
{
}

/// Replacing the pipeline or the sync cycle replaces nothing else.
pub proof fn lemma_parts_change_alone(m: EngineModel, queues: QueuesModel, sync: SyncModel)
    ensures
        ({
            let a = m.with_queues(queues);
            let b = m.with_sync(sync);
            &&& a.queues == queues && b.queues == m.queues
            &&& a.sync == m.sync && b.sync == sync
            &&& a.config == m.config && b.config == m.config
            &&& a.self_id == m.self_id && b.self_id == m.self_id
            &&& a.history == m.history && b.history == m.history
            &&& a.epoch == m.epoch && b.epoch == m.epoch
            &&& a.bootstrap == m.bootstrap && b.bootstrap == m.bootstrap
            &&& a.bootstrapping == m.bootstrapping && b.bootstrapping == m.bootstrapping
            &&& a.tasks == m.tasks && b.tasks == m.tasks
            &&& a.fresh_writes == m.fresh_writes && b.fresh_writes == m.fresh_writes
        }),
{
}

} // verus!
