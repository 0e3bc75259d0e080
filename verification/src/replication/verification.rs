//! The verification cycle: pending keys become fetches or leave the pipeline.
//!
//! A cycle runs through these stages:
//! 1. [`begin_verification_cycle`] evicts stale keys and lists the pending ones.
//! 2. [`split_by_paid_list`] sorts out the keys that the local paid list
//!    authorizes.
//! 3. [`LocalSplit::settle_paid_only`] decides on paid-only keys among them.
//! 4. [`ProbeStage::apply_presence`] turns answers of holders into fetches.
//! 5. [`NetworkStage::evaluate`] collects the verdicts on the other keys.
//! 6. [`EvaluatedStage::apply_outcomes`] turns verdicts into fetches.
//!
//! The result is the list of terminal keys: those the cycle took out of the
//! pipeline.

use crate::bytemap::ByteSet;
use crate::ids::{copy_peers, distance_between, xor_distance, PeerId, XorName};
use crate::seqs::lemma_push_contains;
use crate::replication::queues::{
    lemma_fewer_pending, lemma_promoted_valid, lemma_with_state_valid, QueuesModel,
    ReplicationQueues,
};
use crate::replication::types::{HintPipeline, KeyVerificationOutcome, VerificationState};
use vstd::prelude::*;

verus! {

// ---------------------------------------------------------------------------
// Vocabulary
// ---------------------------------------------------------------------------

/// The items whose flag is set, in order.
pub open spec fn picked<T>(items: Seq<T>, flags: Seq<bool>) -> Seq<T>
    decreases items.len(),
{
    if items.len() == 0 {
        Seq::empty()
    } else if flags[items.len() - 1] {
        picked(items.drop_last(), flags).push(items.last())
    } else {
        picked(items.drop_last(), flags)
    }
}

/// What a stage does with a pending key.
pub enum Disposition {
    /// It stays pending.
    Keep,
    /// It leaves the pipeline.
    Drop,
    /// It moves to the fetch queue as soon as there is room.
    Promote(Seq<PeerId>),
}

/// The pipeline after `key` was disposed of.
pub open spec fn disposed_one(
    queues: QueuesModel,
    self_id: PeerId,
    key: XorName,
    d: Disposition,
) -> QueuesModel {
    match d {
        Disposition::Keep => queues,
        Disposition::Drop => queues.without_pending(key),
        Disposition::Promote(sources) => queues.promoted(
            key,
            distance_between(key, self_id.0),
            sources,
        ),
    }
}

/// The pipeline after all `keys` were disposed of, in order.
pub open spec fn disposed(
    queues: QueuesModel,
    self_id: PeerId,
    keys: Seq<XorName>,
    ds: Seq<Disposition>,
) -> QueuesModel
    decreases keys.len(),
{
    if keys.len() == 0 {
        queues
    } else {
        disposed_one(
            disposed(queues, self_id, keys.drop_last(), ds),
            self_id,
            keys.last(),
            ds[keys.len() - 1],
        )
    }
}

/// Which keys are dropped.
pub open spec fn drop_flags(ds: Seq<Disposition>) -> Seq<bool> {
    Seq::new(ds.len(), |i: int| ds[i] is Drop)
}

/// Which keys stay.
pub open spec fn keep_flags(ds: Seq<Disposition>) -> Seq<bool> {
    Seq::new(ds.len(), |i: int| ds[i] is Keep)
}

proof fn lemma_picked_step<T>(items: Seq<T>, flags: Seq<bool>, i: int)
    requires
        0 <= i < items.len(),
    ensures
        picked(items.take(i + 1), flags) == if flags[i] {
            picked(items.take(i), flags).push(items[i])
        } else {
            picked(items.take(i), flags)
        },
{
    assert(items.take(i + 1).drop_last() =~= items.take(i));
}

proof fn lemma_disposed_step(
    queues: QueuesModel,
    self_id: PeerId,
    keys: Seq<XorName>,
    ds: Seq<Disposition>,
    i: int,
)
    requires
        0 <= i < keys.len(),
    ensures
        disposed(queues, self_id, keys.take(i + 1), ds) == disposed_one(
            disposed(queues, self_id, keys.take(i), ds),
            self_id,
            keys[i],
            ds[i],
        ),
{
    assert(keys.take(i + 1).drop_last() =~= keys.take(i));
}

// ---------------------------------------------------------------------------
// Stage 1: list pending keys
// ---------------------------------------------------------------------------

/// Evict keys that have been pending too long and list the rest. The cycle is
/// over when nothing is listed.
pub fn begin_verification_cycle(queues: &mut ReplicationQueues, now: u64, max_age: u64) -> (keys:
    Vec<XorName>)
    requires
        old(queues).wf(),
    ensures
        final(queues).wf(),
        final(queues)@ == old(queues)@.evicted(now, max_age),
        keys@.no_duplicates(),
        forall|k: XorName| keys@.contains(k) <==> #[trigger] final(queues)@.pending.contains_key(k),
{
    queues.evict_stale(now, max_age);
    queues.pending_keys()
}

// ---------------------------------------------------------------------------
// Stage 2: the local paid list
// ---------------------------------------------------------------------------

/// Keys sorted by what the local paid list says about them.
#[derive(Debug)]
pub struct LocalSplit {
    /// Authorized replica keys: find a holder to fetch from.
    pub probe: Vec<XorName>,
    /// Authorized paid-only keys: see whether this node should hold them.
    pub paid_only: Vec<XorName>,
    /// Keys that the network has to verify.
    pub network: Vec<XorName>,
}

/// The pipeline after keys on the paid list were marked as verified.
pub open spec fn marked(
    queues: QueuesModel,
    keys: Seq<XorName>,
    paid: Seq<Option<bool>>,
) -> QueuesModel
    decreases keys.len(),
{
    if keys.len() == 0 {
        queues
    } else {
        let before = marked(queues, keys.drop_last(), paid);
        if paid[keys.len() - 1] == Some(true) {
            before.with_state(keys.last(), VerificationState::PaidListVerified)
        } else {
            before
        }
    }
}

/// Which keys are authorized locally and travel through `pipeline`.
pub open spec fn local_flags(
    queues: QueuesModel,
    keys: Seq<XorName>,
    paid: Seq<Option<bool>>,
    pipeline: HintPipeline,
) -> Seq<bool> {
    Seq::new(
        keys.len(),
        |i: int|
            paid[i] == Some(true) && queues.pending.contains_key(keys[i])
                && queues.pending[keys[i]].pipeline == pipeline,
    )
}

/// Which keys are not authorized locally. A failed lookup counts as such.
pub open spec fn network_flags(keys: Seq<XorName>, paid: Seq<Option<bool>>) -> Seq<bool> {
    Seq::new(keys.len(), |i: int| paid[i] != Some(true))
}

proof fn lemma_marked(queues: QueuesModel, keys: Seq<XorName>, paid: Seq<Option<bool>>)
    ensures
        marked(queues, keys, paid).pending.dom() == queues.pending.dom(),
        forall|k: XorName| #[trigger]
            queues.pending.contains_key(k) ==> marked(queues, keys, paid).pending[k].pipeline
                == queues.pending[k].pipeline,
        marked(queues, keys, paid) == (QueuesModel {
            pending: marked(queues, keys, paid).pending,
            ..queues
        }),
        queues.valid() ==> marked(queues, keys, paid).valid(),
    decreases keys.len(),
{
    if keys.len() > 0 {
        let before = marked(queues, keys.drop_last(), paid);
        lemma_marked(queues, keys.drop_last(), paid);
        let state = VerificationState::PaidListVerified;
        assert(before.with_state(keys.last(), state).pending.dom() =~= before.pending.dom());
        if queues.valid() {
            lemma_with_state_valid(before, keys.last(), state);
        }
        assert forall|k: XorName| #[trigger] queues.pending.contains_key(k) implies marked(
            queues,
            keys,
            paid,
        ).pending[k].pipeline == queues.pending[k].pipeline by {
            assert(queues.pending.dom().contains(k));
        }
    }
}

/// Sort `keys` by the local paid list. Keys on it are marked as verified;
/// whether a holder must be found depends on their pipeline. `paid` holds the
/// lookups by position, `None` where one failed.
pub fn split_by_paid_list(
    queues: &mut ReplicationQueues,
    keys: &Vec<XorName>,
    paid: &Vec<Option<bool>>,
) -> (split: LocalSplit)
    requires
        old(queues).wf(),
        paid@.len() == keys@.len(),
    ensures
        final(queues).wf(),
        final(queues)@ == marked(old(queues)@, keys@, paid@),
        split.probe@ == picked(
            keys@,
            local_flags(old(queues)@, keys@, paid@, HintPipeline::Replica),
        ),
        split.paid_only@ == picked(
            keys@,
            local_flags(old(queues)@, keys@, paid@, HintPipeline::PaidOnly),
        ),
        split.network@ == picked(keys@, network_flags(keys@, paid@)),
{
    let mut probe: Vec<XorName> = Vec::new();
    let mut paid_only: Vec<XorName> = Vec::new();
    let mut network: Vec<XorName> = Vec::new();
    let ghost start = queues@;
    let ghost replica_flags = local_flags(start, keys@, paid@, HintPipeline::Replica);
    let ghost paid_flags = local_flags(start, keys@, paid@, HintPipeline::PaidOnly);
    let ghost net_flags = network_flags(keys@, paid@);
    for i in 0..keys.len()
        invariant
            queues.wf(),
            paid@.len() == keys@.len(),
            start == old(queues)@,
            replica_flags == local_flags(start, keys@, paid@, HintPipeline::Replica),
            paid_flags == local_flags(start, keys@, paid@, HintPipeline::PaidOnly),
            net_flags == network_flags(keys@, paid@),
            queues@ == marked(start, keys@.take(i as int), paid@),
            probe@ == picked(keys@.take(i as int), replica_flags),
            paid_only@ == picked(keys@.take(i as int), paid_flags),
            network@ == picked(keys@.take(i as int), net_flags),
    {
        let key = keys[i];
        proof {
            lemma_picked_step(keys@, replica_flags, i as int);
            lemma_picked_step(keys@, paid_flags, i as int);
            lemma_picked_step(keys@, net_flags, i as int);
            assert(keys@.take(i + 1).drop_last() =~= keys@.take(i as int));
            lemma_marked(start, keys@.take(i as int), paid@);
            assert(queues@.pending.contains_key(key) <==> start.pending.contains_key(key)) by {
                assert(queues@.pending.dom().contains(key) <==> start.pending.dom().contains(key));
            }
        }
        let on_list = match paid[i] {
            Some(b) => b,
            None => false,
        };
        if on_list {
            if let Some(pipeline) = queues.set_pending_state(
                &key,
                VerificationState::PaidListVerified,
            ) {
                match pipeline {
                    HintPipeline::PaidOnly => paid_only.push(key),
                    HintPipeline::Replica => probe.push(key),
                }
            }
        } else {
            network.push(key);
        }
    }
    assert(keys@.take(keys@.len() as int) =~= keys@);
    LocalSplit { probe, paid_only, network }
}

// ---------------------------------------------------------------------------
// Stage 3: paid-only keys
// ---------------------------------------------------------------------------

/// Keys that need a holder, keys for the network, and keys done with.
#[derive(Debug)]
pub struct ProbeStage {
    /// Authorized keys: find a holder to fetch from.
    pub probe: Vec<XorName>,
    /// Keys that the network has to verify.
    pub network: Vec<XorName>,
    /// Keys that left the pipeline.
    pub terminal: Vec<XorName>,
}

/// An authorized paid-only key repairs a missing replica when this node is
/// responsible for it; otherwise it is done with.
pub open spec fn paid_only_disposition(stored: Option<bool>, responsible: bool) -> Disposition {
    if stored == Some(true) || !responsible {
        Disposition::Drop
    } else {
        Disposition::Keep
    }
}

/// Decisions on all paid-only keys.
pub open spec fn paid_only_dispositions(
    stored: Seq<Option<bool>>,
    responsible: Seq<bool>,
) -> Seq<Disposition> {
    Seq::new(stored.len(), |i: int| paid_only_disposition(stored[i], responsible[i]))
}

impl LocalSplit {
    /// Decide on the paid-only keys: those that are missing here although this
    /// node is responsible join the keys that need a holder, the others leave
    /// the pipeline. `responsible` is not read where the record is stored.
    pub fn settle_paid_only(
        self,
        queues: &mut ReplicationQueues,
        self_id: &PeerId,
        stored: &Vec<Option<bool>>,
        responsible: &Vec<bool>,
    ) -> (stage: ProbeStage)
        requires
            old(queues).wf(),
            stored@.len() == self.paid_only@.len(),
            responsible@.len() == self.paid_only@.len(),
        ensures
            final(queues).wf(),
            final(queues)@ == disposed(
                old(queues)@,
                *self_id,
                self.paid_only@,
                paid_only_dispositions(stored@, responsible@),
            ),
            stage.probe@ == self.probe@ + picked(
                self.paid_only@,
                keep_flags(paid_only_dispositions(stored@, responsible@)),
            ),
            stage.network@ == self.network@,
            stage.terminal@ == picked(
                self.paid_only@,
                drop_flags(paid_only_dispositions(stored@, responsible@)),
            ),
    {
        let LocalSplit { mut probe, paid_only, network } = self;
        let mut terminal: Vec<XorName> = Vec::new();
        let ghost start = queues@;
        let ghost probe0 = probe@;
        let ghost ds = paid_only_dispositions(stored@, responsible@);
        assert(probe0 + Seq::<XorName>::empty() =~= probe0);
        for i in 0..paid_only.len()
            invariant
                queues.wf(),
                stored@.len() == paid_only@.len(),
                responsible@.len() == paid_only@.len(),
                ds == paid_only_dispositions(stored@, responsible@),
                queues@ == disposed(start, *self_id, paid_only@.take(i as int), ds),
                probe@ == probe0 + picked(paid_only@.take(i as int), keep_flags(ds)),
                terminal@ == picked(paid_only@.take(i as int), drop_flags(ds)),
        {
            let key = paid_only[i];
            proof {
                lemma_picked_step(paid_only@, keep_flags(ds), i as int);
                lemma_picked_step(paid_only@, drop_flags(ds), i as int);
                lemma_disposed_step(start, *self_id, paid_only@, ds, i as int);
            }
            let held = match stored[i] {
                Some(b) => b,
                None => false,
            };
            if held || !responsible[i] {
                queues.remove_pending(&key);
                terminal.push(key);
            } else {
                probe.push(key);
                assert(probe@ =~= probe0 + picked(paid_only@.take(i as int), keep_flags(ds)).push(
                    key,
                ));
            }
        }
        assert(paid_only@.take(paid_only@.len() as int) =~= paid_only@);
        ProbeStage { probe, network, terminal }
    }
}

// ---------------------------------------------------------------------------
// Stage 4: holders of authorized keys
// ---------------------------------------------------------------------------

/// Keys for the network, and keys done with.
#[derive(Debug)]
pub struct NetworkStage {
    /// Keys that the network has to verify.
    pub network: Vec<XorName>,
    /// Keys that left the pipeline.
    pub terminal: Vec<XorName>,
}

/// An authorized key is fetched when somebody holds it and this node does not.
pub open spec fn presence_disposition(stored: Option<bool>, sources: Seq<PeerId>) -> Disposition {
    if stored == Some(true) || sources.len() == 0 {
        Disposition::Drop
    } else {
        Disposition::Promote(sources)
    }
}

/// Decisions on all authorized keys.
pub open spec fn presence_dispositions(
    stored: Seq<Option<bool>>,
    sources: Seq<Vec<PeerId>>,
) -> Seq<Disposition> {
    Seq::new(stored.len(), |i: int| presence_disposition(stored[i], sources[i]@))
}

impl ProbeStage {
    /// Act on who holds the authorized keys: keys that are stored by now and
    /// keys that nobody holds leave the pipeline, the others move to the fetch
    /// queue, or stay pending while it is full.
    pub fn apply_presence(
        self,
        queues: &mut ReplicationQueues,
        self_id: &PeerId,
        stored: &Vec<Option<bool>>,
        sources: &Vec<Vec<PeerId>>,
    ) -> (stage: NetworkStage)
        requires
            old(queues).wf(),
            stored@.len() == self.probe@.len(),
            sources@.len() == self.probe@.len(),
        ensures
            final(queues).wf(),
            final(queues)@ == disposed(
                old(queues)@,
                *self_id,
                self.probe@,
                presence_dispositions(stored@, sources@),
            ),
            stage.network@ == self.network@,
            stage.terminal@ == self.terminal@ + picked(
                self.probe@,
                drop_flags(presence_dispositions(stored@, sources@)),
            ),
    {
        let ProbeStage { probe, network, mut terminal } = self;
        let ghost start = queues@;
        let ghost terminal0 = terminal@;
        let ghost ds = presence_dispositions(stored@, sources@);
        assert(terminal0 + Seq::<XorName>::empty() =~= terminal0);
        for i in 0..probe.len()
            invariant
                queues.wf(),
                stored@.len() == probe@.len(),
                sources@.len() == probe@.len(),
                ds == presence_dispositions(stored@, sources@),
                queues@ == disposed(start, *self_id, probe@.take(i as int), ds),
                terminal@ == terminal0 + picked(probe@.take(i as int), drop_flags(ds)),
        {
            let key = probe[i];
            proof {
                lemma_picked_step(probe@, drop_flags(ds), i as int);
                lemma_disposed_step(start, *self_id, probe@, ds, i as int);
            }
            let held = match stored[i] {
                Some(b) => b,
                None => false,
            };
            if held || sources[i].len() == 0 {
                queues.remove_pending(&key);
                terminal.push(key);
                assert(terminal@ =~= terminal0 + picked(
                    probe@.take(i as int),
                    drop_flags(ds),
                ).push(key));
            } else {
                let distance = xor_distance(&key, &self_id.0);
                let _ = queues.promote_pending_to_fetch(key, distance, copy_peers(&sources[i]));
            }
        }
        assert(probe@.take(probe@.len() as int) =~= probe@);
        NetworkStage { network, terminal }
    }
}

// ---------------------------------------------------------------------------
// Stage 5: verdicts of the network
// ---------------------------------------------------------------------------

/// A verdict on a pending key.
#[derive(Debug)]
pub struct EvaluatedKey {
    /// The key.
    pub key: XorName,
    /// Whether the network authorized it.
    pub verified: bool,
    /// Holders reported with a positive verdict.
    pub sources: Vec<PeerId>,
    /// Pipeline of the key.
    pub pipeline: HintPipeline,
}

/// Mathematical content of an [`EvaluatedKey`].
#[verifier::ext_equal]
pub struct EvaluatedModel {
    pub key: XorName,
    pub verified: bool,
    pub sources: Seq<PeerId>,
    pub pipeline: HintPipeline,
}

impl View for EvaluatedKey {
    type V = EvaluatedModel;

    open spec fn view(&self) -> EvaluatedModel {
        EvaluatedModel {
            key: self.key,
            verified: self.verified,
            sources: self.sources@,
            pipeline: self.pipeline,
        }
    }
}

/// Contents of a list of evaluated keys.
pub open spec fn evaluated_models(evaluated: Seq<EvaluatedKey>) -> Seq<EvaluatedModel> {
    evaluated.map_values(|e: EvaluatedKey| e@)
}

/// Verdicts, and keys done with.
#[derive(Debug)]
pub struct EvaluatedStage {
    /// Verdicts on keys that are still pending.
    pub evaluated: Vec<EvaluatedKey>,
    /// Keys that left the pipeline.
    pub terminal: Vec<XorName>,
}

/// The verdict on `key` in terms of what follows from it.
pub open spec fn verdict(
    queues: QueuesModel,
    key: XorName,
    outcome: KeyVerificationOutcome,
) -> EvaluatedModel {
    EvaluatedModel {
        key,
        verified: outcome.verified(),
        sources: outcome.sources(),
        pipeline: queues.pending[key].pipeline,
    }
}

/// Verdicts on those of `keys` that have an outcome and are still pending.
pub open spec fn verdicts(
    queues: QueuesModel,
    keys: Seq<XorName>,
    outcomes: Seq<Option<KeyVerificationOutcome>>,
) -> Seq<EvaluatedModel>
    decreases keys.len(),
{
    if keys.len() == 0 {
        Seq::empty()
    } else {
        let before = verdicts(queues, keys.drop_last(), outcomes);
        match outcomes[keys.len() - 1] {
            Some(outcome) => if queues.pending.contains_key(keys.last()) {
                before.push(verdict(queues, keys.last(), outcome))
            } else {
                before
            },
            None => before,
        }
    }
}

impl NetworkStage {
    /// Collect the verdicts. Keys without evidence and keys that are no longer
    /// pending are passed over.
    pub fn evaluate(
        self,
        queues: &ReplicationQueues,
        outcomes: &Vec<Option<KeyVerificationOutcome>>,
    ) -> (stage: EvaluatedStage)
        requires
            queues.wf(),
            outcomes@.len() == self.network@.len(),
        ensures
            evaluated_models(stage.evaluated@) == verdicts(queues@, self.network@, outcomes@),
            stage.terminal@ == self.terminal@,
    {
        let NetworkStage { network, terminal } = self;
        let mut evaluated: Vec<EvaluatedKey> = Vec::new();
        assert(evaluated_models(evaluated@) =~= Seq::empty());
        for i in 0..network.len()
            invariant
                queues.wf(),
                outcomes@.len() == network@.len(),
                evaluated_models(evaluated@) == verdicts(
                    queues@,
                    network@.take(i as int),
                    outcomes@,
                ),
        {
            assert(network@.take(i + 1).drop_last() =~= network@.take(i as int));
            let key = network[i];
            if let Some(outcome) = &outcomes[i] {
                if let Some(entry) = queues.get_pending(&key) {
                    let (verified, sources) = match outcome {
                        KeyVerificationOutcome::QuorumVerified { sources } => (
                            true,
                            copy_peers(sources),
                        ),
                        KeyVerificationOutcome::PaidListVerified { sources } => (
                            true,
                            copy_peers(sources),
                        ),
                        KeyVerificationOutcome::QuorumFailed
                        | KeyVerificationOutcome::QuorumInconclusive => (false, Vec::new()),
                    };
                    let ghost before = evaluated@;
                    let e = EvaluatedKey { key, verified, sources, pipeline: entry.pipeline };
                    assert(e@.sources =~= outcome.sources());
                    assert(e@ =~= verdict(queues@, key, *outcome));
                    evaluated.push(e);
                    assert(evaluated_models(evaluated@) =~= evaluated_models(before).push(e@));
                }
            }
        }
        assert(network@.take(network@.len() as int) =~= network@);
        EvaluatedStage { evaluated, terminal }
    }
}

// ---------------------------------------------------------------------------
// Stage 6: act on the verdicts
// ---------------------------------------------------------------------------

/// Whether a verified paid-only key repairs a missing replica: it is not stored
/// here and this node is responsible for it.
pub open spec fn repairs(e: EvaluatedModel, stored: Option<bool>, responsible: bool) -> bool {
    e.pipeline is PaidOnly && e.verified && stored != Some(true) && responsible
}

/// Keys of verified paid-only hints that are fetched.
pub open spec fn repair_keys(
    evaluated: Seq<EvaluatedModel>,
    stored: Seq<Option<bool>>,
    responsible: Seq<bool>,
) -> Set<XorName> {
    Set::new(
        |k: XorName|
            exists|i: int|
                0 <= i < evaluated.len() && #[trigger] evaluated[i].key == k && repairs(
                    evaluated[i],
                    stored[i],
                    responsible[i],
                ),
    )
}

/// A verified key is fetched when it came as a replica hint or repairs a
/// missing replica, and somebody holds it. All other verdicts end the key.
pub open spec fn outcome_disposition(e: EvaluatedModel, repair: Set<XorName>) -> Disposition {
    if e.verified && (e.pipeline is Replica || repair.contains(e.key)) && e.sources.len() > 0 {
        Disposition::Promote(e.sources)
    } else {
        Disposition::Drop
    }
}

/// Decisions on all verdicts.
pub open spec fn outcome_dispositions(
    evaluated: Seq<EvaluatedModel>,
    repair: Set<XorName>,
) -> Seq<Disposition> {
    Seq::new(evaluated.len(), |i: int| outcome_disposition(evaluated[i], repair))
}

/// Keys of a list of verdicts.
pub open spec fn evaluated_keys(evaluated: Seq<EvaluatedModel>) -> Seq<XorName> {
    evaluated.map_values(|e: EvaluatedModel| e.key)
}

/// Which verdicts are positive.
pub open spec fn verified_flags(evaluated: Seq<EvaluatedModel>) -> Seq<bool> {
    Seq::new(evaluated.len(), |i: int| evaluated[i].verified)
}

impl EvaluatedStage {
    /// Keys that the network authorized: they go on the local paid list.
    pub fn paid_insert_keys(&self) -> (keys: Vec<XorName>)
        ensures
            keys@ == picked(
                evaluated_keys(evaluated_models(self.evaluated@)),
                verified_flags(evaluated_models(self.evaluated@)),
            ),
    {
        let mut keys: Vec<XorName> = Vec::new();
        let ghost models = evaluated_models(self.evaluated@);
        let ghost all = evaluated_keys(models);
        for i in 0..self.evaluated.len()
            invariant
                models == evaluated_models(self.evaluated@),
                all == evaluated_keys(models),
                keys@ == picked(all.take(i as int), verified_flags(models)),
        {
            proof {
                lemma_picked_step(all, verified_flags(models), i as int);
            }
            if self.evaluated[i].verified {
                keys.push(self.evaluated[i].key);
            }
        }
        assert(all.take(all.len() as int) =~= all);
        keys
    }

    /// Whether the verdict at `i` calls for asking if the record is stored and
    /// if this node is responsible for it.
    pub fn asks_for_repair(&self, i: usize) -> (r: bool)
        requires
            i < self.evaluated@.len(),
        ensures
            r == (self.evaluated@[i as int].pipeline is PaidOnly
                && self.evaluated@[i as int].verified),
    {
        match self.evaluated[i].pipeline {
            HintPipeline::PaidOnly => self.evaluated[i].verified,
            HintPipeline::Replica => false,
        }
    }

    /// Keys of verified paid-only hints that repair a missing replica.
    pub fn paid_only_fetch_keys(&self, stored: &Vec<Option<bool>>, responsible: &Vec<bool>) -> (
        keys: ByteSet)
        requires
            stored@.len() == self.evaluated@.len(),
            responsible@.len() == self.evaluated@.len(),
        ensures
            keys.wf(),
            keys@ == repair_keys(evaluated_models(self.evaluated@), stored@, responsible@),
    {
        let mut keys = ByteSet::new();
        let ghost models = evaluated_models(self.evaluated@);
        for i in 0..self.evaluated.len()
            invariant
                keys.wf(),
                models == evaluated_models(self.evaluated@),
                stored@.len() == self.evaluated@.len(),
                responsible@.len() == self.evaluated@.len(),
                forall|k: XorName| #[trigger]
                    keys@.contains(k) <==> exists|j: int|
                        0 <= j < i && #[trigger] models[j].key == k && repairs(
                            models[j],
                            stored@[j],
                            responsible@[j],
                        ),
        {
            let ghost before = keys@;
            let held = match stored[i] {
                Some(b) => b,
                None => false,
            };
            let hit = self.asks_for_repair(i) && !held && responsible[i];
            assert(hit == repairs(models[i as int], stored@[i as int], responsible@[i as int]));
            if hit {
                keys.insert(self.evaluated[i].key);
            }
            proof {
                assert forall|k: XorName| #[trigger] keys@.contains(k) <==> exists|j: int|
                    0 <= j < i + 1 && #[trigger] models[j].key == k && repairs(
                        models[j],
                        stored@[j],
                        responsible@[j],
                    ) by {
                    if before.contains(k) {
                        let j = choose|j: int|
                            0 <= j < i && #[trigger] models[j].key == k && repairs(
                                models[j],
                                stored@[j],
                                responsible@[j],
                            );
                        assert(models[j].key == k);
                    }
                    if keys@.contains(k) && !before.contains(k) {
                        assert(models[i as int].key == k);
                    }
                }
            }
        }
        assert(keys@ =~= repair_keys(models, stored@, responsible@));
        keys
    }

    /// Act on the verdicts: authorized keys that this node should hold move to
    /// the fetch queue, or stay pending while it is full; all others leave the
    /// pipeline. Returns every key that the cycle took out.
    pub fn apply_outcomes(
        self,
        queues: &mut ReplicationQueues,
        self_id: &PeerId,
        repair: &ByteSet,
    ) -> (terminal: Vec<XorName>)
        requires
            old(queues).wf(),
            repair.wf(),
        ensures
            final(queues).wf(),
            final(queues)@ == disposed(
                old(queues)@,
                *self_id,
                evaluated_keys(evaluated_models(self.evaluated@)),
                outcome_dispositions(evaluated_models(self.evaluated@), repair@),
            ),
            terminal@ == self.terminal@ + picked(
                evaluated_keys(evaluated_models(self.evaluated@)),
                drop_flags(outcome_dispositions(evaluated_models(self.evaluated@), repair@)),
            ),
    {
        let EvaluatedStage { evaluated, mut terminal } = self;
        let ghost start = queues@;
        let ghost terminal0 = terminal@;
        let ghost models = evaluated_models(evaluated@);
        let ghost all = evaluated_keys(models);
        let ghost ds = outcome_dispositions(models, repair@);
        assert(terminal0 + Seq::<XorName>::empty() =~= terminal0);
        for i in 0..evaluated.len()
            invariant
                queues.wf(),
                repair.wf(),
                models == evaluated_models(evaluated@),
                all == evaluated_keys(models),
                ds == outcome_dispositions(models, repair@),
                queues@ == disposed(start, *self_id, all.take(i as int), ds),
                terminal@ == terminal0 + picked(all.take(i as int), drop_flags(ds)),
        {
            proof {
                lemma_picked_step(all, drop_flags(ds), i as int);
                lemma_disposed_step(start, *self_id, all, ds, i as int);
            }
            let e = &evaluated[i];
            let key = e.key;
            assert(models[i as int] == e@);
            let wanted = match e.pipeline {
                HintPipeline::Replica => true,
                HintPipeline::PaidOnly => repair.contains(&key),
            };
            if e.verified && wanted && e.sources.len() > 0 {
                let distance = xor_distance(&key, &self_id.0);
                let _ = queues.promote_pending_to_fetch(key, distance, copy_peers(&e.sources));
            } else {
                queues.remove_pending(&key);
                terminal.push(key);
                assert(terminal@ =~= terminal0 + picked(all.take(i as int), drop_flags(ds)).push(
                    key,
                ));
            }
        }
        assert(all.take(all.len() as int) =~= all);
        terminal
    }
}

// ---------------------------------------------------------------------------
// Laws
// ---------------------------------------------------------------------------

proof fn lemma_picked_contains<T>(items: Seq<T>, flags: Seq<bool>, x: T)
    ensures
        picked(items, flags).contains(x) <==> exists|i: int|
            0 <= i < items.len() && #[trigger] items[i] == x && flags[i],
    decreases items.len(),
{
    if items.len() > 0 {
        let init = items.drop_last();
        let n = items.len() - 1;
        lemma_picked_contains(init, flags, x);
        lemma_push_contains(picked(init, flags), items.last(), x);
        if picked(init, flags).contains(x) {
            let i = choose|i: int| 0 <= i < init.len() && #[trigger] init[i] == x && flags[i];
            assert(items[i] == x);
        }
        if exists|i: int| 0 <= i < items.len() && #[trigger] items[i] == x && flags[i] {
            let i = choose|i: int| 0 <= i < items.len() && #[trigger] items[i] == x && flags[i];
            if i < n {
                assert(init[i] == x);
            }
        }
        if flags[n] && items.last() == x {
            assert(items[n] == x);
        }
    } else {
        assert(!picked(items, flags).contains(x));
    }
}

proof fn lemma_picked_at<T>(items: Seq<T>, flags: Seq<bool>, i: int)
    requires
        items.no_duplicates(),
        0 <= i < items.len(),
    ensures
        picked(items, flags).contains(items[i]) <==> flags[i],
{
    lemma_picked_contains(items, flags, items[i]);
    if flags[i] {
        assert(items[i] == items[i]);
    }
}

proof fn lemma_picked_distinct<T>(items: Seq<T>, flags: Seq<bool>)
    requires
        items.no_duplicates(),
    ensures
        picked(items, flags).no_duplicates(),
    decreases items.len(),
{
    if items.len() > 0 {
        let init = items.drop_last();
        let n = items.len() - 1;
        lemma_picked_distinct(init, flags);
        lemma_picked_contains(init, flags, items.last());
        let before = picked(init, flags);
        assert(!before.contains(items.last())) by {
            if before.contains(items.last()) {
                let i = choose|i: int|
                    0 <= i < init.len() && #[trigger] init[i] == items.last() && flags[i];
                assert(items[i] == items[n]);
            }
        }
        if flags[n] {
            let after = before.push(items.last());
            assert forall|a: int, b: int| 0 <= a < b < after.len() implies after[a] != after[b] by {
                if b == before.len() {
                    assert(before.contains(before[a]));
                }
            }
        }
    }
}

/// Disposing of distinct keys keeps the pipeline valid. Of the keys that were
/// pending it takes out exactly the dropped ones; keys that were not pending,
/// because another task took them up or out meanwhile, and keys that the stage
/// does not concern stay where they are.
proof fn lemma_disposed_any(
    queues: QueuesModel,
    self_id: PeerId,
    keys: Seq<XorName>,
    ds: Seq<Disposition>,
)
    requires
        queues.valid(),
        keys.no_duplicates(),
        ds.len() >= keys.len(),
    ensures
        ({
            let after = disposed(queues, self_id, keys, ds);
            &&& after.valid()
            &&& forall|i: int|
                0 <= i < keys.len() ==> {
                    &&& queues.pending.contains_key(#[trigger] keys[i]) ==> (ds[i] is Drop
                        <==> !after.holds(keys[i]))
                    &&& !queues.pending.contains_key(keys[i]) ==> (after.holds(keys[i])
                        <==> queues.holds(keys[i])) && !after.pending.contains_key(keys[i])
                    &&& ds[i] is Drop ==> !after.pending.contains_key(keys[i])
                    &&& ds[i] is Keep && queues.pending.contains_key(keys[i])
                        ==> after.pending.contains_key(keys[i])
                }
            &&& forall|k: XorName| #[trigger]
                queues.pending.contains_key(k) && !keys.contains(k)
                    ==> after.pending.contains_key(k) && after.pending[k] == queues.pending[k]
            &&& forall|k: XorName|
                !queues.pending.contains_key(k) ==> !#[trigger] after.pending.contains_key(k)
            &&& forall|k: XorName|
                !keys.contains(k) ==> (#[trigger] after.holds(k) <==> queues.holds(k))
        }),
    decreases keys.len(),
{
    if keys.len() > 0 {
        let init = keys.drop_last();
        let n = keys.len() - 1;
        let key = keys.last();
        let before = disposed(queues, self_id, init, ds);
        let after = disposed(queues, self_id, keys, ds);
        assert forall|i: int| 0 <= i < init.len() implies #[trigger] init[i] != key by {
            assert(keys[i] != keys[n]);
        }
        lemma_disposed_any(queues, self_id, init, ds);
        assert(!init.contains(key));
        assert(before.pending.contains_key(key) <==> queues.pending.contains_key(key));
        assert(before.holds(key) <==> queues.holds(key));
        match ds[n] {
            Disposition::Keep => {},
            Disposition::Drop => {
                lemma_fewer_pending(before, after);
                assert(after.queued == before.queued);
                assert forall|k: XorName| after.is_queued(k) == #[trigger] before.is_queued(k) by {}
            },
            Disposition::Promote(sources) => {
                lemma_promoted_valid(
                    before,
                    key,
                    distance_between(key, self_id.0),
                    sources,
                );
            },
        }
        assert forall|k: XorName| k != key implies (#[trigger] after.holds(k) <==> before.holds(
            k,
        )) by {
            assert(after.is_queued(k) == before.is_queued(k));
        }
        assert forall|i: int| 0 <= i < keys.len() implies {
            &&& queues.pending.contains_key(#[trigger] keys[i]) ==> (ds[i] is Drop
                <==> !after.holds(keys[i]))
            &&& !queues.pending.contains_key(keys[i]) ==> (after.holds(keys[i]) <==> queues.holds(
                keys[i],
            )) && !after.pending.contains_key(keys[i])
            &&& ds[i] is Drop ==> !after.pending.contains_key(keys[i])
            &&& ds[i] is Keep && queues.pending.contains_key(keys[i])
                ==> after.pending.contains_key(keys[i])
        } by {
            if i < n {
                assert(init[i] == keys[i]);
                assert(after.holds(keys[i]) <==> before.holds(keys[i]));
            } else {
                assert(after.is_queued(key) == before.is_queued(key) || ds[n] is Promote);
            }
        }
        assert forall|k: XorName| #[trigger]
            queues.pending.contains_key(k) && !keys.contains(k) implies after.pending.contains_key(
            k,
        ) && after.pending[k] == queues.pending[k] by {
            lemma_init_contains(keys, k);
        }
        assert forall|k: XorName| !keys.contains(k) implies (#[trigger] after.holds(k)
            <==> queues.holds(k)) by {
            lemma_init_contains(keys, k);
            assert(before.holds(k) <==> queues.holds(k));
        }
        assert forall|k: XorName|
            !queues.pending.contains_key(k) implies !#[trigger] after.pending.contains_key(k) by {
            assert(!before.pending.contains_key(k));
        }
    }
}

/// Disposing of distinct pending keys keeps the pipeline valid, takes exactly
/// the dropped keys out of it, and leaves all other keys where they are.
proof fn lemma_disposed(
    queues: QueuesModel,
    self_id: PeerId,
    keys: Seq<XorName>,
    ds: Seq<Disposition>,
)
    requires
        queues.valid(),
        keys.no_duplicates(),
        ds.len() >= keys.len(),
        forall|i: int| 0 <= i < keys.len() ==> queues.pending.contains_key(#[trigger] keys[i]),
    ensures
        ({
            let after = disposed(queues, self_id, keys, ds);
            &&& after.valid()
            &&& forall|i: int|
                0 <= i < keys.len() ==> {
                    &&& (ds[i] is Drop <==> !after.holds(#[trigger] keys[i]))
                    &&& (ds[i] is Keep ==> after.pending.contains_key(keys[i]))
                }
            &&& forall|k: XorName| #[trigger]
                queues.pending.contains_key(k) && !keys.contains(k)
                    ==> after.pending.contains_key(k) && after.pending[k] == queues.pending[k]
            &&& forall|k: XorName|
                !keys.contains(k) ==> (#[trigger] after.holds(k) <==> queues.holds(k))
        }),
{
    lemma_disposed_any(queues, self_id, keys, ds);
}

/// Each stage accounts for its keys, whatever other tasks did to the pipeline
/// before it: `queues` is the pipeline as the stage finds it. A key that is
/// pending then is reported as gone exactly when the stage takes it out of the
/// pipeline. A reported key is one of the stage's and is not pending afterwards.
/// Keys that are not pending, and keys that the stage does not concern, stay
/// where they are.
pub proof fn lemma_stage_accounts_for_its_keys(
    queues: QueuesModel,
    self_id: PeerId,
    keys: Seq<XorName>,
    ds: Seq<Disposition>,
)
    requires
        queues.valid(),
        keys.no_duplicates(),
        ds.len() == keys.len(),
    ensures
        ({
            let after = disposed(queues, self_id, keys, ds);
            let gone = picked(keys, drop_flags(ds));
            &&& after.valid()
            &&& forall|k: XorName|
                keys.contains(k) && #[trigger] queues.pending.contains_key(k) ==> (gone.contains(k)
                    <==> !after.holds(k))
            &&& forall|k: XorName| #[trigger]
                gone.contains(k) ==> keys.contains(k) && !after.pending.contains_key(k)
            &&& forall|k: XorName|
                !keys.contains(k) || !queues.pending.contains_key(k) ==> (#[trigger] after.holds(k)
                    <==> queues.holds(k))
        }),
{
    lemma_disposed_any(queues, self_id, keys, ds);
    let after = disposed(queues, self_id, keys, ds);
    let gone = picked(keys, drop_flags(ds));
    assert forall|k: XorName|
        keys.contains(k) && #[trigger] queues.pending.contains_key(k) implies (gone.contains(k)
        <==> !after.holds(k)) by {
        let i = choose|i: int| 0 <= i < keys.len() && keys[i] == k;
        lemma_picked_at(keys, drop_flags(ds), i);
        assert(queues.pending.contains_key(keys[i]));
    }
    assert forall|k: XorName| #[trigger] gone.contains(k) implies keys.contains(k)
        && !after.pending.contains_key(k) by {
        lemma_picked_contains(keys, drop_flags(ds), k);
        let i = choose|i: int|
            0 <= i < keys.len() && #[trigger] keys[i] == k && drop_flags(ds)[i];
        assert(ds[i] is Drop);
        assert(!after.pending.contains_key(keys[i]));
    }
    assert forall|k: XorName|
        !keys.contains(k) || !queues.pending.contains_key(k) implies (#[trigger] after.holds(k)
        <==> queues.holds(k)) by {
        if keys.contains(k) {
            let i = choose|i: int| 0 <= i < keys.len() && keys[i] == k;
            assert(!queues.pending.contains_key(keys[i]));
        }
    }
}

proof fn lemma_init_contains<T>(s: Seq<T>, k: T)
    requires
        s.len() > 0,
        !s.contains(k),
    ensures
        !s.drop_last().contains(k),
        s.last() != k,
{
    assert(s.contains(s[s.len() - 1]));
    if s.drop_last().contains(k) {
        let i = choose|i: int| 0 <= i < s.drop_last().len() && s.drop_last()[i] == k;
        assert(s[i] == k);
    }
}

proof fn lemma_verdicts(
    queues: QueuesModel,
    keys: Seq<XorName>,
    outcomes: Seq<Option<KeyVerificationOutcome>>,
)
    requires
        keys.no_duplicates(),
    ensures
        evaluated_keys(verdicts(queues, keys, outcomes)).no_duplicates(),
        forall|k: XorName| #[trigger]
            evaluated_keys(verdicts(queues, keys, outcomes)).contains(k) ==> keys.contains(k)
                && queues.pending.contains_key(k),
    decreases keys.len(),
{
    let all = evaluated_keys(verdicts(queues, keys, outcomes));
    if keys.len() > 0 {
        let init = keys.drop_last();
        let n = keys.len() - 1;
        lemma_verdicts(queues, init, outcomes);
        let models = verdicts(queues, init, outcomes);
        let before = evaluated_keys(models);
        assert forall|k: XorName| #[trigger] before.contains(k) implies keys.contains(k) && k
            != keys.last() by {
            assert(init.contains(k));
            let i = choose|i: int| 0 <= i < init.len() && init[i] == k;
            assert(keys[i] == k);
            assert(keys[i] != keys[n]);
        }
        assert(keys.contains(keys[n]));
        if outcomes[n] is Some && queues.pending.contains_key(keys.last()) {
            let e = verdict(queues, keys.last(), outcomes[n]->0);
            assert(all =~= before.push(keys.last()));
            assert forall|a: int, b: int| 0 <= a < b < all.len() implies all[a] != all[b] by {
                if b == before.len() {
                    assert(before.contains(before[a]));
                }
            }
            assert forall|k: XorName| #[trigger] all.contains(k) implies keys.contains(k)
                && queues.pending.contains_key(k) by {
                lemma_push_contains(before, keys.last(), k);
            }
        } else {
            assert(all =~= before);
        }
    } else {
        assert(all =~= Seq::empty());
    }
}

/// Everything the outside world answers during one cycle, by position in the
/// list that each stage asks about.
pub struct CycleAnswers {
    /// Local paid list, for the pending keys.
    pub paid: Seq<Option<bool>>,
    /// Local store, for the authorized paid-only keys.
    pub paid_only_stored: Seq<Option<bool>>,
    /// Responsibility, for the authorized paid-only keys.
    pub paid_only_responsible: Seq<bool>,
    /// Local store, for the keys that need a holder.
    pub probe_stored: Seq<Option<bool>>,
    /// Holders of the keys that need one.
    pub probe_sources: Seq<Vec<PeerId>>,
    /// Verdicts of the network.
    pub outcomes: Seq<Option<KeyVerificationOutcome>>,
    /// Local store, for the keys with a verdict.
    pub evaluated_stored: Seq<Option<bool>>,
    /// Responsibility, for the keys with a verdict.
    pub evaluated_responsible: Seq<bool>,
}

/// One cycle, stage by stage.
pub struct CycleTrace {
    pub probe0: Seq<XorName>,
    pub paid_only: Seq<XorName>,
    pub network: Seq<XorName>,
    pub marked: QueuesModel,
    pub settled: QueuesModel,
    pub probe: Seq<XorName>,
    pub probed: QueuesModel,
    pub evaluated: Seq<EvaluatedModel>,
    pub result: QueuesModel,
    pub terminal: Seq<XorName>,
}

/// The course of a cycle over `keys`.
pub open spec fn cycle_trace(
    queues: QueuesModel,
    self_id: PeerId,
    keys: Seq<XorName>,
    a: CycleAnswers,
) -> CycleTrace {
    let marked_queues = marked(queues, keys, a.paid);
    let probe0 = picked(keys, local_flags(queues, keys, a.paid, HintPipeline::Replica));
    let paid_only = picked(keys, local_flags(queues, keys, a.paid, HintPipeline::PaidOnly));
    let network = picked(keys, network_flags(keys, a.paid));
    let ds1 = paid_only_dispositions(a.paid_only_stored, a.paid_only_responsible);
    let settled = disposed(marked_queues, self_id, paid_only, ds1);
    let probe = probe0 + picked(paid_only, keep_flags(ds1));
    let ds2 = presence_dispositions(a.probe_stored, a.probe_sources);
    let probed = disposed(settled, self_id, probe, ds2);
    let evaluated = verdicts(probed, network, a.outcomes);
    let ds3 = outcome_dispositions(
        evaluated,
        repair_keys(evaluated, a.evaluated_stored, a.evaluated_responsible),
    );
    CycleTrace {
        probe0,
        paid_only,
        network,
        marked: marked_queues,
        settled,
        probe,
        probed,
        evaluated,
        result: disposed(probed, self_id, evaluated_keys(evaluated), ds3),
        terminal: picked(paid_only, drop_flags(ds1)) + picked(probe, drop_flags(ds2)) + picked(
            evaluated_keys(evaluated),
            drop_flags(ds3),
        ),
    }
}

/// Every question of the cycle was answered for every key it concerns.
pub open spec fn answers_fit(t: CycleTrace, keys: Seq<XorName>, a: CycleAnswers) -> bool {
    &&& a.paid.len() == keys.len()
    &&& a.paid_only_stored.len() == t.paid_only.len()
    &&& a.paid_only_responsible.len() == t.paid_only.len()
    &&& a.probe_stored.len() == t.probe.len()
    &&& a.probe_sources.len() == t.probe.len()
    &&& a.outcomes.len() == t.network.len()
    &&& a.evaluated_stored.len() == t.evaluated.len()
    &&& a.evaluated_responsible.len() == t.evaluated.len()
}

/// Membership in a concatenation.
proof fn lemma_concat_contains<T>(a: Seq<T>, b: Seq<T>, k: T)
    ensures
        (a + b).contains(k) <==> a.contains(k) || b.contains(k),
{
    if a.contains(k) {
        let i = choose|i: int| 0 <= i < a.len() && a[i] == k;
        assert((a + b)[i] == k);
    }
    if b.contains(k) {
        let i = choose|i: int| 0 <= i < b.len() && b[i] == k;
        assert((a + b)[a.len() + i] == k);
    }
    if (a + b).contains(k) {
        let i = choose|i: int| 0 <= i < (a + b).len() && (a + b)[i] == k;
        if i < a.len() {
            assert(a[i] == k);
        } else {
            assert(b[i - a.len()] == k);
        }
    }
}

/// The list of keys that need a holder has no duplicates, and all of them are
/// pending when they are probed.
proof fn lemma_probe_list(
    queues: QueuesModel,
    self_id: PeerId,
    keys: Seq<XorName>,
    a: CycleAnswers,
)
    requires
        queues.valid(),
        keys.no_duplicates(),
        forall|i: int| 0 <= i < keys.len() ==> queues.pending.contains_key(#[trigger] keys[i]),
        answers_fit(cycle_trace(queues, self_id, keys, a), keys, a),
    ensures
        ({
            let t = cycle_trace(queues, self_id, keys, a);
            &&& t.marked.valid()
            &&& t.settled.valid()
            &&& t.probe0.no_duplicates()
            &&& t.paid_only.no_duplicates()
            &&& t.network.no_duplicates()
            &&& t.probe.no_duplicates()
            &&& forall|k: XorName| #[trigger]
                t.paid_only.contains(k) ==> keys.contains(k) && t.marked.pending.contains_key(k)
                    && !t.network.contains(k)
            &&& forall|k: XorName| #[trigger]
                t.probe.contains(k) ==> keys.contains(k) && t.settled.pending.contains_key(k)
                    && !t.network.contains(k)
            &&& forall|k: XorName| #[trigger]
                t.network.contains(k) ==> keys.contains(k) && t.settled.pending.contains_key(k)
            &&& forall|k: XorName| #[trigger] keys.contains(k) ==> t.network.contains(k)
                || t.probe.contains(k) || (t.paid_only.contains(k) && !t.settled.holds(k))
            &&& forall|k: XorName| #[trigger]
                t.paid_only.contains(k) ==> (t.probe.contains(k) <==> t.settled.holds(k))
            &&& forall|k: XorName|
                !keys.contains(k) ==> (#[trigger] t.settled.holds(k) <==> queues.holds(k))
        }),
{
    let t = cycle_trace(queues, self_id, keys, a);
    let rf = local_flags(queues, keys, a.paid, HintPipeline::Replica);
    let pf = local_flags(queues, keys, a.paid, HintPipeline::PaidOnly);
    let nf = network_flags(keys, a.paid);
    let ds1 = paid_only_dispositions(a.paid_only_stored, a.paid_only_responsible);
    lemma_marked(queues, keys, a.paid);
    lemma_picked_distinct(keys, rf);
    lemma_picked_distinct(keys, pf);
    lemma_picked_distinct(keys, nf);
    // Which list a key is on follows from its position.
    assert forall|i: int| 0 <= i < keys.len() implies {
        &&& (t.probe0.contains(#[trigger] keys[i]) <==> rf[i])
        &&& (t.paid_only.contains(keys[i]) <==> pf[i])
        &&& (t.network.contains(keys[i]) <==> nf[i])
    } by {
        lemma_picked_at(keys, rf, i);
        lemma_picked_at(keys, pf, i);
        lemma_picked_at(keys, nf, i);
    }
    assert forall|k: XorName|
        (t.probe0.contains(k) || t.paid_only.contains(k) || t.network.contains(k)) implies (
    #[trigger] keys.contains(k)) by {
        lemma_picked_contains(keys, rf, k);
        lemma_picked_contains(keys, pf, k);
        lemma_picked_contains(keys, nf, k);
    }
    assert forall|k: XorName| #[trigger] keys.contains(k) implies {
        &&& t.marked.pending.contains_key(k)
        &&& (t.probe0.contains(k) ==> !t.paid_only.contains(k) && !t.network.contains(k))
        &&& (t.paid_only.contains(k) ==> !t.network.contains(k))
        &&& (t.probe0.contains(k) || t.paid_only.contains(k) || t.network.contains(k))
    } by {
        let i = choose|i: int| 0 <= i < keys.len() && keys[i] == k;
        assert(queues.pending.contains_key(keys[i]));
        assert(queues.pending.dom().contains(k));
        assert(t.marked.pending.dom().contains(k));
        assert(t.probe0.contains(keys[i]) <==> rf[i]);
    }
    assert forall|k: XorName| #[trigger] t.paid_only.contains(k) implies keys.contains(k)
        && t.marked.pending.contains_key(k) && !t.network.contains(k) by {
        assert(keys.contains(k));
    }
    assert forall|i: int| 0 <= i < t.paid_only.len() implies t.marked.pending.contains_key(
        #[trigger] t.paid_only[i],
    ) by {
        assert(t.paid_only.contains(t.paid_only[i]));
    }
    lemma_disposed(t.marked, self_id, t.paid_only, ds1);
    let kept = picked(t.paid_only, keep_flags(ds1));
    lemma_picked_distinct(t.paid_only, keep_flags(ds1));
    assert forall|k: XorName| #[trigger] kept.contains(k) implies t.paid_only.contains(k)
        && t.settled.pending.contains_key(k) by {
        lemma_picked_contains(t.paid_only, keep_flags(ds1), k);
        let i = choose|i: int|
            0 <= i < t.paid_only.len() && #[trigger] t.paid_only[i] == k && keep_flags(ds1)[i];
        assert(ds1[i] is Keep);
    }
    assert forall|k: XorName| #[trigger] t.probe.contains(k) <==> t.probe0.contains(k)
        || kept.contains(k) by {
        lemma_concat_contains(t.probe0, kept, k);
    }
    assert forall|k: XorName| #[trigger] t.probe.contains(k) implies keys.contains(k)
        && t.settled.pending.contains_key(k) && !t.network.contains(k) by {
        if t.probe0.contains(k) {
            assert(keys.contains(k));
            assert(!t.paid_only.contains(k));
            assert(t.marked.pending.contains_key(k));
        } else {
            assert(kept.contains(k));
            assert(t.paid_only.contains(k));
        }
    }
    assert forall|k: XorName| #[trigger] t.network.contains(k) implies keys.contains(k)
        && t.settled.pending.contains_key(k) by {
        assert(keys.contains(k));
        assert(!t.paid_only.contains(k));
        assert(t.marked.pending.contains_key(k));
    }
    assert forall|x: int, y: int| 0 <= x < y < t.probe.len() implies t.probe[x] != t.probe[y] by {
        let m = t.probe0.len();
        if y >= m && x < m {
            assert(t.probe0.contains(t.probe0[x]));
            assert(kept.contains(kept[y - m]));
            assert(t.paid_only.contains(kept[y - m]));
            assert(keys.contains(t.probe0[x]));
        } else if x >= m {
            assert(kept[x - m] != kept[y - m]);
        }
    }
    assert forall|k: XorName| #[trigger] t.paid_only.contains(k) implies (t.probe.contains(k)
        <==> t.settled.holds(k)) by {
        let i = choose|i: int| 0 <= i < t.paid_only.len() && t.paid_only[i] == k;
        lemma_picked_at(t.paid_only, keep_flags(ds1), i);
        assert(ds1[i] is Drop <==> !t.settled.holds(t.paid_only[i]));
        assert(ds1[i] == paid_only_disposition(a.paid_only_stored[i], a.paid_only_responsible[i]));
        assert(keep_flags(ds1)[i] == (ds1[i] is Keep));
        assert(keys.contains(k));
    }
    assert forall|k: XorName| #[trigger] keys.contains(k) implies t.network.contains(k)
        || t.probe.contains(k) || (t.paid_only.contains(k) && !t.settled.holds(k)) by {
        if t.paid_only.contains(k) {
            assert(t.probe.contains(k) <==> t.settled.holds(k));
        }
    }
    assert forall|k: XorName| !keys.contains(k) implies (#[trigger] t.settled.holds(k)
        <==> queues.holds(k)) by {
        assert(!t.paid_only.contains(k)) by {
            lemma_picked_contains(keys, pf, k);
        }
        assert(t.marked.holds(k) <==> queues.holds(k)) by {
            assert(t.marked.pending.dom().contains(k) <==> queues.pending.dom().contains(k));
            assert(t.marked.queued == queues.queued);
            assert(t.marked.is_queued(k) == queues.is_queued(k));
        }
    }
}

/// A cycle that no other task interrupts accounts for every pending key: a key
/// is terminal exactly when it is no longer in the pipeline, so nothing is
/// dropped without being reported and nothing reported is left behind. Keys that
/// were not pending are not touched. What holds of each stage when other tasks
/// come in between is [`lemma_stage_accounts_for_its_keys`].
pub proof fn lemma_cycle_accounts_for_every_key(
    queues: QueuesModel,
    self_id: PeerId,
    keys: Seq<XorName>,
    a: CycleAnswers,
)
    requires
        queues.valid(),
        keys.no_duplicates(),
        forall|i: int| 0 <= i < keys.len() ==> queues.pending.contains_key(#[trigger] keys[i]),
        answers_fit(cycle_trace(queues, self_id, keys, a), keys, a),
    ensures
        ({
            let t = cycle_trace(queues, self_id, keys, a);
            &&& t.result.valid()
            &&& forall|k: XorName| #[trigger]
                keys.contains(k) ==> (t.terminal.contains(k) <==> !t.result.holds(k))
            &&& forall|k: XorName| #[trigger] t.terminal.contains(k) ==> keys.contains(k)
            &&& forall|k: XorName|
                !keys.contains(k) ==> (#[trigger] t.result.holds(k) <==> queues.holds(k))
        }),
{
    let t = cycle_trace(queues, self_id, keys, a);
    lemma_probe_list(queues, self_id, keys, a);
    let ds1 = paid_only_dispositions(a.paid_only_stored, a.paid_only_responsible);
    let ds2 = presence_dispositions(a.probe_stored, a.probe_sources);
    let ds3 = outcome_dispositions(
        t.evaluated,
        repair_keys(t.evaluated, a.evaluated_stored, a.evaluated_responsible),
    );
    let ek = evaluated_keys(t.evaluated);
    let t1 = picked(t.paid_only, drop_flags(ds1));
    let t2 = picked(t.probe, drop_flags(ds2));
    let t3 = picked(ek, drop_flags(ds3));
    assert forall|i: int| 0 <= i < t.probe.len() implies t.settled.pending.contains_key(
        #[trigger] t.probe[i],
    ) by {
        assert(t.probe.contains(t.probe[i]));
    }
    lemma_disposed(t.settled, self_id, t.probe, ds2);
    lemma_verdicts(t.probed, t.network, a.outcomes);
    assert forall|i: int| 0 <= i < ek.len() implies t.probed.pending.contains_key(
        #[trigger] ek[i],
    ) by {
        assert(ek.contains(ek[i]));
    }
    lemma_disposed(t.probed, self_id, ek, ds3);
    assert forall|k: XorName| #[trigger] t.terminal.contains(k) <==> t1.contains(k) || t2.contains(
        k,
    ) || t3.contains(k) by {
        lemma_concat_contains(t1, t2, k);
        lemma_concat_contains(t1 + t2, t3, k);
    }
    assert forall|i: int| 0 <= i < t.paid_only.len() implies t.marked.pending.contains_key(
        #[trigger] t.paid_only[i],
    ) by {
        assert(t.paid_only.contains(t.paid_only[i]));
    }
    lemma_drops(t.marked, self_id, t.paid_only, ds1);
    lemma_drops(t.settled, self_id, t.probe, ds2);
    lemma_drops(t.probed, self_id, ek, ds3);
    assert forall|k: XorName| #[trigger] keys.contains(k) implies (t.terminal.contains(k)
        <==> !t.result.holds(k)) by {
        if t.network.contains(k) {
            assert(!t.probe.contains(k));
            assert(!t.paid_only.contains(k));
            assert(!t1.contains(k) && !t2.contains(k));
            assert(t.settled.pending.contains_key(k));
            assert(t.probed.pending.contains_key(k));
            assert(t.probed.holds(k));
        } else if t.probe.contains(k) {
            assert(!ek.contains(k));
            assert(!t3.contains(k));
            assert(t.settled.holds(k));
            assert(t1.contains(k) ==> !t.settled.holds(k));
            assert(t.probed.holds(k) <==> t.result.holds(k));
        } else {
            assert(t.paid_only.contains(k) && !t.settled.holds(k));
            assert(t1.contains(k));
            assert(!ek.contains(k));
            assert(t.probed.holds(k) <==> t.settled.holds(k));
            assert(t.result.holds(k) <==> t.probed.holds(k));
        }
    }
    assert forall|k: XorName| #[trigger] t.terminal.contains(k) implies keys.contains(k) by {
        if t1.contains(k) {
            assert(t.paid_only.contains(k));
        } else if t2.contains(k) {
            assert(t.probe.contains(k));
        } else {
            assert(ek.contains(k));
            assert(t.network.contains(k));
        }
    }
    assert forall|k: XorName| !keys.contains(k) implies (#[trigger] t.result.holds(k)
        <==> queues.holds(k)) by {
        assert(!t.probe.contains(k));
        assert(!t.network.contains(k));
        assert(!ek.contains(k));
        assert(t.settled.holds(k) <==> queues.holds(k));
        assert(t.probed.holds(k) <==> t.settled.holds(k));
    }
}

/// The dropped keys of a stage are those of its keys that left the pipeline.
proof fn lemma_drops(
    queues: QueuesModel,
    self_id: PeerId,
    keys: Seq<XorName>,
    ds: Seq<Disposition>,
)
    requires
        queues.valid(),
        keys.no_duplicates(),
        ds.len() == keys.len(),
        forall|i: int| 0 <= i < keys.len() ==> queues.pending.contains_key(#[trigger] keys[i]),
    ensures
        forall|k: XorName| #[trigger]
            picked(keys, drop_flags(ds)).contains(k) <==> keys.contains(k) && !disposed(
                queues,
                self_id,
                keys,
                ds,
            ).holds(k),
{
    lemma_disposed(queues, self_id, keys, ds);
    let after = disposed(queues, self_id, keys, ds);
    let gone = picked(keys, drop_flags(ds));
    assert forall|k: XorName| #[trigger] gone.contains(k) <==> keys.contains(k) && !after.holds(
        k,
    ) by {
        lemma_picked_contains(keys, drop_flags(ds), k);
        if gone.contains(k) {
            let i = choose|i: int|
                0 <= i < keys.len() && #[trigger] keys[i] == k && drop_flags(ds)[i];
            assert(ds[i] is Drop);
        }
        if keys.contains(k) && !after.holds(k) {
            let i = choose|i: int| 0 <= i < keys.len() && keys[i] == k;
            assert(ds[i] is Drop <==> !after.holds(keys[i]));
            assert(drop_flags(ds)[i]);
        }
    }
}

/// A verified key that this node should hold and that somebody holds is never
/// dropped: it moves to the fetch queue, or stays pending while that is full.
pub proof fn lemma_verified_key_is_not_dropped(
    queues: QueuesModel,
    self_id: PeerId,
    evaluated: Seq<EvaluatedModel>,
    repair: Set<XorName>,
    i: int,
)
    requires
        queues.valid(),
        evaluated_keys(evaluated).no_duplicates(),
        forall|j: int|
            0 <= j < evaluated.len() ==> queues.pending.contains_key(#[trigger] evaluated[j].key),
        0 <= i < evaluated.len(),
        evaluated[i].verified,
        evaluated[i].pipeline is Replica || repair.contains(evaluated[i].key),
        evaluated[i].sources.len() > 0,
    ensures
        disposed(
            queues,
            self_id,
            evaluated_keys(evaluated),
            outcome_dispositions(evaluated, repair),
        ).holds(evaluated[i].key),
        !picked(
            evaluated_keys(evaluated),
            drop_flags(outcome_dispositions(evaluated, repair)),
        ).contains(evaluated[i].key),
{
    let ks = evaluated_keys(evaluated);
    let ds = outcome_dispositions(evaluated, repair);
    assert forall|j: int| 0 <= j < ks.len() implies queues.pending.contains_key(
        #[trigger] ks[j],
    ) by {
        assert(queues.pending.contains_key(evaluated[j].key));
    }
    lemma_disposed(queues, self_id, ks, ds);
    lemma_drops(queues, self_id, ks, ds);
    assert(ks[i] == evaluated[i].key);
    assert(ds[i] is Promote);
    assert(ds[i] is Drop <==> !disposed(queues, self_id, ks, ds).holds(ks[i]));
}

/// `key` is in no stage of the pipeline.
pub open spec fn is_out(queues: QueuesModel, key: XorName) -> bool {
    &&& !queues.pending.contains_key(key)
    &&& !queues.in_flight.contains_key(key)
    &&& forall|i: int| 0 <= i < queues.queued.len() ==> #[trigger] queues.queued[i].key != key
}

/// `key` was pending in `before` and waits in `after` for a fetch from
/// `sources`: in the fetch queue, by its distance from this node, or pending
/// as before while the queue is full.
pub open spec fn awaits_fetch(
    before: QueuesModel,
    after: QueuesModel,
    self_id: PeerId,
    key: XorName,
    sources: Seq<PeerId>,
) -> bool {
    ||| after.pending.contains_key(key) && after.pending[key] == before.pending[key]
        && after.queued.len() >= after.fetch_limit
    ||| !after.pending.contains_key(key) && exists|i: int|
        {
            &&& 0 <= i < after.queued.len()
            &&& #[trigger] after.queued[i].key == key
            &&& after.queued[i].sources == sources
            &&& after.queued[i].distance == distance_between(key, self_id.0)
        }
}

/// What a stage does to one pending key of its list.
proof fn lemma_fate(
    queues: QueuesModel,
    self_id: PeerId,
    keys: Seq<XorName>,
    ds: Seq<Disposition>,
    i: int,
)
    requires
        queues.valid(),
        keys.no_duplicates(),
        ds.len() == keys.len(),
        0 <= i < keys.len(),
        queues.pending.contains_key(keys[i]),
    ensures
        ({
            let after = disposed(queues, self_id, keys, ds);
            let gone = picked(keys, drop_flags(ds));
            &&& gone.contains(keys[i]) <==> ds[i] is Drop
            &&& ds[i] is Drop ==> is_out(after, keys[i])
            &&& ds[i] is Keep ==> after.pending.contains_key(keys[i]) && after.pending[keys[i]]
                == queues.pending[keys[i]]
            &&& ds[i] matches Disposition::Promote(sources) ==> awaits_fetch(
                queues,
                after,
                self_id,
                keys[i],
                sources,
            )
        }),
{
    lemma_disposed_any(queues, self_id, keys, ds);
    lemma_picked_at(keys, drop_flags(ds), i);
    lemma_fate_upto(queues, self_id, keys, ds, i, keys.len() as int);
    assert(keys.take(keys.len() as int) =~= keys);
    let after = disposed(queues, self_id, keys, ds);
    if ds[i] is Drop {
        assert(queues.pending.contains_key(keys[i]));
        assert(!after.holds(keys[i]));
        assert forall|j: int| 0 <= j < after.queued.len() implies #[trigger] after.queued[j].key
            != keys[i] by {
            if after.queued[j].key == keys[i] {
                assert(after.is_queued(keys[i]));
            }
        }
    }
}

proof fn lemma_fate_upto(
    queues: QueuesModel,
    self_id: PeerId,
    keys: Seq<XorName>,
    ds: Seq<Disposition>,
    i: int,
    n: int,
)
    requires
        queues.valid(),
        keys.no_duplicates(),
        ds.len() == keys.len(),
        0 <= i < keys.len(),
        queues.pending.contains_key(keys[i]),
        0 <= n <= keys.len(),
    ensures
        ({
            let after = disposed(queues, self_id, keys.take(n), ds);
            &&& after.fetch_limit == queues.fetch_limit
            &&& n <= i || ds[i] is Keep ==> after.pending.contains_key(keys[i])
                && after.pending[keys[i]] == queues.pending[keys[i]]
            &&& n > i ==> (ds[i] matches Disposition::Promote(sources) ==> awaits_fetch(
                queues,
                after,
                self_id,
                keys[i],
                sources,
            ))
        }),
    decreases n,
{
    if n > 0 {
        let m = n - 1;
        lemma_fate_upto(queues, self_id, keys, ds, i, m);
        lemma_disposed_step(queues, self_id, keys, ds, m);
        let before = disposed(queues, self_id, keys.take(m), ds);
        let after = disposed(queues, self_id, keys.take(n), ds);
        if m == i {
            if let Disposition::Promote(sources) = ds[i] {
                if before.can_promote(keys[i]) {
                    assert(after.queued[before.queued.len() as int].key == keys[i]);
                }
            }
        } else {
            assert(keys[m] != keys[i]);
            if m > i {
                if let Disposition::Promote(sources) = ds[i] {
                    if !before.pending.contains_key(keys[i]) {
                        let j = choose|j: int|
                            {
                                &&& 0 <= j < before.queued.len()
                                &&& #[trigger] before.queued[j].key == keys[i]
                                &&& before.queued[j].sources == sources
                                &&& before.queued[j].distance == distance_between(
                                    keys[i],
                                    self_id.0,
                                )
                            };
                        assert(after.queued[j].key == keys[i]);
                    }
                }
            }
        }
    }
}

/// Where the verdict on the key at `i` stands among the verdicts.
proof fn lemma_verdict_place(
    queues: QueuesModel,
    keys: Seq<XorName>,
    outcomes: Seq<Option<KeyVerificationOutcome>>,
    i: int,
) -> (place: int)
    requires
        0 <= i < keys.len(),
        outcomes.len() >= keys.len(),
        queues.pending.contains_key(keys[i]),
        outcomes[i] is Some,
    ensures
        0 <= place < verdicts(queues, keys, outcomes).len(),
        ({
            let e = verdicts(queues, keys, outcomes)[place];
            &&& e.key == keys[i]
            &&& e.pipeline == queues.pending[keys[i]].pipeline
            &&& e.verified <==> outcomes[i]->0 is QuorumVerified
                || outcomes[i]->0 is PaidListVerified
            &&& outcomes[i] matches Some(KeyVerificationOutcome::QuorumVerified { sources })
                ==> e.sources == sources@
            &&& outcomes[i] matches Some(KeyVerificationOutcome::PaidListVerified { sources })
                ==> e.sources == sources@
        }),
    decreases keys.len(),
{
    let init = keys.drop_last();
    let n = keys.len() - 1;
    if i < n {
        assert(init[i] == keys[i]);
        lemma_verdict_place(queues, init, outcomes, i)
    } else {
        verdicts(queues, init, outcomes).len() as int
    }
}

/// Every verdict is on a pending key that was judged.
proof fn lemma_verdict_origin(
    queues: QueuesModel,
    keys: Seq<XorName>,
    outcomes: Seq<Option<KeyVerificationOutcome>>,
    place: int,
) -> (i: int)
    requires
        outcomes.len() >= keys.len(),
        0 <= place < verdicts(queues, keys, outcomes).len(),
    ensures
        0 <= i < keys.len(),
        outcomes[i] is Some,
        queues.pending.contains_key(keys[i]),
        verdicts(queues, keys, outcomes)[place] == verdict(queues, keys[i], outcomes[i]->0),
    decreases keys.len(),
{
    let init = keys.drop_last();
    let n = keys.len() - 1;
    if place < verdicts(queues, init, outcomes).len() {
        let i = lemma_verdict_origin(queues, init, outcomes, place);
        assert(init[i] == keys[i]);
        i
    } else {
        n
    }
}

/// The network's word is taken as it is. Exactly the pending keys with an
/// outcome get a verdict, under the pipeline they are pending with; it is
/// positive when a quorum or the paid lists confirmed the key, with the holders
/// that came with it, and negative, with no holders, when the quorum failed or
/// was inconclusive. No key gets two verdicts.
pub proof fn lemma_verdicts_follow_the_outcomes(
    queues: QueuesModel,
    keys: Seq<XorName>,
    outcomes: Seq<Option<KeyVerificationOutcome>>,
)
    requires
        outcomes.len() == keys.len(),
    ensures
        forall|i: int|
            0 <= i < keys.len() && queues.pending.contains_key(#[trigger] keys[i])
                && outcomes[i] is Some ==> evaluated_keys(
                verdicts(queues, keys, outcomes),
            ).contains(keys[i]),
        forall|p: int|
            0 <= p < verdicts(queues, keys, outcomes).len() ==> exists|i: int|
                {
                    let e = #[trigger] verdicts(queues, keys, outcomes)[p];
                    &&& 0 <= i < keys.len()
                    &&& #[trigger] keys[i] == e.key
                    &&& queues.pending.contains_key(keys[i])
                    &&& e.pipeline == queues.pending[keys[i]].pipeline
                    &&& match outcomes[i] {
                        None => false,
                        Some(KeyVerificationOutcome::QuorumVerified { sources }) => e.verified
                            && e.sources == sources@,
                        Some(KeyVerificationOutcome::PaidListVerified { sources }) => e.verified
                            && e.sources == sources@,
                        Some(KeyVerificationOutcome::QuorumFailed) => !e.verified
                            && e.sources.len() == 0,
                        Some(KeyVerificationOutcome::QuorumInconclusive) => !e.verified
                            && e.sources.len() == 0,
                    }
                },
        keys.no_duplicates() ==> evaluated_keys(
            verdicts(queues, keys, outcomes),
        ).no_duplicates(),
{
    if keys.no_duplicates() {
        lemma_verdicts(queues, keys, outcomes);
    }
    let all = verdicts(queues, keys, outcomes);
    assert forall|i: int|
        0 <= i < keys.len() && queues.pending.contains_key(#[trigger] keys[i])
            && outcomes[i] is Some implies evaluated_keys(all).contains(keys[i]) by {
        let p = lemma_verdict_place(queues, keys, outcomes, i);
        assert(evaluated_keys(all)[p] == keys[i]);
    }
    assert forall|p: int| 0 <= p < all.len() implies exists|i: int|
        {
            let e = #[trigger] all[p];
            &&& 0 <= i < keys.len()
            &&& #[trigger] keys[i] == e.key
            &&& queues.pending.contains_key(keys[i])
            &&& e.pipeline == queues.pending[keys[i]].pipeline
            &&& match outcomes[i] {
                None => false,
                Some(KeyVerificationOutcome::QuorumVerified { sources }) => e.verified && e.sources
                    == sources@,
                Some(KeyVerificationOutcome::PaidListVerified { sources }) => e.verified
                    && e.sources == sources@,
                Some(KeyVerificationOutcome::QuorumFailed) => !e.verified && e.sources.len() == 0,
                Some(KeyVerificationOutcome::QuorumInconclusive) => !e.verified && e.sources.len()
                    == 0,
            }
        } by {
        let i = lemma_verdict_origin(queues, keys, outcomes, p);
        assert(keys[i] == all[p].key);
    }
}

/// A key goes on the local paid list exactly when it is pending and a quorum or
/// the paid lists of others confirmed it. A key whose quorum failed or was
/// inconclusive, or that has no outcome, does not.
pub proof fn lemma_only_confirmed_keys_are_paid(
    queues: QueuesModel,
    keys: Seq<XorName>,
    outcomes: Seq<Option<KeyVerificationOutcome>>,
    key: XorName,
)
    requires
        outcomes.len() == keys.len(),
    ensures
        ({
            let evaluated = verdicts(queues, keys, outcomes);
            picked(evaluated_keys(evaluated), verified_flags(evaluated)).contains(key)
                <==> queues.pending.contains_key(key) && exists|i: int|
                {
                    &&& 0 <= i < keys.len()
                    &&& #[trigger] keys[i] == key
                    &&& match outcomes[i] {
                        Some(KeyVerificationOutcome::QuorumVerified { .. }) => true,
                        Some(KeyVerificationOutcome::PaidListVerified { .. }) => true,
                        Some(KeyVerificationOutcome::QuorumFailed) => false,
                        Some(KeyVerificationOutcome::QuorumInconclusive) => false,
                        None => false,
                    }
                }
        }),
{
    let evaluated = verdicts(queues, keys, outcomes);
    let all = evaluated_keys(evaluated);
    let flags = verified_flags(evaluated);
    lemma_picked_contains(all, flags, key);
    if picked(all, flags).contains(key) {
        let p = choose|p: int| 0 <= p < all.len() && #[trigger] all[p] == key && flags[p];
        let i = lemma_verdict_origin(queues, keys, outcomes, p);
        assert(keys[i] == key);
    }
    if queues.pending.contains_key(key) && exists|i: int|
        0 <= i < keys.len() && #[trigger] keys[i] == key && outcomes[i] is Some && (
        outcomes[i]->0 is QuorumVerified || outcomes[i]->0 is PaidListVerified) {
        let i = choose|i: int|
            0 <= i < keys.len() && #[trigger] keys[i] == key && outcomes[i] is Some && (
            outcomes[i]->0 is QuorumVerified || outcomes[i]->0 is PaidListVerified);
        let p = lemma_verdict_place(queues, keys, outcomes, i);
        assert(all[p] == key && flags[p]);
    }
}

/// What becomes of a pending key that the network was asked about. Without an
/// outcome it stays as it is. When the quorum failed or was inconclusive it
/// leaves the pipeline and is not fetched. When it is confirmed it is fetched
/// from the holders that came with the outcome, if there are any and if the key
/// came as a replica hint or repairs a missing replica; otherwise it leaves the
/// pipeline. Keys that leave are reported, and no others.
pub proof fn lemma_fate_of_a_judged_key(
    queues: QueuesModel,
    self_id: PeerId,
    keys: Seq<XorName>,
    outcomes: Seq<Option<KeyVerificationOutcome>>,
    repair: Set<XorName>,
    i: int,
)
    requires
        queues.valid(),
        keys.no_duplicates(),
        outcomes.len() == keys.len(),
        0 <= i < keys.len(),
        queues.pending.contains_key(keys[i]),
    ensures
        ({
            let key = keys[i];
            let evaluated = verdicts(queues, keys, outcomes);
            let ds = outcome_dispositions(evaluated, repair);
            let after = disposed(queues, self_id, evaluated_keys(evaluated), ds);
            let reported = picked(evaluated_keys(evaluated), drop_flags(ds)).contains(key);
            let wanted = queues.pending[key].pipeline is Replica || repair.contains(key);
            match outcomes[i] {
                None => !reported && after.pending.contains_key(key) && after.pending[key]
                    == queues.pending[key],
                Some(KeyVerificationOutcome::QuorumFailed) => reported && is_out(after, key),
                Some(KeyVerificationOutcome::QuorumInconclusive) => reported && is_out(
                    after,
                    key,
                ),
                Some(KeyVerificationOutcome::QuorumVerified { sources }) => if wanted
                    && sources@.len() > 0 {
                    !reported && awaits_fetch(queues, after, self_id, key, sources@)
                } else {
                    reported && is_out(after, key)
                },
                Some(KeyVerificationOutcome::PaidListVerified { sources }) => if wanted
                    && sources@.len() > 0 {
                    !reported && awaits_fetch(queues, after, self_id, key, sources@)
                } else {
                    reported && is_out(after, key)
                },
            }
        }),
{
    let key = keys[i];
    let evaluated = verdicts(queues, keys, outcomes);
    let all = evaluated_keys(evaluated);
    let ds = outcome_dispositions(evaluated, repair);
    lemma_verdicts(queues, keys, outcomes);
    if outcomes[i] is Some {
        let p = lemma_verdict_place(queues, keys, outcomes, i);
        assert(all[p] == key);
        lemma_fate(queues, self_id, all, ds, p);
    } else {
        if all.contains(key) {
            let p = choose|p: int| 0 <= p < all.len() && all[p] == key;
            let j = lemma_verdict_origin(queues, keys, outcomes, p);
            assert(keys[j] == keys[i]);
        }
        lemma_disposed_any(queues, self_id, all, ds);
        lemma_picked_contains(all, drop_flags(ds), key);
        if picked(all, drop_flags(ds)).contains(key) {
            let p = choose|p: int|
                0 <= p < all.len() && #[trigger] all[p] == key && drop_flags(ds)[p];
            assert(all.contains(key));
        }
    }
}

/// A key repairs a missing replica exactly when it came as a paid-only hint, its
/// verdict is positive, the record is not known to be stored here and this node
/// is responsible for it.
pub proof fn lemma_repair_is_for_missing_replicas(
    evaluated: Seq<EvaluatedModel>,
    stored: Seq<Option<bool>>,
    responsible: Seq<bool>,
    i: int,
)
    requires
        evaluated_keys(evaluated).no_duplicates(),
        0 <= i < evaluated.len(),
    ensures
        repair_keys(evaluated, stored, responsible).contains(evaluated[i].key) <==> {
            &&& evaluated[i].pipeline is PaidOnly
            &&& evaluated[i].verified
            &&& stored[i] != Some(true)
            &&& responsible[i]
        },
{
    let all = evaluated_keys(evaluated);
    let key = evaluated[i].key;
    assert(all[i] == key);
    if repair_keys(evaluated, stored, responsible).contains(key) {
        let j = choose|j: int|
            0 <= j < evaluated.len() && #[trigger] evaluated[j].key == key && repairs(
                evaluated[j],
                stored[j],
                responsible[j],
            );
        assert(all[j] == all[i]);
    }
}

/// What becomes of a paid-only key that the local paid list authorizes: it
/// leaves the pipeline when the record is stored already or this node is not
/// responsible for it; otherwise it stays pending, and a holder is looked for.
pub proof fn lemma_fate_of_a_paid_only_key(
    queues: QueuesModel,
    self_id: PeerId,
    keys: Seq<XorName>,
    stored: Seq<Option<bool>>,
    responsible: Seq<bool>,
    i: int,
)
    requires
        queues.valid(),
        keys.no_duplicates(),
        stored.len() == keys.len(),
        responsible.len() == keys.len(),
        0 <= i < keys.len(),
        queues.pending.contains_key(keys[i]),
    ensures
        ({
            let key = keys[i];
            let ds = paid_only_dispositions(stored, responsible);
            let after = disposed(queues, self_id, keys, ds);
            let reported = picked(keys, drop_flags(ds)).contains(key);
            let probed = picked(keys, keep_flags(ds)).contains(key);
            if stored[i] == Some(true) || !responsible[i] {
                reported && !probed && is_out(after, key)
            } else {
                !reported && probed && after.pending.contains_key(key) && after.pending[key]
                    == queues.pending[key]
            }
        }),
{
    let ds = paid_only_dispositions(stored, responsible);
    lemma_fate(queues, self_id, keys, ds, i);
    lemma_picked_at(keys, keep_flags(ds), i);
}

/// What becomes of an authorized key once its holders are known: it leaves the
/// pipeline when the record is stored by now or nobody holds it; otherwise it is
/// fetched from the holders.
pub proof fn lemma_fate_of_a_probed_key(
    queues: QueuesModel,
    self_id: PeerId,
    keys: Seq<XorName>,
    stored: Seq<Option<bool>>,
    sources: Seq<Vec<PeerId>>,
    i: int,
)
    requires
        queues.valid(),
        keys.no_duplicates(),
        stored.len() == keys.len(),
        sources.len() == keys.len(),
        0 <= i < keys.len(),
        queues.pending.contains_key(keys[i]),
    ensures
        ({
            let key = keys[i];
            let ds = presence_dispositions(stored, sources);
            let after = disposed(queues, self_id, keys, ds);
            let reported = picked(keys, drop_flags(ds)).contains(key);
            if stored[i] == Some(true) || sources[i]@.len() == 0 {
                reported && is_out(after, key)
            } else {
                !reported && awaits_fetch(queues, after, self_id, key, sources[i]@)
            }
        }),
{
    lemma_fate(queues, self_id, keys, presence_dispositions(stored, sources), i);
}

/// How the local paid list sorts one pending key. A key on it is marked as
/// verified by it, keeps the rest of its entry, and goes to the holders' probe
/// or to the paid-only keys by its pipeline; a key that is not on it, or whose
/// lookup failed, is left as it is for the network. No key goes two ways, and
/// keys that are not asked about stay as they are.
pub proof fn lemma_paid_list_sorts_each_key_once(
    queues: QueuesModel,
    keys: Seq<XorName>,
    paid: Seq<Option<bool>>,
    i: int,
)
    requires
        keys.no_duplicates(),
        paid.len() == keys.len(),
        0 <= i < keys.len(),
        queues.pending.contains_key(keys[i]),
    ensures
        ({
            let key = keys[i];
            let before = queues.pending[key];
            let after = marked(queues, keys, paid).pending[key];
            let to_probe = picked(
                keys,
                local_flags(queues, keys, paid, HintPipeline::Replica),
            ).contains(key);
            let to_paid_only = picked(
                keys,
                local_flags(queues, keys, paid, HintPipeline::PaidOnly),
            ).contains(key);
            let to_network = picked(keys, network_flags(keys, paid)).contains(key);
            &&& marked(queues, keys, paid).pending.dom() == queues.pending.dom()
            &&& to_probe <==> paid[i] == Some(true) && before.pipeline is Replica
            &&& to_paid_only <==> paid[i] == Some(true) && before.pipeline is PaidOnly
            &&& to_network <==> paid[i] != Some(true)
            &&& paid[i] == Some(true) ==> after.state is PaidListVerified && after.pipeline
                == before.pipeline && after.created_at == before.created_at && after.hint_sender
                == before.hint_sender
            &&& paid[i] != Some(true) ==> after == before
            &&& marked(queues, keys, paid).queued == queues.queued
            &&& marked(queues, keys, paid).in_flight == queues.in_flight
            &&& forall|k: XorName| #[trigger]
                queues.pending.contains_key(k) && !keys.contains(k) ==> marked(
                    queues,
                    keys,
                    paid,
                ).pending[k] == queues.pending[k]
        }),
{
    lemma_marked(queues, keys, paid);
    lemma_picked_at(keys, local_flags(queues, keys, paid, HintPipeline::Replica), i);
    lemma_picked_at(keys, local_flags(queues, keys, paid, HintPipeline::PaidOnly), i);
    lemma_picked_at(keys, network_flags(keys, paid), i);
    lemma_marked_upto(queues, keys, paid, i, keys.len() as int);
    assert(keys.take(keys.len() as int) =~= keys);
    assert forall|k: XorName| #[trigger]
        queues.pending.contains_key(k) && !keys.contains(k) implies marked(
        queues,
        keys,
        paid,
    ).pending[k] == queues.pending[k] by {
        lemma_marked_elsewhere(queues, keys, paid, k);
    }
}

proof fn lemma_marked_elsewhere(
    queues: QueuesModel,
    keys: Seq<XorName>,
    paid: Seq<Option<bool>>,
    k: XorName,
)
    requires
        !keys.contains(k),
    ensures
        marked(queues, keys, paid).pending[k] == queues.pending[k],
    decreases keys.len(),
{
    if keys.len() > 0 {
        lemma_init_contains(keys, k);
        lemma_marked_elsewhere(queues, keys.drop_last(), paid, k);
    }
}

proof fn lemma_marked_upto(
    queues: QueuesModel,
    keys: Seq<XorName>,
    paid: Seq<Option<bool>>,
    i: int,
    n: int,
)
    requires
        keys.no_duplicates(),
        0 <= i < keys.len(),
        queues.pending.contains_key(keys[i]),
        0 <= n <= keys.len(),
    ensures
        ({
            let before = queues.pending[keys[i]];
            let after = marked(queues, keys.take(n), paid).pending[keys[i]];
            &&& marked(queues, keys.take(n), paid).pending.contains_key(keys[i])
            &&& after.pipeline == before.pipeline
            &&& after.created_at == before.created_at
            &&& after.hint_sender == before.hint_sender
            &&& after.state == if n > i && paid[i] == Some(true) {
                VerificationState::PaidListVerified
            } else {
                before.state
            }
        }),
    decreases n,
{
    if n > 0 {
        let m = n - 1;
        lemma_marked_upto(queues, keys, paid, i, m);
        assert(keys.take(n).drop_last() =~= keys.take(m));
        if m != i {
            assert(keys[m] != keys[i]);
        }
    }
}

/// The picked items are those whose flag is set, in order and each once.
pub proof fn lemma_picked_is_a_filter<T>(items: Seq<T>, flags: Seq<bool>)
    requires
        items.len() == flags.len(),
    ensures
        picked(items, flags) == items.zip_with(flags).filter(|p: (T, bool)| p.1).map_values(
            |p: (T, bool)| p.0,
        ),
{
    lemma_picked_prefix(items, flags, items.len() as int);
    assert(items.take(items.len() as int) =~= items);
    assert(items.zip_with(flags).take(items.len() as int) =~= items.zip_with(flags));
}

proof fn lemma_picked_prefix<T>(items: Seq<T>, flags: Seq<bool>, n: int)
    requires
        items.len() == flags.len(),
        0 <= n <= items.len(),
    ensures
        picked(items.take(n), flags) == items.zip_with(flags).take(n).filter(
            |p: (T, bool)| p.1,
        ).map_values(|p: (T, bool)| p.0),
    decreases n,
{
    reveal(Seq::filter);
    let pairs = items.zip_with(flags);
    let kept = |p: (T, bool)| p.1;
    let item = |p: (T, bool)| p.0;
    if n == 0 {
        assert(pairs.take(0).filter(kept).map_values(item) =~= Seq::empty());
    } else {
        let m = n - 1;
        lemma_picked_prefix(items, flags, m);
        lemma_picked_step(items, flags, m);
        assert(pairs.take(n).drop_last() =~= pairs.take(m));
        assert(pairs.take(n).last() == (items[m], flags[m]));
        assert(pairs.take(n).filter(kept).map_values(item) =~= if flags[m] {
            pairs.take(m).filter(kept).map_values(item).push(items[m])
        } else {
            pairs.take(m).filter(kept).map_values(item)
        });
    }
}

/// A stage touches nothing but its own keys: what is queued stays in its place,
/// with new candidates behind it, fetches in flight go on, and pending keys that
/// the stage does not concern keep their entries.
pub proof fn lemma_stage_leaves_others_alone(
    queues: QueuesModel,
    self_id: PeerId,
    keys: Seq<XorName>,
    ds: Seq<Disposition>,
    other: XorName,
)
    ensures
        ({
            let after = disposed(queues, self_id, keys, ds);
            &&& after.in_flight == queues.in_flight
            &&& after.queued.len() >= queues.queued.len()
            &&& forall|i: int|
                0 <= i < queues.queued.len() ==> after.queued[i] == #[trigger] queues.queued[i]
            &&& !keys.contains(other) ==> (after.pending.contains_key(other)
                <==> queues.pending.contains_key(other))
            &&& !keys.contains(other) ==> after.pending[other] == queues.pending[other]
            &&& after.pending_limit == queues.pending_limit
            &&& after.per_source_limit == queues.per_source_limit
            &&& after.fetch_limit == queues.fetch_limit
        }),
    decreases keys.len(),
{
    if keys.len() > 0 {
        lemma_stage_leaves_others_alone(queues, self_id, keys.drop_last(), ds, other);
        if !keys.contains(other) {
            lemma_init_contains(keys, other);
        }
    }
}

} // verus!
