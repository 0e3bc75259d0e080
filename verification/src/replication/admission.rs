//! Queueing hinted keys for verification.

use crate::bytemap::ByteSet;
use crate::ids::{PeerId, XorName};
use crate::replication::queues::{QueuesModel, ReplicationQueues};
use crate::replication::types::{
    AdmissionResult, HintPipeline, VerificationEntry, VerificationState,
};
use crate::seqs::lemma_push_contains;
use vstd::prelude::*;

verus! {

/// Outcome of queueing a batch of hints. While `capacity_rejected_count` is
/// not zero, the source still has to hint some keys again.
pub struct AdmissionOutcome {
    /// Keys that entered the pipeline.
    pub discovered: ByteSet,
    /// Hints that found no room.
    pub capacity_rejected_count: usize,
}

/// Pipeline and outcome while a batch of hints is queued.
#[verifier::ext_equal]
pub struct AdmissionModel {
    pub queues: QueuesModel,
    pub discovered: Set<XorName>,
    pub rejected: nat,
}

/// The entry of a key that `source` hinted at `now`.
pub open spec fn hint_entry(pipeline: HintPipeline, source: PeerId, now: u64) -> VerificationEntry {
    VerificationEntry {
        state: VerificationState::PendingVerify,
        pipeline,
        created_at: now,
        hint_sender: source,
    }
}

impl AdmissionModel {
    /// After one more key was offered.
    pub open spec fn offered(self, key: XorName, entry: VerificationEntry) -> AdmissionModel {
        AdmissionModel {
            queues: self.queues.offered(key, entry),
            discovered: if self.queues.admission(key, entry.hint_sender) is Admitted {
                self.discovered.insert(key)
            } else {
                self.discovered
            },
            rejected: if self.queues.admission(key, entry.hint_sender) is CapacityRejected {
                self.rejected + 1
            } else {
                self.rejected
            },
        }
    }

    /// After replica hints were offered. Records that are already stored are
    /// passed over; a failed lookup counts as not stored.
    pub open spec fn replicas(
        self,
        keys: Seq<XorName>,
        stored: Seq<Option<bool>>,
        source: PeerId,
        now: u64,
    ) -> AdmissionModel
        decreases keys.len(),
    {
        if keys.len() == 0 {
            self
        } else {
            let before = self.replicas(keys.drop_last(), stored.drop_last(), source, now);
            if stored.last() == Some(true) {
                before
            } else {
                before.offered(keys.last(), hint_entry(HintPipeline::Replica, source, now))
            }
        }
    }

    /// After paid hints were offered.
    pub open spec fn paid_only(
        self,
        keys: Seq<XorName>,
        source: PeerId,
        now: u64,
    ) -> AdmissionModel
        decreases keys.len(),
    {
        if keys.len() == 0 {
            self
        } else {
            self.paid_only(keys.drop_last(), source, now).offered(
                keys.last(),
                hint_entry(HintPipeline::PaidOnly, source, now),
            )
        }
    }
}

/// Pipeline and outcome after all admitted hints of `source` were offered.
pub open spec fn admission(
    queues: QueuesModel,
    replica_keys: Seq<XorName>,
    stored: Seq<Option<bool>>,
    paid_only_keys: Seq<XorName>,
    source: PeerId,
    now: u64,
) -> AdmissionModel {
    (AdmissionModel { queues, discovered: Set::empty(), rejected: 0 }).replicas(
        replica_keys,
        stored,
        source,
        now,
    ).paid_only(paid_only_keys, source, now)
}

/// Offer one key and account for the result.
fn offer(
    queues: &mut ReplicationQueues,
    outcome: &mut AdmissionOutcome,
    key: XorName,
    entry: VerificationEntry,
)
    requires
        old(queues).wf(),
        old(outcome).discovered.wf(),
        old(outcome).capacity_rejected_count < usize::MAX,
    ensures
        final(queues).wf(),
        final(outcome).discovered.wf(),
        (AdmissionModel {
            queues: final(queues)@,
            discovered: final(outcome).discovered@,
            rejected: final(outcome).capacity_rejected_count as nat,
        }) == (AdmissionModel {
            queues: old(queues)@,
            discovered: old(outcome).discovered@,
            rejected: old(outcome).capacity_rejected_count as nat,
        }).offered(key, entry),
        final(outcome).capacity_rejected_count <= old(outcome).capacity_rejected_count + 1,
{
    match queues.add_pending_verify(key, entry) {
        AdmissionResult::Admitted => {
            outcome.discovered.insert(key);
        },
        AdmissionResult::AlreadyPresent => {},
        AdmissionResult::CapacityRejected => {
            outcome.capacity_rejected_count = outcome.capacity_rejected_count + 1;
        },
    }
}

/// Queue the admitted hints of `source` for verification. `stored` tells for
/// each replica key whether the record is held already, `None` when the lookup
/// failed.
pub fn admit_and_queue_hints(
    queues: &mut ReplicationQueues,
    replica_keys: &Vec<XorName>,
    stored: &Vec<Option<bool>>,
    paid_only_keys: &Vec<XorName>,
    source: &PeerId,
    now: u64,
) -> (outcome: AdmissionOutcome)
    requires
        old(queues).wf(),
        stored@.len() == replica_keys@.len(),
        replica_keys@.len() + paid_only_keys@.len() <= usize::MAX,
    ensures
        final(queues).wf(),
        outcome.discovered.wf(),
        (AdmissionModel {
            queues: final(queues)@,
            discovered: outcome.discovered@,
            rejected: outcome.capacity_rejected_count as nat,
        }) == admission(
            old(queues)@,
            replica_keys@,
            stored@,
            paid_only_keys@,
            *source,
            now,
        ),
{
    let mut outcome = AdmissionOutcome {
        discovered: ByteSet::new(),
        capacity_rejected_count: 0,
    };
    let ghost start = AdmissionModel { queues: queues@, discovered: Set::empty(), rejected: 0 };
    for i in 0..replica_keys.len()
        invariant
            queues.wf(),
            outcome.discovered.wf(),
            outcome.capacity_rejected_count <= i,
            stored@.len() == replica_keys@.len(),
            (AdmissionModel {
                queues: queues@,
                discovered: outcome.discovered@,
                rejected: outcome.capacity_rejected_count as nat,
            }) == start.replicas(
                replica_keys@.take(i as int),
                stored@.take(i as int),
                *source,
                now,
            ),
    {
        proof {
            assert(replica_keys@.take(i + 1).drop_last() =~= replica_keys@.take(i as int));
            assert(stored@.take(i + 1).drop_last() =~= stored@.take(i as int));
        }
        let held = match stored[i] {
            Some(b) => b,
            None => false,
        };
        if !held {
            offer(
                queues,
                &mut outcome,
                replica_keys[i],
                VerificationEntry {
                    state: VerificationState::PendingVerify,
                    pipeline: HintPipeline::Replica,
                    created_at: now,
                    hint_sender: *source,
                },
            );
        }
    }
    let ghost middle = start.replicas(replica_keys@, stored@, *source, now);
    assert(replica_keys@.take(replica_keys@.len() as int) =~= replica_keys@);
    assert(stored@.take(stored@.len() as int) =~= stored@);
    for i in 0..paid_only_keys.len()
        invariant
            queues.wf(),
            outcome.discovered.wf(),
            outcome.capacity_rejected_count <= replica_keys@.len() + i,
            replica_keys@.len() + paid_only_keys@.len() <= usize::MAX,
            (AdmissionModel {
                queues: queues@,
                discovered: outcome.discovered@,
                rejected: outcome.capacity_rejected_count as nat,
            }) == middle.paid_only(paid_only_keys@.take(i as int), *source, now),
    {
        proof {
            assert(paid_only_keys@.take(i + 1).drop_last() =~= paid_only_keys@.take(i as int));
        }
        offer(
            queues,
            &mut outcome,
            paid_only_keys[i],
            VerificationEntry {
                state: VerificationState::PendingVerify,
                pipeline: HintPipeline::PaidOnly,
                created_at: now,
                hint_sender: *source,
            },
        );
    }
    assert(paid_only_keys@.take(paid_only_keys@.len() as int) =~= paid_only_keys@);
    outcome
}

// ---------------------------------------------------------------------------
// Laws
// ---------------------------------------------------------------------------

/// What queueing keeps: nothing leaves the pipeline, discovered keys are
/// pending from `source` and were not there before, and only pending keys are
/// added.
pub open spec fn grows(from: AdmissionModel, to: AdmissionModel, source: PeerId, now: u64) -> bool {
    &&& from.rejected <= to.rejected
    &&& from.discovered.subset_of(to.discovered)
    &&& from.queues.queued == to.queues.queued
    &&& from.queues.in_flight == to.queues.in_flight
    &&& from.queues.pending.submap_of(to.queues.pending)
    &&& forall|k: XorName| #[trigger]
        to.discovered.contains(k) && !from.discovered.contains(k) ==> !from.queues.holds(k)
            && to.queues.pending.contains_key(k) && to.queues.pending[k].hint_sender == source
            && to.queues.pending[k].created_at == now
    &&& forall|k: XorName| #[trigger]
        to.queues.pending.contains_key(k) && !from.queues.pending.contains_key(k)
            ==> to.discovered.contains(k)
}

proof fn lemma_offer_grows(m: AdmissionModel, key: XorName, entry: VerificationEntry)
    ensures
        grows(m, m.offered(key, entry), entry.hint_sender, entry.created_at),
        m.offered(key, entry).queues.holds(key) || m.offered(key, entry).rejected > m.rejected,
{
    let after = m.offered(key, entry);
    assert forall|k: XorName| m.queues.is_queued(k) implies after.queues.is_queued(k) by {
        let i = choose|i: int|
            0 <= i < m.queues.queued.len() && #[trigger] m.queues.queued[i].key == k;
        assert(after.queues.queued[i].key == k);
    }
}

proof fn lemma_grows_transitive(
    a: AdmissionModel,
    b: AdmissionModel,
    c: AdmissionModel,
    source: PeerId,
    now: u64,
)
    requires
        grows(a, b, source, now),
        grows(b, c, source, now),
    ensures
        grows(a, c, source, now),
{
    assert forall|k: XorName| #[trigger]
        c.discovered.contains(k) && !a.discovered.contains(k) implies !a.queues.holds(k)
        && c.queues.pending.contains_key(k) && c.queues.pending[k].hint_sender == source
        && c.queues.pending[k].created_at == now by {
        if b.discovered.contains(k) {
            assert(b.queues.pending.contains_key(k));
            assert(c.queues.pending.dom().contains(k));
        } else {
            assert(!b.queues.holds(k));
            if a.queues.pending.contains_key(k) {
                assert(a.queues.pending.dom().contains(k));
            }
            lemma_same_queue_same_membership(a.queues, b.queues, k);
        }
    }
    assert forall|k: XorName| #[trigger]
        c.queues.pending.contains_key(k) && !a.queues.pending.contains_key(
            k,
        ) implies c.discovered.contains(k) by {
        if b.queues.pending.contains_key(k) {
            assert(b.discovered.contains(k));
        }
    }
    assert forall|k: XorName| #[trigger] a.queues.pending.dom().contains(k) implies c.queues.pending.dom().contains(
        k,
    ) && a.queues.pending[k] == c.queues.pending[k] by {
        assert(b.queues.pending.dom().contains(k));
    }
}

proof fn lemma_same_queue_same_membership(a: QueuesModel, b: QueuesModel, k: XorName)
    requires
        a.queued == b.queued,
    ensures
        a.is_queued(k) == b.is_queued(k),
{
}

proof fn lemma_replicas_grow(
    m: AdmissionModel,
    keys: Seq<XorName>,
    stored: Seq<Option<bool>>,
    source: PeerId,
    now: u64,
)
    requires
        keys.len() == stored.len(),
    ensures
        grows(m, m.replicas(keys, stored, source, now), source, now),
        forall|i: int|
            0 <= i < keys.len() && stored[i] != Some(true) ==> m.replicas(
                keys,
                stored,
                source,
                now,
            ).queues.holds(#[trigger] keys[i]) || m.replicas(keys, stored, source, now).rejected
                > m.rejected,
    decreases keys.len(),
{
    if keys.len() > 0 {
        let before = m.replicas(keys.drop_last(), stored.drop_last(), source, now);
        let after = m.replicas(keys, stored, source, now);
        lemma_replicas_grow(m, keys.drop_last(), stored.drop_last(), source, now);
        if stored.last() != Some(true) {
            let entry = hint_entry(HintPipeline::Replica, source, now);
            lemma_offer_grows(before, keys.last(), entry);
            lemma_grows_transitive(m, before, after, source, now);
        }
        assert forall|i: int| 0 <= i < keys.len() && stored[i] != Some(true) implies after.queues.holds(
            #[trigger] keys[i],
        ) || after.rejected > m.rejected by {
            if i < keys.len() - 1 {
                assert(keys.drop_last()[i] == keys[i]);
                assert(stored.drop_last()[i] == stored[i]);
                lemma_growth_keeps(before, after, keys[i], source, now);
            }
        }
    }
}

proof fn lemma_growth_keeps(
    a: AdmissionModel,
    b: AdmissionModel,
    k: XorName,
    source: PeerId,
    now: u64,
)
    requires
        grows(a, b, source, now) || a == b,
    ensures
        a.queues.holds(k) ==> b.queues.holds(k),
{
    if a.queues.pending.contains_key(k) {
        assert(a.queues.pending.dom().contains(k));
    }
    lemma_same_queue_same_membership(a.queues, b.queues, k);
}

proof fn lemma_paid_only_grows(m: AdmissionModel, keys: Seq<XorName>, source: PeerId, now: u64)
    ensures
        grows(m, m.paid_only(keys, source, now), source, now),
        forall|i: int|
            0 <= i < keys.len() ==> m.paid_only(keys, source, now).queues.holds(
                #[trigger] keys[i],
            ) || m.paid_only(keys, source, now).rejected > m.rejected,
    decreases keys.len(),
{
    if keys.len() > 0 {
        let before = m.paid_only(keys.drop_last(), source, now);
        let after = m.paid_only(keys, source, now);
        lemma_paid_only_grows(m, keys.drop_last(), source, now);
        let entry = hint_entry(HintPipeline::PaidOnly, source, now);
        lemma_offer_grows(before, keys.last(), entry);
        lemma_grows_transitive(m, before, after, source, now);
        assert forall|i: int| 0 <= i < keys.len() implies after.queues.holds(#[trigger] keys[i])
            || after.rejected > m.rejected by {
            if i < keys.len() - 1 {
                assert(keys.drop_last()[i] == keys[i]);
                lemma_growth_keeps(before, after, keys[i], source, now);
            }
        }
    }
}

/// No admitted hint is lost silently: afterwards every hinted key that is not
/// stored already is in the pipeline, unless hints were turned away, in which
/// case the count says so. Queueing takes nothing out of the pipeline, and the
/// discovered keys are exactly those that became pending, all of them hinted by
/// `source`.
pub proof fn lemma_hints_are_accounted_for(
    queues: QueuesModel,
    replica_keys: Seq<XorName>,
    stored: Seq<Option<bool>>,
    paid_only_keys: Seq<XorName>,
    source: PeerId,
    now: u64,
)
    requires
        replica_keys.len() == stored.len(),
    ensures
        ({
            let after = admission(queues, replica_keys, stored, paid_only_keys, source, now);
            &&& after.rejected == 0 ==> forall|i: int|
                0 <= i < replica_keys.len() && stored[i] != Some(true) ==> after.queues.holds(
                    #[trigger] replica_keys[i],
                )
            &&& after.rejected == 0 ==> forall|i: int|
                0 <= i < paid_only_keys.len() ==> after.queues.holds(#[trigger] paid_only_keys[i])
            &&& queues.pending.submap_of(after.queues.pending)
            &&& queues.queued == after.queues.queued
            &&& queues.in_flight == after.queues.in_flight
            &&& forall|k: XorName| #[trigger]
                after.discovered.contains(k) <==> after.queues.pending.contains_key(k)
                    && !queues.pending.contains_key(k)
            &&& forall|k: XorName| #[trigger]
                after.discovered.contains(k) ==> !queues.holds(k)
                    && after.queues.pending[k].hint_sender == source
        }),
{
    let start = AdmissionModel { queues, discovered: Set::empty(), rejected: 0 };
    let middle = start.replicas(replica_keys, stored, source, now);
    let after = middle.paid_only(paid_only_keys, source, now);
    lemma_replicas_grow(start, replica_keys, stored, source, now);
    lemma_paid_only_grows(middle, paid_only_keys, source, now);
    lemma_grows_transitive(start, middle, after, source, now);
    assert forall|i: int| 0 <= i < replica_keys.len() && stored[i] != Some(true) && after.rejected
        == 0 implies after.queues.holds(#[trigger] replica_keys[i]) by {
        lemma_growth_keeps(middle, after, replica_keys[i], source, now);
    }
    assert forall|k: XorName| #[trigger]
        after.discovered.contains(k) <==> after.queues.pending.contains_key(k)
            && !queues.pending.contains_key(k) by {
        if after.discovered.contains(k) {
            assert(!start.discovered.contains(k));
        }
    }
    assert forall|k: XorName| #[trigger] after.discovered.contains(k) implies !queues.holds(k)
        && after.queues.pending[k].hint_sender == source by {
        assert(!start.discovered.contains(k));
    }
}

/// Whether the pipeline has no room for another key of `sender`.
spec fn no_room(queues: QueuesModel, sender: PeerId) -> bool {
    queues.pending.len() >= queues.pending_limit || queues.hinted_by(sender).len()
        >= queues.per_source_limit
}

/// `to` follows from `from` by offering `keys` of `source` for one pipeline.
spec fn took(
    from: AdmissionModel,
    to: AdmissionModel,
    keys: Set<XorName>,
    pipeline: HintPipeline,
    source: PeerId,
    now: u64,
) -> bool {
    &&& to.queues.pending.dom().finite()
    &&& to.queues.pending_limit == from.queues.pending_limit
    &&& to.queues.per_source_limit == from.queues.per_source_limit
    &&& to.queues.queued == from.queues.queued
    &&& to.queues.in_flight == from.queues.in_flight
    &&& from.queues.pending.submap_of(to.queues.pending)
    &&& from.discovered.subset_of(to.discovered)
    &&& forall|k: XorName| #[trigger]
        to.discovered.contains(k) && !from.discovered.contains(k) ==> {
            &&& keys.contains(k)
            &&& !from.queues.holds(k)
            &&& to.queues.pending.contains_key(k)
            &&& to.queues.pending[k].pipeline == pipeline
            &&& to.queues.pending[k].state is PendingVerify
            &&& to.queues.pending[k].hint_sender == source
            &&& to.queues.pending[k].created_at == now
        }
    &&& no_room(from.queues, source) ==> no_room(to.queues, source) && to.discovered
        == from.discovered
    &&& from.rejected <= to.rejected
    &&& to.rejected > from.rejected ==> no_room(to.queues, source)
    &&& forall|k: XorName| #[trigger]
        keys.contains(k) ==> to.queues.holds(k) || no_room(to.queues, source)
}

proof fn lemma_room_only_shrinks(a: QueuesModel, b: QueuesModel, sender: PeerId)
    requires
        b.pending.dom().finite(),
        a.pending.submap_of(b.pending),
        a.pending_limit == b.pending_limit,
        a.per_source_limit == b.per_source_limit,
    ensures
        no_room(a, sender) ==> no_room(b, sender),
{
    assert(a.pending.dom().subset_of(b.pending.dom()));
    vstd::set_lib::lemma_len_subset(a.pending.dom(), b.pending.dom());
    assert(b.hinted_by(sender).subset_of(b.pending.dom()));
    vstd::set_lib::lemma_len_subset(b.hinted_by(sender), b.pending.dom());
    assert forall|k: XorName| #[trigger] a.hinted_by(sender).contains(k) implies b.hinted_by(
        sender,
    ).contains(k) by {
        assert(a.pending.dom().contains(k));
    }
    vstd::set_lib::lemma_len_subset(a.hinted_by(sender), b.hinted_by(sender));
}

/// One more key offered after `keys` were.
proof fn lemma_took_one_more(
    from: AdmissionModel,
    before: AdmissionModel,
    keys: Set<XorName>,
    pipeline: HintPipeline,
    source: PeerId,
    now: u64,
    key: XorName,
)
    requires
        took(from, before, keys, pipeline, source, now),
    ensures
        took(
            from,
            before.offered(
                key,
                VerificationEntry {
                    state: VerificationState::PendingVerify,
                    pipeline,
                    created_at: now,
                    hint_sender: source,
                },
            ),
            keys.insert(key),
            pipeline,
            source,
            now,
        ),
{
    let entry = VerificationEntry {
        state: VerificationState::PendingVerify,
        pipeline,
        created_at: now,
        hint_sender: source,
    };
    let after = before.offered(key, entry);
    lemma_room_only_shrinks(before.queues, after.queues, source);
    lemma_same_queue_same_membership(before.queues, after.queues, key);
    assert(from.queues.pending.submap_of(after.queues.pending)) by {
        assert forall|k: XorName| #[trigger]
            from.queues.pending.dom().contains(k) implies after.queues.pending.dom().contains(k)
            && from.queues.pending[k] == after.queues.pending[k] by {
            assert(before.queues.pending.dom().contains(k));
        }
    }
    assert forall|k: XorName| #[trigger]
        after.discovered.contains(k) && !from.discovered.contains(k) implies {
        &&& keys.insert(key).contains(k)
        &&& !from.queues.holds(k)
        &&& after.queues.pending.contains_key(k)
        &&& after.queues.pending[k].pipeline == pipeline
        &&& after.queues.pending[k].state is PendingVerify
        &&& after.queues.pending[k].hint_sender == source
        &&& after.queues.pending[k].created_at == now
    } by {
        if before.discovered.contains(k) {
            assert(before.queues.pending.dom().contains(k));
        } else {
            assert(k == key);
            lemma_same_queue_same_membership(from.queues, before.queues, key);
            if from.queues.pending.contains_key(key) {
                assert(from.queues.pending.dom().contains(key));
            }
        }
    }
    assert forall|k: XorName| #[trigger] keys.insert(key).contains(k) implies after.queues.holds(k)
        || no_room(after.queues, source) by {
        lemma_same_queue_same_membership(before.queues, after.queues, k);
        if k != key {
            assert(keys.contains(k));
        }
    }
    if no_room(from.queues, source) {
        assert(no_room(before.queues, source));
        assert(after.discovered =~= from.discovered);
    }
}

proof fn lemma_replicas_take(
    m: AdmissionModel,
    keys: Seq<XorName>,
    stored: Seq<Option<bool>>,
    source: PeerId,
    now: u64,
)
    requires
        m.queues.pending.dom().finite(),
        keys.len() == stored.len(),
    ensures
        took(
            m,
            m.replicas(keys, stored, source, now),
            Set::new(
                |k: XorName|
                    exists|i: int|
                        0 <= i < keys.len() && #[trigger] keys[i] == k && stored[i] != Some(true),
            ),
            HintPipeline::Replica,
            source,
            now,
        ),
    decreases keys.len(),
{
    let all = Set::new(
        |k: XorName|
            exists|i: int|
                0 <= i < keys.len() && #[trigger] keys[i] == k && stored[i] != Some(true),
    );
    let after = m.replicas(keys, stored, source, now);
    if keys.len() == 0 {
        assert(all =~= Set::empty());
    } else {
        let fewer = keys.drop_last();
        let held = stored.drop_last();
        let part = Set::new(
            |k: XorName|
                exists|i: int|
                    0 <= i < fewer.len() && #[trigger] fewer[i] == k && held[i] != Some(true),
        );
        let before = m.replicas(fewer, held, source, now);
        lemma_replicas_take(m, fewer, held, source, now);
        let grown = if stored.last() == Some(true) {
            part
        } else {
            part.insert(keys.last())
        };
        assert(grown =~= all) by {
            assert forall|k: XorName| #[trigger] all.contains(k) <==> grown.contains(k) by {
                if all.contains(k) {
                    let i = choose|i: int|
                        0 <= i < keys.len() && #[trigger] keys[i] == k && stored[i] != Some(true);
                    if i < fewer.len() {
                        assert(fewer[i] == k && held[i] != Some(true));
                    }
                }
                if part.contains(k) {
                    let i = choose|i: int|
                        0 <= i < fewer.len() && #[trigger] fewer[i] == k && held[i] != Some(true);
                    assert(keys[i] == k && stored[i] != Some(true));
                }
                if stored.last() != Some(true) {
                    assert(keys[keys.len() - 1] == keys.last());
                }
            }
        }
        if stored.last() != Some(true) {
            lemma_took_one_more(
                m,
                before,
                part,
                HintPipeline::Replica,
                source,
                now,
                keys.last(),
            );
        }
    }
}

proof fn lemma_paid_only_take(m: AdmissionModel, keys: Seq<XorName>, source: PeerId, now: u64)
    requires
        m.queues.pending.dom().finite(),
    ensures
        took(
            m,
            m.paid_only(keys, source, now),
            Set::new(|k: XorName| keys.contains(k)),
            HintPipeline::PaidOnly,
            source,
            now,
        ),
    decreases keys.len(),
{
    let all = Set::new(|k: XorName| keys.contains(k));
    if keys.len() == 0 {
        assert(all =~= Set::empty());
    } else {
        let fewer = keys.drop_last();
        let part = Set::new(|k: XorName| fewer.contains(k));
        lemma_paid_only_take(m, fewer, source, now);
        assert(part.insert(keys.last()) =~= all) by {
            assert(fewer.push(keys.last()) =~= keys);
            assert forall|k: XorName| #[trigger] all.contains(k) <==> part.insert(
                keys.last(),
            ).contains(k) by {
                lemma_push_contains(fewer, keys.last(), k);
            }
        }
        lemma_took_one_more(
            m,
            m.paid_only(fewer, source, now),
            part,
            HintPipeline::PaidOnly,
            source,
            now,
            keys.last(),
        );
    }
}

/// A discovered key goes through the pipeline it was hinted for: as a replica
/// when it is among the replica keys that are not stored, and as paid only when
/// it came from the paid keys alone. Either way it waits for verification, on
/// record as hinted by `source` at `now`; and nothing is discovered that was
/// not hinted, nor a replica that is stored.
pub proof fn lemma_hints_enter_their_pipeline(
    queues: QueuesModel,
    replica_keys: Seq<XorName>,
    stored: Seq<Option<bool>>,
    paid_only_keys: Seq<XorName>,
    source: PeerId,
    now: u64,
    key: XorName,
)
    requires
        queues.valid(),
        replica_keys.len() == stored.len(),
    ensures
        ({
            let after = admission(queues, replica_keys, stored, paid_only_keys, source, now);
            let as_replica = exists|i: int|
                0 <= i < replica_keys.len() && #[trigger] replica_keys[i] == key && stored[i]
                    != Some(true);
            let entry = after.queues.pending[key];
            after.discovered.contains(key) ==> {
                &&& as_replica || paid_only_keys.contains(key)
                &&& after.queues.pending.contains_key(key)
                &&& as_replica ==> entry.pipeline is Replica
                &&& !as_replica ==> entry.pipeline is PaidOnly
                &&& entry.state is PendingVerify
                &&& entry.hint_sender == source
                &&& entry.created_at == now
            }
        }),
{
    let start = AdmissionModel { queues, discovered: Set::empty(), rejected: 0 };
    let middle = start.replicas(replica_keys, stored, source, now);
    let after = middle.paid_only(paid_only_keys, source, now);
    let replicas = Set::new(
        |k: XorName|
            exists|i: int|
                0 <= i < replica_keys.len() && #[trigger] replica_keys[i] == k && stored[i]
                    != Some(true),
    );
    lemma_replicas_take(start, replica_keys, stored, source, now);
    lemma_paid_only_take(middle, paid_only_keys, source, now);
    if after.discovered.contains(key) {
        if middle.discovered.contains(key) {
            assert(replicas.contains(key));
            assert(middle.queues.pending.dom().contains(key));
        } else if replicas.contains(key) {
            assert(middle.queues.holds(key) || no_room(middle.queues, source));
        }
    }
}

/// Hints are turned away for want of room only: when any was, the pipeline
/// holds afterwards as many pending keys as it may, or as many of `source` as
/// one sender may have. A new key is discovered whenever none was turned away.
pub proof fn lemma_hints_are_rejected_for_want_of_room(
    queues: QueuesModel,
    replica_keys: Seq<XorName>,
    stored: Seq<Option<bool>>,
    paid_only_keys: Seq<XorName>,
    source: PeerId,
    now: u64,
    key: XorName,
)
    requires
        queues.valid(),
        replica_keys.len() == stored.len(),
    ensures
        ({
            let after = admission(queues, replica_keys, stored, paid_only_keys, source, now);
            let hinted = paid_only_keys.contains(key) || exists|i: int|
                0 <= i < replica_keys.len() && #[trigger] replica_keys[i] == key && stored[i]
                    != Some(true);
            let known = queues.pending.contains_key(key) || queues.in_flight.contains_key(key) || (
            exists|i: int| 0 <= i < queues.queued.len() && #[trigger] queues.queued[i].key == key);
            &&& after.rejected > 0 ==> after.queues.pending.len() >= queues.pending_limit
                || after.queues.pending.dom().filter(
                |k: XorName| after.queues.pending[k].hint_sender == source,
            ).len() >= queues.per_source_limit
            &&& after.rejected == 0 && hinted && !known ==> after.discovered.contains(key)
            &&& known ==> !after.discovered.contains(key)
        }),
{
    let start = AdmissionModel { queues, discovered: Set::empty(), rejected: 0 };
    let middle = start.replicas(replica_keys, stored, source, now);
    let after = middle.paid_only(paid_only_keys, source, now);
    lemma_replicas_take(start, replica_keys, stored, source, now);
    lemma_paid_only_take(middle, paid_only_keys, source, now);
    lemma_room_only_shrinks(middle.queues, after.queues, source);
    lemma_hints_are_accounted_for(queues, replica_keys, stored, paid_only_keys, source, now);
    if after.rejected == 0 {
        if paid_only_keys.contains(key) {
            let i = choose|i: int| 0 <= i < paid_only_keys.len() && paid_only_keys[i] == key;
            assert(after.queues.holds(paid_only_keys[i]));
        }
        if exists|i: int|
            0 <= i < replica_keys.len() && #[trigger] replica_keys[i] == key && stored[i]
                != Some(true) {
            let i = choose|i: int|
                0 <= i < replica_keys.len() && #[trigger] replica_keys[i] == key && stored[i]
                    != Some(true);
            assert(after.queues.holds(replica_keys[i]));
        }
        lemma_same_queue_same_membership(queues, after.queues, key);
    }
}

/// An offer counts one rejection when the pipeline has no room for the key, and
/// none otherwise; it discovers the key exactly when it lets it in.
pub proof fn lemma_offer_counts_once(m: AdmissionModel, key: XorName, entry: VerificationEntry)
    ensures
        ({
            let after = m.offered(key, entry);
            &&& m.queues.admission(key, entry.hint_sender) is CapacityRejected ==> after.rejected
                == m.rejected + 1 && after.discovered == m.discovered && after.queues == m.queues
            &&& m.queues.admission(key, entry.hint_sender) is AlreadyPresent ==> after == m
            &&& m.queues.admission(key, entry.hint_sender) is Admitted ==> after.rejected
                == m.rejected && after.discovered == m.discovered.insert(key)
                && after.queues.pending.contains_key(key) && after.queues.pending[key] == entry
        }),
{
}

} // verus!
