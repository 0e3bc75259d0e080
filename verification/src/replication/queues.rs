//! The replication pipeline: pending verification, queued fetches, and
//! fetches in flight.

use crate::bytemap::ByteMap;
use crate::ids::{
    copy_peers, is_nearer, lemma_nearer_irreflexive, lemma_nearer_total, lemma_nearer_transitive,
    lists_peer, nearer, same_bytes, same_peer, PeerId, XorName,
};
use crate::replication::types::{
    elapsed, elapsed_ms, AdmissionResult, HintPipeline, VerificationEntry, VerificationState,
};
use crate::seqs::lemma_push_contains;
use vstd::prelude::*;

verus! {

/// A verified key that waits for a fetch slot.
#[derive(Debug)]
pub struct FetchCandidate {
    /// The key.
    pub key: XorName,
    /// Distance of the key from this node.
    pub distance: [u8; 32],
    /// Peers that hold the record.
    pub sources: Vec<PeerId>,
}

/// Mathematical content of a [`FetchCandidate`].
#[verifier::ext_equal]
pub struct CandidateModel {
    pub key: XorName,
    pub distance: [u8; 32],
    pub sources: Seq<PeerId>,
}

impl View for FetchCandidate {
    type V = CandidateModel;

    open spec fn view(&self) -> CandidateModel {
        CandidateModel { key: self.key, distance: self.distance, sources: self.sources@ }
    }
}

/// A fetch in flight.
#[derive(Debug)]
pub struct InFlightFetch {
    /// Peer that is asked now.
    pub source: PeerId,
    /// All verified holders.
    pub sources: Vec<PeerId>,
    /// Peers that were asked before.
    pub tried: Vec<PeerId>,
}

/// Mathematical content of an [`InFlightFetch`].
#[verifier::ext_equal]
pub struct FetchModel {
    pub source: PeerId,
    pub sources: Seq<PeerId>,
    pub tried: Seq<PeerId>,
}

impl View for InFlightFetch {
    type V = FetchModel;

    open spec fn view(&self) -> FetchModel {
        FetchModel { source: self.source, sources: self.sources@, tried: self.tried@ }
    }
}

/// First of `sources` that is not in `tried`.
pub open spec fn first_untried(sources: Seq<PeerId>, tried: Seq<PeerId>) -> Option<PeerId>
    decreases sources.len(),
{
    if sources.len() == 0 {
        None
    } else if !tried.contains(sources[0]) {
        Some(sources[0])
    } else {
        first_untried(sources.drop_first(), tried)
    }
}

/// What `first_untried` finds is a source that was not tried.
pub proof fn lemma_first_untried(sources: Seq<PeerId>, tried: Seq<PeerId>)
    ensures
        match first_untried(sources, tried) {
            Some(p) => sources.contains(p) && !tried.contains(p),
            None => forall|i: int| 0 <= i < sources.len() ==> tried.contains(#[trigger] sources[i]),
        },
    decreases sources.len(),
{
    if sources.len() > 0 {
        let rest = sources.drop_first();
        lemma_first_untried(rest, tried);
        if tried.contains(sources[0]) {
            match first_untried(rest, tried) {
                Some(p) => {
                    let i = choose|i: int| 0 <= i < rest.len() && rest[i] == p;
                    assert(sources[i + 1] == p);
                },
                None => {
                    assert forall|i: int| 0 <= i < sources.len() implies tried.contains(
                        #[trigger] sources[i],
                    ) by {
                        if i > 0 {
                            assert(rest[i - 1] == sources[i]);
                        }
                    }
                },
            }
        } else {
            assert(sources.contains(sources[0]));
        }
    }
}

/// The candidate at `i` is the nearest of `queue`, and the first such.
pub open spec fn is_front(queue: Seq<CandidateModel>, i: int) -> bool {
    &&& 0 <= i < queue.len()
    &&& forall|j: int|
        0 <= j < queue.len() ==> !nearer(#[trigger] queue[j].distance, queue[i].distance)
    &&& forall|j: int| 0 <= j < i ==> nearer(queue[i].distance, #[trigger] queue[j].distance)
}

/// Position of the candidate that is fetched next.
pub open spec fn front(queue: Seq<CandidateModel>) -> int {
    choose|i: int| is_front(queue, i)
}

/// At most one position is the front.
pub proof fn lemma_front_unique(queue: Seq<CandidateModel>, i: int)
    requires
        is_front(queue, i),
    ensures
        front(queue) == i,
{
    let f = front(queue);
    assert(is_front(queue, f));
    if f < i {
        assert(nearer(queue[i].distance, queue[f].distance));
    } else if i < f {
        assert(nearer(queue[f].distance, queue[i].distance));
    }
}

/// A queue that is not empty has a front.
pub proof fn lemma_front_exists(queue: Seq<CandidateModel>)
    requires
        queue.len() > 0,
    ensures
        is_front(queue, front(queue)),
{
    lemma_prefix_front(queue, queue.len() as int);
    assert(queue.take(queue.len() as int) =~= queue);
}

proof fn lemma_prefix_front(queue: Seq<CandidateModel>, n: int)
    requires
        0 < n <= queue.len(),
    ensures
        exists|i: int| is_front(queue.take(n), i),
    decreases n,
{
    if n == 1 {
        lemma_nearer_irreflexive(queue[0].distance);
        assert(is_front(queue.take(1), 0));
    } else {
        lemma_prefix_front(queue, n - 1);
        let prefix = queue.take(n - 1);
        let best = choose|i: int| is_front(prefix, i);
        lemma_front_extends(
            queue,
            n - 1,
            best,
            nearer(queue[n - 1].distance, queue[best].distance),
        );
    }
}

/// Mathematical content of the pipeline.
#[verifier::ext_equal]
pub struct QueuesModel {
    /// Keys that wait for verification.
    pub pending: Map<XorName, VerificationEntry>,
    /// Keys that wait for a fetch slot.
    pub queued: Seq<CandidateModel>,
    /// Keys that are being fetched.
    pub in_flight: Map<XorName, FetchModel>,
    /// Most keys that may be pending.
    pub pending_limit: nat,
    /// Most keys of one sender that may be pending.
    pub per_source_limit: nat,
    /// Most keys that may wait for a fetch slot.
    pub fetch_limit: nat,
}

impl QueuesModel {
    /// Whether `key` waits for a fetch slot.
    pub open spec fn is_queued(self, key: XorName) -> bool {
        exists|i: int| 0 <= i < self.queued.len() && #[trigger] self.queued[i].key == key
    }

    /// Whether `key` is in some stage of the pipeline.
    pub open spec fn holds(self, key: XorName) -> bool {
        self.pending.contains_key(key) || self.is_queued(key) || self.in_flight.contains_key(key)
    }

    /// Pending keys that `sender` hinted.
    pub open spec fn hinted_by(self, sender: PeerId) -> Set<XorName> {
        self.pending.dom().filter(|k: XorName| self.pending[k].hint_sender == sender)
    }

    /// A key is in at most one stage, no bound is exceeded, and no fetch asks
    /// a peer that was already tried.
    pub open spec fn valid(self) -> bool {
        &&& self.pending.dom().finite()
        &&& self.pending.len() <= self.pending_limit
        &&& forall|s: PeerId| #[trigger] self.hinted_by(s).len() <= self.per_source_limit
        &&& self.queued.len() <= self.fetch_limit
        &&& forall|i: int, j: int|
            0 <= i < j < self.queued.len() ==> #[trigger] self.queued[i].key
                != #[trigger] self.queued[j].key
        &&& forall|k: XorName| #[trigger]
            self.pending.contains_key(k) ==> !self.is_queued(k) && !self.in_flight.contains_key(k)
        &&& forall|k: XorName| #[trigger] self.in_flight.contains_key(k) ==> !self.is_queued(k)
        &&& forall|k: XorName| #[trigger]
            self.in_flight.contains_key(k) ==> !self.in_flight[k].tried.contains(
                self.in_flight[k].source,
            )
    }

    /// Verdict on `key` offered by `sender`.
    pub open spec fn admission(self, key: XorName, sender: PeerId) -> AdmissionResult {
        if self.holds(key) {
            AdmissionResult::AlreadyPresent
        } else if self.pending.len() >= self.pending_limit || self.hinted_by(sender).len()
            >= self.per_source_limit {
            AdmissionResult::CapacityRejected
        } else {
            AdmissionResult::Admitted
        }
    }

    /// The pipeline after `key` was offered.
    pub open spec fn offered(self, key: XorName, entry: VerificationEntry) -> QueuesModel {
        if self.admission(key, entry.hint_sender) is Admitted {
            QueuesModel { pending: self.pending.insert(key, entry), ..self }
        } else {
            self
        }
    }

    /// The pipeline without pending `key`.
    pub open spec fn without_pending(self, key: XorName) -> QueuesModel {
        QueuesModel { pending: self.pending.remove(key), ..self }
    }

    /// The pipeline after pending `key` changed its state.
    pub open spec fn with_state(self, key: XorName, state: VerificationState) -> QueuesModel {
        if self.pending.contains_key(key) {
            QueuesModel {
                pending: self.pending.insert(
                    key,
                    VerificationEntry { state, ..self.pending[key] },
                ),
                ..self
            }
        } else {
            self
        }
    }

    /// Whether pending `key` can move to the fetch queue now.
    pub open spec fn can_promote(self, key: XorName) -> bool {
        self.pending.contains_key(key) && self.queued.len() < self.fetch_limit
    }

    /// The pipeline after an attempt to move `key` to the fetch queue. When
    /// there is no room the key stays pending.
    pub open spec fn promoted(
        self,
        key: XorName,
        distance: [u8; 32],
        sources: Seq<PeerId>,
    ) -> QueuesModel {
        if self.can_promote(key) {
            QueuesModel {
                pending: self.pending.remove(key),
                queued: self.queued.push(CandidateModel { key, distance, sources }),
                ..self
            }
        } else {
            self
        }
    }

    /// The pipeline after the front of the fetch queue was taken.
    pub open spec fn dequeued(self) -> QueuesModel {
        QueuesModel { queued: self.queued.remove(front(self.queued)), ..self }
    }

    /// The pipeline after a fetch of `key` from `source` began.
    pub open spec fn fetching(
        self,
        key: XorName,
        source: PeerId,
        sources: Seq<PeerId>,
    ) -> QueuesModel {
        QueuesModel {
            in_flight: self.in_flight.insert(
                key,
                FetchModel { source, sources, tried: Seq::empty() },
            ),
            ..self
        }
    }

    /// Peer that the next attempt for `key` asks.
    pub open spec fn next_source(self, key: XorName) -> Option<PeerId> {
        if self.in_flight.contains_key(key) {
            let f = self.in_flight[key];
            first_untried(f.sources, f.tried.push(f.source))
        } else {
            None
        }
    }

    /// The pipeline after an attempt to move on to the next source of `key`.
    pub open spec fn retried(self, key: XorName) -> QueuesModel {
        match self.next_source(key) {
            Some(source) => {
                let f = self.in_flight[key];
                QueuesModel {
                    in_flight: self.in_flight.insert(
                        key,
                        FetchModel { source, sources: f.sources, tried: f.tried.push(f.source) },
                    ),
                    ..self
                }
            },
            None => self,
        }
    }

    /// The pipeline after the fetch of `key` ended.
    pub open spec fn fetched(self, key: XorName) -> QueuesModel {
        QueuesModel { in_flight: self.in_flight.remove(key), ..self }
    }

    /// Pending keys admitted less than `max_age` ago.
    pub open spec fn fresh_keys(self, now: u64, max_age: u64) -> Set<XorName> {
        self.pending.dom().filter(
            |k: XorName| elapsed(now, self.pending[k].created_at) < max_age,
        )
    }

    /// The pipeline without keys that waited too long.
    pub open spec fn evicted(self, now: u64, max_age: u64) -> QueuesModel {
        QueuesModel { pending: self.pending.restrict(self.fresh_keys(now, max_age)), ..self }
    }
}

/// The replication pipeline.
pub struct ReplicationQueues {
    pending: ByteMap<VerificationEntry>,
    queued: Vec<FetchCandidate>,
    in_flight: ByteMap<InFlightFetch>,
    pending_limit: usize,
    per_source_limit: usize,
    fetch_limit: usize,
}

impl View for ReplicationQueues {
    type V = QueuesModel;

    closed spec fn view(&self) -> QueuesModel {
        QueuesModel {
            pending: self.pending@,
            queued: self.queued@.map_values(|c: FetchCandidate| c@),
            in_flight: self.in_flight@.map_values(|f: InFlightFetch| f@),
            pending_limit: self.pending_limit as nat,
            per_source_limit: self.per_source_limit as nat,
            fetch_limit: self.fetch_limit as nat,
        }
    }
}

impl ReplicationQueues {
    /// The representation is sound and its content is valid.
    pub closed spec fn wf(&self) -> bool {
        &&& self.pending.wf()
        &&& self.in_flight.wf()
        &&& self@.valid()
    }

    /// The content of well-formed queues is valid.
    pub proof fn lemma_valid(&self)
        requires
            self.wf(),
        ensures
            self@.valid(),
    {
    }

    /// Empty queues with the given bounds.
    pub fn new(pending_limit: usize, per_source_limit: usize, fetch_limit: usize) -> (q: Self)
        ensures
            q.wf(),
            q@ == (QueuesModel {
                pending: Map::empty(),
                queued: Seq::empty(),
                in_flight: Map::empty(),
                pending_limit: pending_limit as nat,
                per_source_limit: per_source_limit as nat,
                fetch_limit: fetch_limit as nat,
            }),
    {
        let q = ReplicationQueues {
            pending: ByteMap::new(),
            queued: Vec::new(),
            in_flight: ByteMap::new(),
            pending_limit,
            per_source_limit,
            fetch_limit,
        };
        proof {
            assert(q@.queued =~= Seq::empty());
            assert(q@.in_flight =~= Map::empty());
            assert forall|s: PeerId| #[trigger] q@.hinted_by(s).len() <= q@.per_source_limit by {
                assert(q@.hinted_by(s) =~= Set::empty());
            }
        }
        q
    }

    /// Whether `key` waits for a fetch slot.
    fn is_queued(&self, key: &XorName) -> (r: bool)
        ensures
            r == self@.is_queued(*key),
    {
        for i in 0..self.queued.len()
            invariant
                forall|j: int| 0 <= j < i ==> self@.queued[j].key != *key,
        {
            if same_bytes(&self.queued[i].key, key) {
                assert(self@.queued[i as int].key == *key);
                return true;
            }
        }
        false
    }

    /// Whether `key` is in some stage of the pipeline.
    pub fn contains_key(&self, key: &XorName) -> (r: bool)
        requires
            self.wf(),
        ensures
            r == self@.holds(*key),
    {
        self.pending.contains(key) || self.is_queued(key) || self.in_flight.contains(key)
    }

    /// Number of pending keys that `sender` hinted.
    fn count_hinted_by(&self, sender: &PeerId) -> (n: usize)
        requires
            self.wf(),
        ensures
            n == self@.hinted_by(*sender).len(),
    {
        let keys = self.pending.keys();
        let mut n: usize = 0;
        let ghost mut seen: Set<XorName> = Set::empty();
        for i in 0..keys.len()
            invariant
                self.wf(),
                n <= i,
                keys@.no_duplicates(),
                forall|k: XorName| keys@.contains(k) <==> #[trigger] self.pending@.contains_key(k),
                seen.finite(),
                seen.len() == n,
                forall|k: XorName| #[trigger]
                    seen.contains(k) <==> self@.hinted_by(*sender).contains(k)
                        && keys@.take(i as int).contains(k),
        {
            let key = keys[i];
            assert(keys@.contains(key));
            let ghost before = seen;
            if let Some(entry) = self.pending.get(&key) {
                if same_peer(&entry.hint_sender, sender) {
                    proof {
                        assert(!seen.contains(key)) by {
                            if keys@.take(i as int).contains(key) {
                                let j = choose|j: int|
                                    0 <= j < i && keys@.take(i as int)[j] == key;
                                assert(keys@[j] == keys@[i as int]);
                            }
                        }
                        seen = seen.insert(key);
                    }
                    n = n + 1;
                }
            }
            proof {
                assert(keys@.take(i + 1) =~= keys@.take(i as int).push(key));
                assert forall|k: XorName| #[trigger]
                    seen.contains(k) <==> self@.hinted_by(*sender).contains(k) && keys@.take(
                        i + 1,
                    ).contains(k) by {
                    let t = keys@.take(i as int);
                    if t.contains(k) {
                        let j = choose|j: int| 0 <= j < t.len() && t[j] == k;
                        assert(t.push(key)[j] == k);
                    }
                    assert(t.push(key)[t.len() as int] == key);
                    if t.push(key).contains(k) && k != key {
                        let j = choose|j: int| 0 <= j < t.push(key).len() && t.push(key)[j] == k;
                        assert(t[j] == k);
                    }
                }
            }
        }
        proof {
            assert(keys@.take(keys@.len() as int) =~= keys@);
            assert(seen =~= self@.hinted_by(*sender));
        }
        n
    }

    /// Offer a hinted key to the pending stage.
    pub fn add_pending_verify(&mut self, key: XorName, entry: VerificationEntry) -> (r:
        AdmissionResult)
        requires
            old(self).wf(),
        ensures
            final(self).wf(),
            r == old(self)@.admission(key, entry.hint_sender),
            final(self)@ == old(self)@.offered(key, entry),
    {
        if self.contains_key(&key) {
            return AdmissionResult::AlreadyPresent;
        }
        if self.pending.len() >= self.pending_limit {
            return AdmissionResult::CapacityRejected;
        }
        if self.count_hinted_by(&entry.hint_sender) >= self.per_source_limit {
            return AdmissionResult::CapacityRejected;
        }
        self.pending.insert(key, entry);
        proof {
            let before = old(self)@;
            let after = self@;
            assert(after =~= before.offered(key, entry));
            assert forall|s: PeerId| #[trigger]
                after.hinted_by(s).len() <= after.per_source_limit by {
                if s == entry.hint_sender {
                    assert(after.hinted_by(s) =~= before.hinted_by(s).insert(key));
                } else {
                    assert(after.hinted_by(s) =~= before.hinted_by(s));
                }
                assert(before.hinted_by(s).len() <= before.per_source_limit);
            }
        }
        AdmissionResult::Admitted
    }

    /// Drop a key from the pending stage.
    pub fn remove_pending(&mut self, key: &XorName)
        requires
            old(self).wf(),
        ensures
            final(self).wf(),
            final(self)@ == old(self)@.without_pending(*key),
    {
        let _ = self.pending.remove(key);
        proof {
            lemma_fewer_pending(old(self)@, self@);
        }
    }

    /// Change the state of a pending key and report its pipeline.
    pub fn set_pending_state(&mut self, key: &XorName, state: VerificationState) -> (r: Option<
        HintPipeline,
    >)
        requires
            old(self).wf(),
        ensures
            final(self).wf(),
            final(self)@ == old(self)@.with_state(*key, state),
            r is Some <==> old(self)@.pending.contains_key(*key),
            r is Some ==> r->0 == old(self)@.pending[*key].pipeline,
    {
        let entry = match self.pending.get(key) {
            Some(e) => *e,
            None => return None,
        };
        self.pending.insert(*key, VerificationEntry { state, ..entry });
        proof {
            assert(self@ =~= old(self)@.with_state(*key, state));
            lemma_with_state_valid(old(self)@, *key, state);
        }
        Some(entry.pipeline)
    }

    /// The pending entry of `key`.
    pub fn get_pending(&self, key: &XorName) -> (r: Option<VerificationEntry>)
        requires
            self.wf(),
        ensures
            r is Some <==> self@.pending.contains_key(*key),
            r is Some ==> r->0 == self@.pending[*key],
    {
        match self.pending.get(key) {
            Some(e) => Some(*e),
            None => None,
        }
    }

    /// All pending keys, each once.
    pub fn pending_keys(&self) -> (r: Vec<XorName>)
        requires
            self.wf(),
        ensures
            r@.no_duplicates(),
            forall|k: XorName| r@.contains(k) <==> #[trigger] self@.pending.contains_key(k),
    {
        let r = self.pending.keys();
        assert forall|k: XorName| r@.contains(k) <==> #[trigger] self@.pending.contains_key(k) by {
            assert(self.pending@.contains_key(k) <==> r@.contains(k));
        }
        r
    }

    /// Drop keys that have been pending for `max_age` or longer.
    pub fn evict_stale(&mut self, now: u64, max_age: u64)
        requires
            old(self).wf(),
        ensures
            final(self).wf(),
            final(self)@ == old(self)@.evicted(now, max_age),
    {
        let keys = self.pending.keys();
        let ghost start = self@;
        for i in 0..keys.len()
            invariant
                self.wf(),
                start == old(self)@,
                start.valid(),
                forall|k: XorName| keys@.contains(k) <==> #[trigger] start.pending.contains_key(k),
                self@ == (QueuesModel { pending: self@.pending, ..start }),
                forall|k: XorName| #[trigger]
                    self@.pending.contains_key(k) <==> start.pending.contains_key(k) && (
                    start.fresh_keys(now, max_age).contains(k) || !keys@.take(i as int).contains(k)),
                forall|k: XorName| #[trigger]
                    self@.pending.contains_key(k) ==> self@.pending[k] == start.pending[k],
        {
            let key = keys[i];
            assert(keys@.contains(key));
            let ghost before = self@;
            let stale = match self.pending.get(&key) {
                Some(entry) => elapsed_ms(now, entry.created_at) >= max_age,
                None => false,
            };
            if stale {
                let _ = self.pending.remove(&key);
                proof {
                    lemma_fewer_pending(before, self@);
                }
            }
            proof {
                let t = keys@.take(i as int);
                assert(keys@.take(i + 1) =~= t.push(key));
                assert forall|k: XorName| #[trigger]
                    self@.pending.contains_key(k) <==> start.pending.contains_key(k) && (
                    start.fresh_keys(now, max_age).contains(k) || !keys@.take(i + 1).contains(
                        k,
                    )) by {
                    assert(before.pending.contains_key(k) <==> start.pending.contains_key(k) && (
                    start.fresh_keys(now, max_age).contains(k) || !t.contains(k)));
                    assert(t.push(key)[t.len() as int] == key);
                    if t.contains(k) {
                        let j = choose|j: int| 0 <= j < t.len() && t[j] == k;
                        assert(t.push(key)[j] == k);
                    }
                    if t.push(key).contains(k) && k != key {
                        let j = choose|j: int| 0 <= j < t.push(key).len() && t.push(key)[j] == k;
                        assert(t[j] == k);
                    }
                }
            }
        }
        proof {
            assert(keys@.take(keys@.len() as int) =~= keys@);
            assert(self@.pending =~= start.pending.restrict(start.fresh_keys(now, max_age)));
        }
    }

    /// Move a pending key to the fetch queue. Without room in the queue the
    /// key stays pending, so that a later cycle can try again.
    pub fn promote_pending_to_fetch(
        &mut self,
        key: XorName,
        distance: [u8; 32],
        sources: Vec<PeerId>,
    ) -> (moved: bool)
        requires
            old(self).wf(),
        ensures
            final(self).wf(),
            moved == old(self)@.can_promote(key),
            final(self)@ == old(self)@.promoted(key, distance, sources@),
    {
        if self.queued.len() >= self.fetch_limit || !self.pending.contains(&key) {
            return false;
        }
        let _ = self.pending.remove(&key);
        self.queued.push(FetchCandidate { key, distance, sources });
        proof {
            let target = old(self)@.promoted(key, distance, sources@);
            assert(self@.queued =~= target.queued);
            assert(self@ =~= target);
            lemma_promoted_valid(old(self)@, key, distance, sources@);
        }
        true
    }

    /// Take the nearest queued candidate.
    pub fn dequeue_fetch(&mut self) -> (r: Option<FetchCandidate>)
        requires
            old(self).wf(),
        ensures
            final(self).wf(),
            match r {
                Some(c) => {
                    &&& is_front(old(self)@.queued, front(old(self)@.queued))
                    &&& c@ == old(self)@.queued[front(old(self)@.queued)]
                    &&& final(self)@ == old(self)@.dequeued()
                    &&& !final(self)@.holds(c.key)
                },
                None => old(self)@.queued.len() == 0 && final(self)@ == old(self)@,
            },
    {
        if self.queued.len() == 0 {
            return None;
        }
        let mut best: usize = 0;
        let ghost queue = self@.queued;
        proof {
            lemma_nearer_irreflexive(queue[0].distance);
        }
        for i in 1..self.queued.len()
            invariant
                best < i,
                i <= self.queued@.len(),
                queue == self@.queued,
                queue.len() == self.queued@.len(),
                is_front(queue.take(i as int), best as int),
        {
            let closer = is_nearer(&self.queued[i].distance, &self.queued[best].distance);
            proof {
                lemma_front_extends(queue, i as int, best as int, closer);
            }
            if closer {
                best = i;
            }
        }
        assert(queue.take(queue.len() as int) =~= queue);
        let candidate = self.queued.remove(best);
        proof {
            lemma_front_unique(queue, best as int);
            assert(self@.queued =~= queue.remove(best as int));
            assert(self@ =~= old(self)@.dequeued());
            lemma_queue_shrinks(old(self)@, self@, best as int);
            assert(old(self)@.is_queued(candidate.key)) by {
                assert(queue[best as int].key == candidate.key);
            }
        }
        Some(candidate)
    }

    /// Record that `source` is being asked for `key`.
    pub fn start_fetch(&mut self, key: XorName, source: PeerId, sources: Vec<PeerId>)
        requires
            old(self).wf(),
            !old(self)@.pending.contains_key(key),
            !old(self)@.is_queued(key),
        ensures
            final(self).wf(),
            final(self)@ == old(self)@.fetching(key, source, sources@),
    {
        self.in_flight.insert(key, InFlightFetch { source, sources, tried: Vec::new() });
        proof {
            let before = old(self)@;
            let after = self@;
            let target = before.fetching(key, source, sources@);
            assert(after.in_flight[key].tried =~= Seq::<PeerId>::empty());
            assert(after.in_flight =~= target.in_flight);
            assert(after =~= target);
            lemma_same_pending(before, after);
        }
    }

    /// Move the fetch of `key` on to its next untried source.
    pub fn retry_fetch(&mut self, key: &XorName) -> (r: Option<PeerId>)
        requires
            old(self).wf(),
        ensures
            final(self).wf(),
            r == old(self)@.next_source(*key),
            final(self)@ == old(self)@.retried(*key),
    {
        let (sources, tried) = match self.in_flight.get(key) {
            Some(f) => {
                let mut tried = copy_peers(&f.tried);
                tried.push(f.source);
                (copy_peers(&f.sources), tried)
            },
            None => return None,
        };
        let ghost all = sources@;
        let ghost used = tried@;
        assert(all.skip(0) =~= all);
        for i in 0..sources.len()
            invariant
                self.wf(),
                self@ == old(self)@,
                self@.in_flight.contains_key(*key),
                all == sources@,
                used == tried@,
                all == self@.in_flight[*key].sources,
                used == self@.in_flight[*key].tried.push(self@.in_flight[*key].source),
                first_untried(all, used) == first_untried(all.skip(i as int), used),
        {
            let next = sources[i];
            assert(all.skip(i as int)[0] == next);
            assert(all.skip(i as int).drop_first() =~= all.skip(i + 1));
            if !lists_peer(&tried, &next) {
                self.in_flight.insert(*key, InFlightFetch { source: next, sources, tried });
                proof {
                    let before = old(self)@;
                    let after = self@;
                    let target = before.retried(*key);
                    assert(after.in_flight =~= target.in_flight);
                    assert(after =~= target);
                    lemma_same_pending(before, after);
                }
                return Some(next);
            }
        }
        assert(all.skip(all.len() as int) =~= Seq::empty());
        None
    }

    /// Forget the fetch of `key`.
    pub fn complete_fetch(&mut self, key: &XorName)
        requires
            old(self).wf(),
        ensures
            final(self).wf(),
            final(self)@ == old(self)@.fetched(*key),
    {
        let _ = self.in_flight.remove(key);
        proof {
            let before = old(self)@;
            let after = self@;
            assert(after.in_flight =~= before.in_flight.remove(*key));
            assert(after =~= before.fetched(*key));
            lemma_same_pending(before, after);
        }
    }
}

/// Dropping pending keys keeps the pipeline valid.
pub proof fn lemma_fewer_pending(before: QueuesModel, after: QueuesModel)
    requires
        before.valid(),
        after == (QueuesModel { pending: after.pending, ..before }),
        after.pending.submap_of(before.pending),
    ensures
        after.valid(),
{
    assert(after.pending.dom().subset_of(before.pending.dom()));
    vstd::set_lib::lemma_len_subset(after.pending.dom(), before.pending.dom());
    assert forall|s: PeerId| #[trigger] after.hinted_by(s).len() <= after.per_source_limit by {
        assert(after.hinted_by(s).subset_of(before.hinted_by(s)));
        assert(before.hinted_by(s).finite());
        vstd::set_lib::lemma_len_subset(after.hinted_by(s), before.hinted_by(s));
        assert(before.hinted_by(s).len() <= before.per_source_limit);
    }
    assert forall|k: XorName| #[trigger] after.pending.contains_key(k) implies !after.is_queued(k)
        && !after.in_flight.contains_key(k) by {
        assert(before.pending.contains_key(k));
        assert(!before.is_queued(k));
    }
    assert forall|k: XorName| #[trigger] after.in_flight.contains_key(k) implies !after.is_queued(
        k,
    ) by {
        assert(before.in_flight.contains_key(k));
        assert(!before.is_queued(k));
    }
}

/// Changing the state of a pending key keeps the pipeline valid.
pub proof fn lemma_with_state_valid(before: QueuesModel, key: XorName, state: VerificationState)
    requires
        before.valid(),
    ensures
        before.with_state(key, state).valid(),
        before.with_state(key, state).pending.dom() == before.pending.dom(),
        forall|k: XorName| before.with_state(key, state).is_queued(k) == #[trigger] before.is_queued(
            k,
        ),
{
    let after = before.with_state(key, state);
    assert(after.pending.dom() =~= before.pending.dom());
    assert forall|s: PeerId| #[trigger] after.hinted_by(s).len() <= after.per_source_limit by {
        assert(after.hinted_by(s) =~= before.hinted_by(s));
        assert(before.hinted_by(s).len() <= before.per_source_limit);
    }
    assert forall|k: XorName| #[trigger] after.pending.contains_key(k) implies !after.is_queued(k)
        && !after.in_flight.contains_key(k) by {
        assert(before.pending.contains_key(k));
        assert(!before.is_queued(k));
    }
}

/// Moving a pending key to the fetch queue keeps the pipeline valid and takes
/// no key out of it.
pub proof fn lemma_promoted_valid(
    before: QueuesModel,
    key: XorName,
    distance: [u8; 32],
    sources: Seq<PeerId>,
)
    requires
        before.valid(),
    ensures
        before.promoted(key, distance, sources).valid(),
        forall|k: XorName| #[trigger]
            before.holds(k) <==> before.promoted(key, distance, sources).holds(k),
        forall|k: XorName|
            k != key ==> before.promoted(key, distance, sources).is_queued(k)
                == #[trigger] before.is_queued(k),
{
    let after = before.promoted(key, distance, sources);
    if before.can_promote(key) {
        let middle = before.without_pending(key);
        lemma_fewer_pending(before, middle);
        assert(after.queued.drop_last() =~= middle.queued);
        assert(!middle.holds(key)) by {
            assert(before.pending.contains_key(key));
            assert(!before.is_queued(key));
        }
        lemma_queue_grows(middle, after, key);
        assert forall|k: XorName| k != key implies after.is_queued(k) == #[trigger] before.is_queued(
            k,
        ) by {
            if after.is_queued(k) {
                let i = choose|i: int|
                    0 <= i < after.queued.len() && #[trigger] after.queued[i].key == k;
                assert(before.queued[i].key == k);
            }
            if before.is_queued(k) {
                let i = choose|i: int|
                    0 <= i < before.queued.len() && #[trigger] before.queued[i].key == k;
                assert(after.queued[i].key == k);
            }
        }
        assert(after.is_queued(key)) by {
            assert(after.queued[before.queued.len() as int].key == key);
        }
        assert forall|k: XorName| #[trigger] before.holds(k) <==> after.holds(k) by {
            if k != key {
                assert(after.is_queued(k) == before.is_queued(k));
            }
        }
    }
}

/// Equal pending stages have equal per-sender shares.
proof fn lemma_same_pending(before: QueuesModel, after: QueuesModel)
    requires
        before.pending == after.pending,
        forall|s: PeerId| #[trigger] before.hinted_by(s).len() <= before.per_source_limit,
        before.per_source_limit == after.per_source_limit,
        before.queued == after.queued,
    ensures
        forall|s: PeerId| #[trigger] after.hinted_by(s).len() <= after.per_source_limit,
        forall|k: XorName| after.is_queued(k) == #[trigger] before.is_queued(k),
{
    assert forall|s: PeerId| #[trigger] after.hinted_by(s).len() <= after.per_source_limit by {
        assert(after.hinted_by(s) =~= before.hinted_by(s));
    }
}

/// Appending a key that is in no stage keeps the pipeline valid.
proof fn lemma_queue_grows(before: QueuesModel, after: QueuesModel, key: XorName)
    requires
        before.valid(),
        !before.holds(key),
        before.queued.len() < before.fetch_limit,
        after == (QueuesModel { queued: after.queued, ..before }),
        after.queued.len() == before.queued.len() + 1,
        after.queued.drop_last() == before.queued,
        after.queued.last().key == key,
    ensures
        after.valid(),
{
    assert(forall|i: int| 0 <= i < before.queued.len() ==> after.queued[i] == before.queued[i]);
    assert forall|k: XorName| after.is_queued(k) implies k == key || before.is_queued(k) by {
        let i = choose|i: int| 0 <= i < after.queued.len() && #[trigger] after.queued[i].key == k;
        if i < before.queued.len() {
            assert(before.queued[i].key == k);
        }
    }
    assert forall|i: int, j: int| 0 <= i < j < after.queued.len() implies #[trigger] after.queued[i].key
        != #[trigger] after.queued[j].key by {
        if j == before.queued.len() {
            if after.queued[i].key == key {
                assert(before.queued[i].key == key);
                assert(before.is_queued(key));
            }
        } else {
            assert(before.queued[i].key != before.queued[j].key);
        }
    }
    assert forall|s: PeerId| #[trigger] after.hinted_by(s).len() <= after.per_source_limit by {
        assert(after.hinted_by(s) =~= before.hinted_by(s));
        assert(before.hinted_by(s).len() <= before.per_source_limit);
    }
}

/// Taking one candidate out keeps the pipeline valid.
proof fn lemma_queue_shrinks(before: QueuesModel, after: QueuesModel, at: int)
    requires
        before.valid(),
        0 <= at < before.queued.len(),
        after == (QueuesModel { queued: before.queued.remove(at), ..before }),
    ensures
        after.valid(),
        !after.is_queued(before.queued[at].key),
        forall|k: XorName| #[trigger] after.is_queued(k) ==> before.is_queued(k),
{
    assert forall|i: int| 0 <= i < after.queued.len() implies #[trigger] after.queued[i]
        == before.queued[if i < at { i } else { i + 1 }] by {}
    assert forall|k: XorName| #[trigger] after.is_queued(k) implies before.is_queued(k) by {
        let i = choose|i: int| 0 <= i < after.queued.len() && #[trigger] after.queued[i].key == k;
        let j = if i < at {
            i
        } else {
            i + 1
        };
        assert(before.queued[j].key == k);
    }
    assert forall|s: PeerId| #[trigger] after.hinted_by(s).len() <= after.per_source_limit by {
        assert(after.hinted_by(s) =~= before.hinted_by(s));
        assert(before.hinted_by(s).len() <= before.per_source_limit);
    }
    if after.is_queued(before.queued[at].key) {
        let k = before.queued[at].key;
        let i = choose|i: int| 0 <= i < after.queued.len() && #[trigger] after.queued[i].key == k;
        let j = if i < at {
            i
        } else {
            i + 1
        };
        assert(before.queued[j].key == before.queued[at].key);
        assert(false) by {
            if j < at {
                assert(before.queued[j].key != before.queued[at].key);
            } else {
                assert(before.queued[at].key != before.queued[j].key);
            }
        }
    }
}

/// Extending the scanned prefix by one candidate keeps the better one in front.
proof fn lemma_front_extends(queue: Seq<CandidateModel>, i: int, best: int, closer: bool)
    requires
        0 < i < queue.len(),
        is_front(queue.take(i), best),
        closer == nearer(queue[i].distance, queue[best].distance),
    ensures
        is_front(
            queue.take(i + 1),
            if closer {
                i
            } else {
                best
            },
        ),
{
    let old_prefix = queue.take(i);
    let prefix = queue.take(i + 1);
    let winner = if closer {
        i
    } else {
        best
    };
    assert forall|j: int| 0 <= j < prefix.len() implies !nearer(
        #[trigger] prefix[j].distance,
        prefix[winner].distance,
    ) by {
        if j < i {
            assert(old_prefix[j] == prefix[j]);
            assert(!nearer(old_prefix[j].distance, old_prefix[best].distance));
            if closer && nearer(prefix[j].distance, queue[i].distance) {
                lemma_nearer_transitive(
                    prefix[j].distance,
                    queue[i].distance,
                    queue[best].distance,
                );
            }
        } else {
            lemma_nearer_irreflexive(queue[i].distance);
        }
    }
    assert forall|j: int| 0 <= j < winner implies nearer(
        prefix[winner].distance,
        #[trigger] prefix[j].distance,
    ) by {
        assert(old_prefix[j] == prefix[j]);
        if closer {
            assert(!nearer(old_prefix[j].distance, old_prefix[best].distance));
            if prefix[j].distance != queue[best].distance {
                lemma_nearer_total(prefix[j].distance, queue[best].distance);
                lemma_nearer_transitive(
                    queue[i].distance,
                    queue[best].distance,
                    prefix[j].distance,
                );
            }
        } else {
            assert(nearer(old_prefix[best].distance, old_prefix[j].distance));
        }
    }
}

// ---------------------------------------------------------------------------
// Laws
// ---------------------------------------------------------------------------

/// When an offered key is let in: a key in any stage is known already; a new
/// key finds no room when as many keys are pending as the bound permits, or as
/// many from this sender as one sender may have; otherwise it is let in.
pub proof fn lemma_admission_cases(queues: QueuesModel, key: XorName, sender: PeerId)
    ensures
        ({
            let known = queues.pending.contains_key(key) || queues.in_flight.contains_key(key) || (
            exists|i: int| 0 <= i < queues.queued.len() && #[trigger] queues.queued[i].key == key);
            let from_sender = queues.pending.dom().filter(
                |k: XorName| queues.pending[k].hint_sender == sender,
            ).len();
            let full = queues.pending.len() >= queues.pending_limit || from_sender
                >= queues.per_source_limit;
            &&& queues.admission(key, sender) is AlreadyPresent <==> known
            &&& queues.admission(key, sender) is CapacityRejected <==> !known && full
            &&& queues.admission(key, sender) is Admitted <==> !known && !full
        }),
{
}

/// Offering a key changes nothing but its own entry: a key that is let in is
/// pending with exactly the offered entry, and an offer that is not let in has
/// no effect. Offering the same key once more finds it known.
pub proof fn lemma_offer_adds_one_entry(
    queues: QueuesModel,
    key: XorName,
    entry: VerificationEntry,
    other: XorName,
    sender: PeerId,
)
    ensures
        ({
            let after = queues.offered(key, entry);
            let result = queues.admission(key, entry.hint_sender);
            &&& result is Admitted ==> after.pending.contains_key(key) && after.pending[key]
                == entry && after.pending.dom() == queues.pending.dom().insert(key)
                && after.admission(key, sender) is AlreadyPresent
            &&& result is Admitted ==> !queues.pending.contains_key(key)
            &&& !(result is Admitted) ==> after == queues
            &&& other != key ==> (after.pending.contains_key(other)
                <==> queues.pending.contains_key(other))
            &&& other != key && queues.pending.contains_key(other) ==> after.pending[other]
                == queues.pending[other]
            &&& after.queued == queues.queued
            &&& after.in_flight == queues.in_flight
            &&& after.pending_limit == queues.pending_limit
            &&& after.per_source_limit == queues.per_source_limit
            &&& after.fetch_limit == queues.fetch_limit
        }),
{
}

/// Dropping a pending key takes out that key and no other, and leaves the
/// other stages alone.
pub proof fn lemma_drop_takes_one_key(queues: QueuesModel, key: XorName, other: XorName)
    ensures
        ({
            let after = queues.without_pending(key);
            &&& !after.pending.contains_key(key)
            &&& other != key ==> (after.pending.contains_key(other)
                <==> queues.pending.contains_key(other))
            &&& other != key && queues.pending.contains_key(other) ==> after.pending[other]
                == queues.pending[other]
            &&& after.queued == queues.queued
            &&& after.in_flight == queues.in_flight
            &&& after.pending_limit == queues.pending_limit
            &&& after.per_source_limit == queues.per_source_limit
            &&& after.fetch_limit == queues.fetch_limit
        }),
{
}

/// A new state of a pending key is the only thing that changes about it, and
/// nothing changes about any other key. A key that is not pending does not
/// become pending.
pub proof fn lemma_state_change_is_local(
    queues: QueuesModel,
    key: XorName,
    state: VerificationState,
    other: XorName,
)
    ensures
        ({
            let after = queues.with_state(key, state);
            &&& after.pending.dom() == queues.pending.dom()
            &&& queues.pending.contains_key(key) ==> {
                &&& after.pending[key].state == state
                &&& after.pending[key].pipeline == queues.pending[key].pipeline
                &&& after.pending[key].created_at == queues.pending[key].created_at
                &&& after.pending[key].hint_sender == queues.pending[key].hint_sender
            }
            &&& other != key && queues.pending.contains_key(other) ==> after.pending[other]
                == queues.pending[other]
            &&& after.queued == queues.queued
            &&& after.in_flight == queues.in_flight
            &&& after.pending_limit == queues.pending_limit
            &&& after.per_source_limit == queues.per_source_limit
            &&& after.fetch_limit == queues.fetch_limit
        }),
{
    assert(queues.with_state(key, state).pending.dom() =~= queues.pending.dom());
}

/// A pending key moves to the fetch queue exactly when the queue has room for
/// one more. It then waits at the end of the queue, with the distance and the
/// sources given, and is pending no longer; otherwise nothing moves.
pub proof fn lemma_promotion_moves_the_key(
    queues: QueuesModel,
    key: XorName,
    distance: [u8; 32],
    sources: Seq<PeerId>,
    other: XorName,
)
    ensures
        ({
            let after = queues.promoted(key, distance, sources);
            let n = queues.queued.len() as int;
            &&& queues.can_promote(key) <==> queues.pending.contains_key(key)
                && queues.queued.len() < queues.fetch_limit
            &&& queues.can_promote(key) ==> {
                &&& !after.pending.contains_key(key)
                &&& after.queued.len() == n + 1
                &&& after.queued[n].key == key
                &&& after.queued[n].distance == distance
                &&& after.queued[n].sources == sources
            }
            &&& !queues.can_promote(key) ==> after == queues
            &&& forall|i: int| 0 <= i < n ==> after.queued[i] == #[trigger] queues.queued[i]
            &&& other != key ==> (after.pending.contains_key(other)
                <==> queues.pending.contains_key(other))
            &&& other != key && queues.pending.contains_key(other) ==> after.pending[other]
                == queues.pending[other]
            &&& after.in_flight == queues.in_flight
            &&& after.pending_limit == queues.pending_limit
            &&& after.per_source_limit == queues.per_source_limit
            &&& after.fetch_limit == queues.fetch_limit
        }),
{
}

/// The key that leaves a fetch queue first is one that no other queued key is
/// nearer than, and of several equally near the one that has waited longest.
/// Those that stay keep their order.
pub proof fn lemma_nearest_leaves_first(queues: QueuesModel)
    requires
        queues.queued.len() > 0,
    ensures
        ({
            let after = queues.dequeued();
            exists|i: int|
                #![trigger queues.queued[i]]
                {
                    &&& 0 <= i < queues.queued.len()
                    &&& forall|j: int|
                        0 <= j < queues.queued.len() ==> !nearer(
                            #[trigger] queues.queued[j].distance,
                            queues.queued[i].distance,
                        )
                    &&& forall|j: int|
                        0 <= j < i ==> nearer(
                            queues.queued[i].distance,
                            #[trigger] queues.queued[j].distance,
                        )
                    &&& after.queued == queues.queued.take(i) + queues.queued.skip(i + 1)
                }
        }),
        queues.dequeued().pending == queues.pending,
        queues.dequeued().in_flight == queues.in_flight,
        queues.dequeued().pending_limit == queues.pending_limit,
        queues.dequeued().per_source_limit == queues.per_source_limit,
        queues.dequeued().fetch_limit == queues.fetch_limit,
{
    lemma_front_exists(queues.queued);
    let f = front(queues.queued);
    assert(queues.dequeued().queued =~= queues.queued.take(f) + queues.queued.skip(f + 1));
    assert(queues.queued.contains(queues.queued[f]));
}

/// A fetch begins with the asked peer as its source and nobody tried, and
/// touches no other fetch; when it ends, its key alone is out of flight.
pub proof fn lemma_fetch_begins_and_ends_alone(
    queues: QueuesModel,
    key: XorName,
    source: PeerId,
    sources: Seq<PeerId>,
    other: XorName,
)
    ensures
        ({
            let begun = queues.fetching(key, source, sources);
            let ended = queues.fetched(key);
            &&& begun.in_flight.contains_key(key)
            &&& begun.in_flight[key].source == source
            &&& begun.in_flight[key].sources == sources
            &&& begun.in_flight[key].tried.len() == 0
            &&& !ended.in_flight.contains_key(key)
            &&& other != key ==> (begun.in_flight.contains_key(other)
                <==> queues.in_flight.contains_key(other)) && (ended.in_flight.contains_key(other)
                <==> queues.in_flight.contains_key(other))
            &&& other != key && queues.in_flight.contains_key(other) ==> begun.in_flight[other]
                == queues.in_flight[other] && ended.in_flight[other] == queues.in_flight[other]
            &&& begun.pending == queues.pending && ended.pending == queues.pending
            &&& begun.queued == queues.queued && ended.queued == queues.queued
            &&& begun.pending_limit == queues.pending_limit && ended.pending_limit
                == queues.pending_limit
            &&& begun.per_source_limit == queues.per_source_limit && ended.per_source_limit
                == queues.per_source_limit
            &&& begun.fetch_limit == queues.fetch_limit && ended.fetch_limit
                == queues.fetch_limit
        }),
{
}

/// A retry asks the first listed source that was neither tried before nor is
/// being asked now, and there is one to ask unless every source was asked. The
/// peer that was being asked counts as tried from then on.
pub proof fn lemma_retry_asks_every_source(queues: QueuesModel, key: XorName, other: XorName)
    ensures
        queues.in_flight.contains_key(key) ==> {
            let f = queues.in_flight[key];
            let after = queues.retried(key);
            &&& queues.next_source(key) is None <==> forall|i: int|
                0 <= i < f.sources.len() ==> f.tried.contains(#[trigger] f.sources[i])
                    || f.sources[i] == f.source
            &&& queues.next_source(key) is None ==> after == queues
            &&& queues.next_source(key) matches Some(next) ==> {
                &&& exists|i: int|
                    {
                        &&& 0 <= i < f.sources.len()
                        &&& #[trigger] f.sources[i] == next
                        &&& !f.tried.contains(next)
                        &&& next != f.source
                        &&& forall|j: int|
                            0 <= j < i ==> f.tried.contains(#[trigger] f.sources[j])
                                || f.sources[j] == f.source
                    }
                &&& after.in_flight.contains_key(key)
                &&& after.in_flight[key].source == next
                &&& after.in_flight[key].sources == f.sources
                &&& after.in_flight[key].tried == f.tried.push(f.source)
            }
        },
        !queues.in_flight.contains_key(key) ==> queues.next_source(key) is None && queues.retried(
            key,
        ) == queues,
        other != key ==> (queues.retried(key).in_flight.contains_key(other)
            <==> queues.in_flight.contains_key(other)),
        other != key && queues.in_flight.contains_key(other) ==> queues.retried(
            key,
        ).in_flight[other] == queues.in_flight[other],
        queues.retried(key).pending == queues.pending,
        queues.retried(key).queued == queues.queued,
{
    if queues.in_flight.contains_key(key) {
        let f = queues.in_flight[key];
        let used = f.tried.push(f.source);
        lemma_first_untried_position(f.sources, used);
        assert forall|p: PeerId| #[trigger] used.contains(p) <==> f.tried.contains(p) || p
            == f.source by {
            lemma_push_contains(f.tried, f.source, p);
        }
        match queues.next_source(key) {
            Some(next) => {
                let i = choose|i: int|
                    0 <= i < f.sources.len() && f.sources[i] == next && forall|j: int|
                        0 <= j < i ==> used.contains(#[trigger] f.sources[j]);
                assert(!used.contains(f.sources[i]));
                assert forall|j: int| 0 <= j < i implies f.tried.contains(#[trigger] f.sources[j])
                    || f.sources[j] == f.source by {
                    assert(used.contains(f.sources[j]));
                }
            },
            None => {
                assert forall|i: int| 0 <= i < f.sources.len() implies f.tried.contains(
                    #[trigger] f.sources[i],
                ) || f.sources[i] == f.source by {
                    assert(used.contains(f.sources[i]));
                }
            },
        }
    }
}

proof fn lemma_first_untried_position(sources: Seq<PeerId>, tried: Seq<PeerId>)
    ensures
        match first_untried(sources, tried) {
            Some(p) => !tried.contains(p) && exists|i: int|
                0 <= i < sources.len() && sources[i] == p && forall|j: int|
                    0 <= j < i ==> tried.contains(#[trigger] sources[j]),
            None => forall|i: int| 0 <= i < sources.len() ==> tried.contains(#[trigger] sources[i]),
        },
    decreases sources.len(),
{
    lemma_first_untried(sources, tried);
    if sources.len() > 0 && tried.contains(sources[0]) {
        let rest = sources.drop_first();
        lemma_first_untried_position(rest, tried);
        if let Some(p) = first_untried(rest, tried) {
            let i = choose|i: int|
                0 <= i < rest.len() && rest[i] == p && forall|j: int|
                    0 <= j < i ==> tried.contains(#[trigger] rest[j]);
            assert(sources[i + 1] == p);
            assert forall|j: int| 0 <= j < i + 1 implies tried.contains(#[trigger] sources[j]) by {
                if j > 0 {
                    assert(rest[j - 1] == sources[j]);
                }
            }
        }
    }
}

/// Keys stay pending for less than `max_age`: after the pass a key is pending
/// exactly when it was pending before and less than `max_age` went by since it
/// came in, where a clock that reads earlier counts as no time. What stays is
/// unchanged, and so are the other stages.
pub proof fn lemma_eviction_goes_by_age(queues: QueuesModel, now: u64, max_age: u64, key: XorName)
    ensures
        ({
            let after = queues.evicted(now, max_age);
            let since = queues.pending[key].created_at;
            &&& after.pending.contains_key(key) <==> queues.pending.contains_key(key) && (if now
                >= since {
                now - since < max_age
            } else {
                0 < max_age
            })
            &&& after.pending.contains_key(key) ==> after.pending[key] == queues.pending[key]
            &&& after.queued == queues.queued
            &&& after.in_flight == queues.in_flight
            &&& after.pending_limit == queues.pending_limit
            &&& after.per_source_limit == queues.per_source_limit
            &&& after.fetch_limit == queues.fetch_limit
        }),
{
}

/// Taking the front of the queue keeps the pipeline valid, and the key that was
/// taken is in no stage.
pub proof fn lemma_dequeued_valid(queues: QueuesModel)
    requires
        queues.valid(),
        queues.queued.len() > 0,
    ensures
        queues.dequeued().valid(),
        !queues.dequeued().holds(queues.queued[front(queues.queued)].key),
{
    let f = front(queues.queued);
    let rest = queues.dequeued();
    lemma_front_exists(queues.queued);
    assert(queues.queued[f].key == queues.queued[f].key);
    assert(queues.is_queued(queues.queued[f].key));
    lemma_queue_shrinks(queues, rest, f);
}

/// Beginning a fetch of a key that is in no stage keeps the pipeline valid.
pub proof fn lemma_fetching_valid(
    queues: QueuesModel,
    key: XorName,
    source: PeerId,
    sources: Seq<PeerId>,
)
    requires
        queues.valid(),
        !queues.holds(key),
    ensures
        queues.fetching(key, source, sources).valid(),
{
    lemma_same_pending(queues, queues.fetching(key, source, sources));
}

} // verus!
