//! Tracking of the replication bootstrap phase.
//!
//! Bootstrap is over once no sync request is outstanding, no source still owes
//! hints that were turned away for lack of room, and no key discovered during
//! bootstrap is left in the pipeline.

use crate::bytemap::ByteSet;
use crate::ids::{PeerId, XorName};
use crate::replication::queues::{QueuesModel, ReplicationQueues};
use crate::seqs::lemma_push_contains;
use vstd::prelude::*;

verus! {

/// Mathematical content of the bootstrap bookkeeping.
#[verifier::ext_equal]
pub struct BootstrapModel {
    /// Whether bootstrap work has drained.
    pub drained: bool,
    /// Outstanding sync requests.
    pub pending_requests: nat,
    /// Keys discovered during bootstrap.
    pub discovered: Set<XorName>,
    /// Sources that must hint again, by their identity bytes.
    pub rejected: Set<[u8; 32]>,
}

impl BootstrapModel {
    /// Whether all bootstrap work is done, given the pipeline.
    pub open spec fn settled(self, queues: QueuesModel) -> bool {
        &&& self.pending_requests == 0
        &&& self.rejected == Set::<[u8; 32]>::empty()
        &&& forall|k: XorName| #[trigger] self.discovered.contains(k) ==> !queues.holds(k)
    }

    /// The bookkeeping after the drain condition was checked.
    pub open spec fn checked(self, queues: QueuesModel) -> BootstrapModel {
        BootstrapModel { drained: self.drained || self.settled(queues), ..self }
    }

    /// The bookkeeping without `keys`.
    pub open spec fn without_keys(self, keys: Seq<XorName>) -> BootstrapModel {
        BootstrapModel { discovered: self.discovered.difference(keys.to_set()), ..self }
    }

    /// The bookkeeping after hints of `source` were admitted: `found` keys are
    /// new, and `turned_away` hints found no room.
    pub open spec fn admitted(
        self,
        source: PeerId,
        found: Set<XorName>,
        turned_away: nat,
    ) -> BootstrapModel {
        BootstrapModel {
            discovered: self.discovered.union(found),
            rejected: if turned_away > 0 {
                self.rejected.insert(source.0)
            } else {
                self.rejected.remove(source.0)
            },
            ..self
        }
    }

    /// The bookkeeping after one more sync request went out.
    pub open spec fn requested(self) -> BootstrapModel {
        BootstrapModel {
            pending_requests: if self.pending_requests < usize::MAX {
                self.pending_requests + 1
            } else {
                self.pending_requests
            },
            ..self
        }
    }

    /// The bookkeeping after one sync request ended.
    pub open spec fn answered(self) -> BootstrapModel {
        BootstrapModel {
            pending_requests: if self.pending_requests > 0 {
                (self.pending_requests - 1) as nat
            } else {
                0
            },
            ..self
        }
    }
}

/// Bootstrap bookkeeping.
pub struct BootstrapState {
    drained: bool,
    pending_requests: usize,
    discovered: ByteSet,
    rejected: ByteSet,
}

impl View for BootstrapState {
    type V = BootstrapModel;

    closed spec fn view(&self) -> BootstrapModel {
        BootstrapModel {
            drained: self.drained,
            pending_requests: self.pending_requests as nat,
            discovered: self.discovered@,
            rejected: self.rejected@,
        }
    }
}

impl BootstrapState {
    /// The representation is sound.
    pub closed spec fn wf(&self) -> bool {
        self.discovered.wf() && self.rejected.wf()
    }

    /// A phase in which nothing has happened yet.
    pub fn new() -> (s: Self)
        ensures
            s.wf(),
            s@ == (BootstrapModel {
                drained: false,
                pending_requests: 0,
                discovered: Set::empty(),
                rejected: Set::empty(),
            }),
    {
        BootstrapState {
            drained: false,
            pending_requests: 0,
            discovered: ByteSet::new(),
            rejected: ByteSet::new(),
        }
    }

    /// Whether bootstrap work has drained.
    pub fn is_drained(&self) -> (r: bool)
        ensures
            r == self@.drained,
    {
        self.drained
    }

    /// Declare bootstrap drained.
    pub fn mark_drained(&mut self)
        requires
            old(self).wf(),
        ensures
            final(self).wf(),
            final(self)@ == (BootstrapModel { drained: true, ..old(self)@ }),
    {
        self.drained = true;
    }

    /// Note that a sync request went out.
    pub fn increment_pending_requests(&mut self)
        requires
            old(self).wf(),
        ensures
            final(self).wf(),
            final(self)@ == old(self)@.requested(),
    {
        if self.pending_requests < usize::MAX {
            self.pending_requests = self.pending_requests + 1;
        }
    }

    /// Note that a sync request ended.
    pub fn decrement_pending_requests(&mut self)
        requires
            old(self).wf(),
        ensures
            final(self).wf(),
            final(self)@ == old(self)@.answered(),
    {
        if self.pending_requests > 0 {
            self.pending_requests = self.pending_requests - 1;
        }
    }

    /// Forget keys that have left the pipeline for good.
    pub fn remove_keys(&mut self, keys: &Vec<XorName>)
        requires
            old(self).wf(),
        ensures
            final(self).wf(),
            final(self)@ == old(self)@.without_keys(keys@),
    {
        let ghost start = self@;
        for i in 0..keys.len()
            invariant
                self.wf(),
                start == old(self)@,
                self@ == (BootstrapModel { discovered: self@.discovered, ..start }),
                forall|k: XorName| #[trigger]
                    self@.discovered.contains(k) <==> start.discovered.contains(k) && !keys@.take(
                        i as int,
                    ).contains(k),
        {
            let key = keys[i];
            self.discovered.remove(&key);
            proof {
                let t = keys@.take(i as int);
                assert(keys@.take(i + 1) =~= t.push(key));
                assert forall|k: XorName| #[trigger]
                    self@.discovered.contains(k) <==> start.discovered.contains(k) && !keys@.take(
                        i + 1,
                    ).contains(k) by {
                    lemma_push_contains(t, key, k);
                }
            }
        }
        proof {
            assert(keys@.take(keys@.len() as int) =~= keys@);
            assert(self@.discovered =~= start.discovered.difference(keys@.to_set()));
        }
    }

    /// Account for hints of `source`: track the keys found, and remember
    /// whether the source must hint again because room ran out.
    pub fn track_admission(
        &mut self,
        source: &PeerId,
        discovered: &ByteSet,
        capacity_rejected_count: usize,
    )
        requires
            old(self).wf(),
            discovered.wf(),
        ensures
            final(self).wf(),
            final(self)@ == old(self)@.admitted(
                *source,
                discovered@,
                capacity_rejected_count as nat,
            ),
    {
        let keys = discovered.to_vec();
        let ghost start = self@;
        for i in 0..keys.len()
            invariant
                self.wf(),
                start == old(self)@,
                self@ == (BootstrapModel { discovered: self@.discovered, ..start }),
                forall|k: XorName| #[trigger]
                    self@.discovered.contains(k) <==> start.discovered.contains(k) || keys@.take(
                        i as int,
                    ).contains(k),
        {
            let key = keys[i];
            self.discovered.insert(key);
            proof {
                let t = keys@.take(i as int);
                assert(keys@.take(i + 1) =~= t.push(key));
                assert forall|k: XorName| #[trigger]
                    self@.discovered.contains(k) <==> start.discovered.contains(k) || keys@.take(
                        i + 1,
                    ).contains(k) by {
                    lemma_push_contains(t, key, k);
                }
            }
        }
        assert(keys@.take(keys@.len() as int) =~= keys@);
        assert(self@.discovered =~= start.discovered.union(discovered@));
        if capacity_rejected_count > 0 {
            self.rejected.insert(source.0);
        } else {
            self.rejected.remove(&source.0);
        }
    }

    /// Check whether bootstrap work has drained, and remember that it has.
    pub fn check_drained(&mut self, queues: &ReplicationQueues) -> (r: bool)
        requires
            old(self).wf(),
            queues.wf(),
        ensures
            final(self).wf(),
            final(self)@ == old(self)@.checked(queues@),
            r == final(self)@.drained,
    {
        if self.drained {
            return true;
        }
        if self.pending_requests > 0 || !self.rejected.is_empty() {
            return false;
        }
        let keys = self.discovered.to_vec();
        for i in 0..keys.len()
            invariant
                self.wf(),
                queues.wf(),
                self@ == old(self)@,
                !self@.drained,
                forall|k: XorName| keys@.contains(k) <==> #[trigger] self@.discovered.contains(k),
                forall|j: int| 0 <= j < i ==> !queues@.holds(#[trigger] keys@[j]),
        {
            if queues.contains_key(&keys[i]) {
                assert(keys@.contains(keys@[i as int]));
                assert(self@.discovered.contains(keys@[i as int]));
                return false;
            }
        }
        proof {
            assert forall|k: XorName| #[trigger] self@.discovered.contains(k) implies !queues@.holds(
                k,
            ) by {
                let j = choose|j: int| 0 <= j < keys@.len() && keys@[j] == k;
                assert(!queues@.holds(keys@[j]));
            }
        }
        self.drained = true;
        true
    }
}

/// While a source owes hints that found no room, a check does not find
/// bootstrap drained.
pub proof fn lemma_rejected_source_blocks_drain(
    state: BootstrapModel,
    queues: QueuesModel,
    source: PeerId,
)
    requires
        !state.drained,
        state.rejected.contains(source.0),
    ensures
        !state.checked(queues).drained,
{
}

/// After hints were turned away, bootstrap cannot drain until the same source
/// went through an admission in which nothing was turned away.
pub proof fn lemma_clean_admission_clears_source(
    state: BootstrapModel,
    queues: QueuesModel,
    source: PeerId,
    found: Set<XorName>,
    turned_away: nat,
)
    requires
        !state.drained,
    ensures
        turned_away > 0 ==> !state.admitted(source, found, turned_away).checked(queues).drained,
        turned_away == 0 ==> !state.admitted(source, found, turned_away).rejected.contains(
            source.0,
        ),
{
    if turned_away > 0 {
        lemma_rejected_source_blocks_drain(
            state.admitted(source, found, turned_away),
            queues,
            source,
        );
    }
}

/// Once drained, bootstrap stays drained whatever is recorded afterwards.
pub proof fn lemma_drained_is_final(
    state: BootstrapModel,
    queues: QueuesModel,
    keys: Seq<XorName>,
    source: PeerId,
    found: Set<XorName>,
    turned_away: nat,
)
    requires
        state.drained,
    ensures
        state.checked(queues).drained,
        state.without_keys(keys).drained,
        state.admitted(source, found, turned_away).drained,
        state.requested().drained,
        state.answered().drained,
{
}

/// Bootstrap is found drained exactly when it was before, or when no sync
/// request is outstanding, no source owes hints, and no key that was discovered
/// is pending, waiting for a fetch or in flight. The check changes nothing else.
pub proof fn lemma_drained_iff_nothing_is_left(state: BootstrapModel, queues: QueuesModel)
    ensures
        state.checked(queues).drained <==> state.drained || {
            &&& state.pending_requests == 0
            &&& forall|s: [u8; 32]| !#[trigger] state.rejected.contains(s)
            &&& forall|k: XorName| #[trigger]
                state.discovered.contains(k) ==> !queues.pending.contains_key(k)
                    && !queues.in_flight.contains_key(k)
            &&& forall|k: XorName, i: int|
                #![trigger state.discovered.contains(k), queues.queued[i]]
                state.discovered.contains(k) && 0 <= i < queues.queued.len()
                    ==> queues.queued[i].key != k
        },
        state.checked(queues).pending_requests == state.pending_requests,
        state.checked(queues).discovered == state.discovered,
        state.checked(queues).rejected == state.rejected,
{
    if forall|s: [u8; 32]| !#[trigger] state.rejected.contains(s) {
        assert(state.rejected =~= Set::empty());
    }
    if state.settled(queues) {
        assert forall|k: XorName, i: int|
            #![trigger state.discovered.contains(k), queues.queued[i]]
            state.discovered.contains(k) && 0 <= i < queues.queued.len() implies queues.queued[i].key
            != k by {
            assert(!queues.holds(k));
            if queues.queued[i].key == k {
                assert(queues.is_queued(k));
            }
        }
    } else if state.pending_requests == 0 && state.rejected == Set::<[u8; 32]>::empty() {
        let k = choose|k: XorName| #[trigger] state.discovered.contains(k) && queues.holds(k);
        if queues.is_queued(k) {
            let i = choose|i: int|
                0 <= i < queues.queued.len() && #[trigger] queues.queued[i].key == k;
            assert(state.discovered.contains(k) && queues.queued[i].key == k);
        }
    }
}

/// Admitted hints add the keys they discovered and no others. Their source must
/// hint again exactly if some hint found no room; what other sources owe, and
/// the number of outstanding requests, stays.
pub proof fn lemma_admission_tracks_source_and_keys(
    state: BootstrapModel,
    source: PeerId,
    found: Set<XorName>,
    turned_away: nat,
    key: XorName,
    other: PeerId,
)
    ensures
        ({
            let after = state.admitted(source, found, turned_away);
            &&& after.discovered.contains(key) <==> state.discovered.contains(key)
                || found.contains(key)
            &&& after.rejected.contains(source.0) <==> turned_away > 0
            &&& other.0 != source.0 ==> (after.rejected.contains(other.0)
                <==> state.rejected.contains(other.0))
            &&& after.pending_requests == state.pending_requests
            &&& after.drained == state.drained
        }),
{
}

/// Forgetting keys takes out exactly those; what is owed and outstanding stays.
pub proof fn lemma_forgotten_keys_are_gone(
    state: BootstrapModel,
    keys: Seq<XorName>,
    key: XorName,
)
    ensures
        state.without_keys(keys).discovered.contains(key) <==> state.discovered.contains(key)
            && !keys.contains(key),
        state.without_keys(keys).pending_requests == state.pending_requests,
        state.without_keys(keys).rejected == state.rejected,
        state.without_keys(keys).drained == state.drained,
{
}

/// The end of a request undoes its beginning, each request is counted once, and
/// the count does not fall below zero.
pub proof fn lemma_requests_are_counted(state: BootstrapModel)
    ensures
        state.pending_requests < usize::MAX ==> state.requested().pending_requests
            == state.pending_requests + 1,
        state.pending_requests < usize::MAX ==> state.requested().answered() == state,
        state.pending_requests > 0 ==> state.answered().pending_requests + 1
            == state.pending_requests,
        state.pending_requests == 0 ==> state.answered() == state,
        state.pending_requests == usize::MAX ==> state.requested() == state,
        state.requested().discovered == state.discovered,
        state.requested().rejected == state.rejected,
        state.requested().drained == state.drained,
        state.answered().discovered == state.discovered,
        state.answered().rejected == state.rejected,
        state.answered().drained == state.drained,
{
}

} // verus!
