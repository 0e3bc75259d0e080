//! Neighbor-sync cycle: whose turn it is, cooldowns, and bootstrap claims.

use crate::bytemap::ByteMap;
use crate::ids::{same_peer, PeerId};
use crate::seqs::lemma_push_contains;
use crate::replication::types::{elapsed, elapsed_ms, BootstrapClaimObservation, PeerSyncRecord};
use vstd::prelude::*;

verus! {

/// Mathematical content of the sync cycle.
#[verifier::ext_equal]
pub struct SyncModel {
    /// Peers of this cycle, in the order in which they are visited.
    pub order: Seq<PeerId>,
    /// How many of them had their turn.
    pub cursor: nat,
    /// Last sync by peer identity bytes, in milliseconds.
    pub last_sync: Map<[u8; 32], u64>,
    /// Active bootstrap claims: when each was first seen.
    pub claims: Map<[u8; 32], u64>,
    /// Every bootstrap claim ever seen: when each was first seen.
    pub claim_history: Map<[u8; 32], u64>,
    /// Where the next prune pass resumes.
    pub prune_cursor: usize,
}

/// First position of `peer` in `order`, or the length of `order`.
pub open spec fn first_position(order: Seq<PeerId>, peer: PeerId) -> int
    decreases order.len(),
{
    if order.len() == 0 {
        0
    } else if order[0] == peer {
        0
    } else {
        1 + first_position(order.drop_first(), peer)
    }
}

impl SyncModel {
    /// The cursor is within the order and active claims are on record.
    pub open spec fn valid(self) -> bool {
        &&& self.cursor <= self.order.len()
        &&& self.claims.submap_of(self.claim_history)
    }

    /// Whether every peer of the cycle had its turn.
    pub open spec fn cycle_complete(self) -> bool {
        self.cursor >= self.order.len()
    }

    /// Whether `peer` was synced with less than `cooldown` ago.
    pub open spec fn cooling(self, peer: PeerId, now: u64, cooldown: u64) -> bool {
        self.last_sync.contains_key(peer.0) && elapsed(now, self.last_sync[peer.0]) < cooldown
    }

    /// The next `want` peers to sync with. Peers that are cooling down lose
    /// their turn and leave the cycle.
    pub open spec fn selected(self, want: nat, now: u64, cooldown: u64) -> (SyncModel, Seq<PeerId>)
        decreases self.order.len() - self.cursor,
    {
        if want == 0 || self.cursor >= self.order.len() {
            (self, Seq::empty())
        } else {
            let peer = self.order[self.cursor as int];
            if self.cooling(peer, now, cooldown) {
                (SyncModel { order: self.order.remove(self.cursor as int), ..self }).selected(
                    want,
                    now,
                    cooldown,
                )
            } else {
                let rest = (SyncModel { cursor: self.cursor + 1, ..self }).selected(
                    (want - 1) as nat,
                    now,
                    cooldown,
                );
                (rest.0, seq![peer] + rest.1)
            }
        }
    }

    /// The cycle without `peer`.
    pub open spec fn without_peer(self, peer: PeerId) -> SyncModel {
        let at = first_position(self.order, peer);
        if at < self.order.len() {
            SyncModel {
                order: self.order.remove(at),
                cursor: if at < self.cursor {
                    (self.cursor - 1) as nat
                } else {
                    self.cursor
                },
                ..self
            }
        } else {
            self
        }
    }

    /// What a bootstrap claim of `peer` amounts to.
    pub open spec fn observation(
        self,
        peer: PeerId,
        now: u64,
        grace: u64,
    ) -> BootstrapClaimObservation {
        if self.claims.contains_key(peer.0) {
            let first_seen = self.claims[peer.0];
            if elapsed(now, first_seen) > grace {
                BootstrapClaimObservation::PastGrace { first_seen }
            } else {
                BootstrapClaimObservation::WithinGrace { first_seen }
            }
        } else if self.claim_history.contains_key(peer.0) {
            BootstrapClaimObservation::Repeated { first_seen: self.claim_history[peer.0] }
        } else {
            BootstrapClaimObservation::WithinGrace { first_seen: now }
        }
    }

    /// The cycle after a bootstrap claim of `peer` was observed.
    pub open spec fn claimed(self, peer: PeerId, now: u64) -> SyncModel {
        if self.claim_history.contains_key(peer.0) {
            self
        } else {
            SyncModel {
                claims: self.claims.insert(peer.0, now),
                claim_history: self.claim_history.insert(peer.0, now),
                ..self
            }
        }
    }

    /// The cycle after `peer` answered like a node that is not bootstrapping.
    pub open spec fn cleared(self, peer: PeerId) -> SyncModel {
        SyncModel { claims: self.claims.remove(peer.0), ..self }
    }

    /// The cycle after a sync with `peer` succeeded.
    pub open spec fn synced(self, peer: PeerId, now: u64) -> SyncModel {
        SyncModel { last_sync: self.last_sync.insert(peer.0, now), ..self }
    }

    /// The cycle that follows a completed one. Cooldowns, bootstrap claims,
    /// claim history and the prune position carry over.
    pub open spec fn next_cycle(self, neighbors: Seq<PeerId>) -> SyncModel {
        if self.cycle_complete() {
            SyncModel { order: neighbors, cursor: 0, ..self }
        } else {
            self
        }
    }
}

/// The sync cycle.
pub struct NeighborSyncState {
    order: Vec<PeerId>,
    cursor: usize,
    last_sync_times: ByteMap<u64>,
    bootstrap_claims: ByteMap<u64>,
    bootstrap_claim_history: ByteMap<u64>,
    prune_cursor: usize,
}

impl View for NeighborSyncState {
    type V = SyncModel;

    closed spec fn view(&self) -> SyncModel {
        SyncModel {
            order: self.order@,
            cursor: self.cursor as nat,
            last_sync: self.last_sync_times@,
            claims: self.bootstrap_claims@,
            claim_history: self.bootstrap_claim_history@,
            prune_cursor: self.prune_cursor,
        }
    }
}

impl NeighborSyncState {
    /// The representation is sound and its content is valid.
    pub closed spec fn wf(&self) -> bool {
        &&& self.last_sync_times.wf()
        &&& self.bootstrap_claims.wf()
        &&& self.bootstrap_claim_history.wf()
        &&& self@.valid()
    }

    /// The content of a well-formed cycle is valid.
    pub proof fn lemma_valid(&self)
        requires
            self.wf(),
        ensures
            self@.valid(),
    {
    }

    /// A cycle over `neighbors` with nothing remembered.
    pub fn new_cycle(neighbors: Vec<PeerId>) -> (s: Self)
        ensures
            s.wf(),
            s@ == (SyncModel {
                order: neighbors@,
                cursor: 0,
                last_sync: Map::empty(),
                claims: Map::empty(),
                claim_history: Map::empty(),
                prune_cursor: 0,
            }),
    {
        NeighborSyncState {
            order: neighbors,
            cursor: 0,
            last_sync_times: ByteMap::new(),
            bootstrap_claims: ByteMap::new(),
            bootstrap_claim_history: ByteMap::new(),
            prune_cursor: 0,
        }
    }

    /// Whether every peer of the cycle had its turn.
    pub fn is_cycle_complete(&self) -> (r: bool)
        ensures
            r == self@.cycle_complete(),
    {
        self.cursor >= self.order.len()
    }

    /// Begin the next cycle over `neighbors` if this one is complete.
    pub fn start_next_cycle(&mut self, neighbors: Vec<PeerId>)
        requires
            old(self).wf(),
        ensures
            final(self).wf(),
            final(self)@ == old(self)@.next_cycle(neighbors@),
    {
        if self.is_cycle_complete() {
            self.order = neighbors;
            self.cursor = 0;
        }
    }

    /// Move the prune position.
    pub fn set_prune_cursor(&mut self, at: usize)
        requires
            old(self).wf(),
        ensures
            final(self).wf(),
            final(self)@ == (SyncModel { prune_cursor: at, ..old(self)@ }),
    {
        self.prune_cursor = at;
    }

    /// Whether `peer` was synced with less than `cooldown` ago.
    fn is_cooling(&self, peer: &PeerId, now: u64, cooldown: u64) -> (r: bool)
        requires
            self.wf(),
        ensures
            r == self@.cooling(*peer, now, cooldown),
    {
        match self.last_sync_times.get(&peer.0) {
            Some(last) => elapsed_ms(now, *last) < cooldown,
            None => false,
        }
    }

    /// Pick the next peers to sync with, at most `want`.
    pub fn select_sync_batch(&mut self, want: usize, now: u64, cooldown: u64) -> (batch: Vec<
        PeerId,
    >)
        requires
            old(self).wf(),
        ensures
            final(self).wf(),
            (final(self)@, batch@) == old(self)@.selected(want as nat, now, cooldown),
    {
        let mut batch: Vec<PeerId> = Vec::new();
        let ghost goal = self@.selected(want as nat, now, cooldown);
        assert(batch@ + goal.1 =~= goal.1);
        while batch.len() < want && self.cursor < self.order.len()
            invariant
                self.wf(),
                batch@.len() <= want,
                goal == old(self)@.selected(want as nat, now, cooldown),
                goal.0 == self@.selected((want - batch@.len()) as nat, now, cooldown).0,
                goal.1 == batch@ + self@.selected((want - batch@.len()) as nat, now, cooldown).1,
            decreases self.order@.len() - self.cursor,
        {
            let peer = self.order[self.cursor];
            let ghost before = self@;
            let ghost left = (want - batch@.len()) as nat;
            if self.is_cooling(&peer, now, cooldown) {
                let _ = self.order.remove(self.cursor);
                assert(self@ =~= SyncModel {
                    order: before.order.remove(before.cursor as int),
                    ..before
                });
            } else {
                let ghost had = batch@;
                batch.push(peer);
                self.cursor = self.cursor + 1;
                proof {
                    assert(self@ =~= SyncModel { cursor: before.cursor + 1, ..before });
                    let rest = self@.selected((left - 1) as nat, now, cooldown);
                    assert(had + (seq![peer] + rest.1) =~= batch@ + rest.1);
                }
            }
        }
        assert(batch@ + Seq::<PeerId>::empty() =~= batch@);
        batch
    }

    /// Take a peer that could not be reached out of the cycle, and pick a
    /// replacement if there is one.
    pub fn handle_sync_failure(&mut self, peer: &PeerId, now: u64, cooldown: u64) -> (r: Option<
        PeerId,
    >)
        requires
            old(self).wf(),
        ensures
            final(self).wf(),
            final(self)@ == old(self)@.without_peer(*peer).selected(1, now, cooldown).0,
            match r {
                Some(p) => old(self)@.without_peer(*peer).selected(1, now, cooldown).1 == seq![p],
                None => old(self)@.without_peer(*peer).selected(1, now, cooldown).1.len() == 0,
            },
    {
        let mut at: usize = 0;
        let ghost order = self.order@;
        assert(order.skip(0) =~= order);
        while at < self.order.len() && !same_peer(&self.order[at], peer)
            invariant
                at <= self.order@.len(),
                order == self.order@,
                first_position(order, *peer) == at + first_position(order.skip(at as int), *peer),
            decreases self.order@.len() - at,
        {
            assert(order.skip(at as int).drop_first() =~= order.skip(at + 1));
            at = at + 1;
        }
        if at < self.order.len() {
            assert(order.skip(at as int)[0] == *peer);
            let _ = self.order.remove(at);
            if at < self.cursor {
                self.cursor = self.cursor - 1;
            }
        } else {
            assert(order.skip(at as int) =~= Seq::empty());
        }
        assert(self@ =~= old(self)@.without_peer(*peer));
        let picked = self.select_sync_batch(1, now, cooldown);
        proof {
            lemma_selection(old(self)@.without_peer(*peer), 1, now, cooldown);
        }
        if picked.len() > 0 {
            assert(picked@ =~= seq![picked@[0]]);
            Some(picked[0])
        } else {
            None
        }
    }

    /// Remember that a sync with `peer` succeeded.
    pub fn record_successful_sync(&mut self, peer: &PeerId, now: u64)
        requires
            old(self).wf(),
        ensures
            final(self).wf(),
            final(self)@ == old(self)@.synced(*peer, now),
    {
        self.last_sync_times.insert(peer.0, now);
    }

    /// Judge a bootstrap claim of `peer`.
    pub fn observe_bootstrap_claim(&mut self, peer: &PeerId, now: u64, grace: u64) -> (r:
        BootstrapClaimObservation)
        requires
            old(self).wf(),
        ensures
            final(self).wf(),
            r == old(self)@.observation(*peer, now, grace),
            final(self)@ == old(self)@.claimed(*peer, now),
    {
        if let Some(seen) = self.bootstrap_claims.get(&peer.0) {
            let first_seen = *seen;
            assert(self@.claim_history.contains_key(peer.0)) by {
                assert(self@.claims.dom().contains(peer.0));
            }
            if elapsed_ms(now, first_seen) > grace {
                return BootstrapClaimObservation::PastGrace { first_seen };
            }
            return BootstrapClaimObservation::WithinGrace { first_seen };
        }
        if let Some(seen) = self.bootstrap_claim_history.get(&peer.0) {
            return BootstrapClaimObservation::Repeated { first_seen: *seen };
        }
        self.bootstrap_claims.insert(peer.0, now);
        self.bootstrap_claim_history.insert(peer.0, now);
        BootstrapClaimObservation::WithinGrace { first_seen: now }
    }

    /// Drop the active claim of `peer` and keep its history.
    pub fn clear_active_bootstrap_claim(&mut self, peer: &PeerId)
        requires
            old(self).wf(),
        ensures
            final(self).wf(),
            final(self)@ == old(self)@.cleared(*peer),
    {
        let _ = self.bootstrap_claims.remove(&peer.0);
    }
}

/// A selection holds at most `want` peers, none of them cooling down, they are
/// the peers that the cursor passed, and it is shorter only at the end of the
/// cycle. Nothing but the order and the cursor changes.
pub proof fn lemma_selection(state: SyncModel, want: nat, now: u64, cooldown: u64)
    requires
        state.valid(),
    ensures
        ({
            let (after, batch) = state.selected(want, now, cooldown);
            &&& after.valid()
            &&& batch.len() <= want
            &&& after.cursor == state.cursor + batch.len()
            &&& after.order.len() <= state.order.len()
            &&& after.order.subrange(state.cursor as int, after.cursor as int) == batch
            &&& after.order.take(state.cursor as int) == state.order.take(state.cursor as int)
            &&& forall|i: int|
                0 <= i < batch.len() ==> !state.cooling(#[trigger] batch[i], now, cooldown)
            &&& batch.len() < want ==> after.cycle_complete()
            &&& after == (SyncModel { order: after.order, cursor: after.cursor, ..state })
        }),
    decreases state.order.len() - state.cursor,
{
    if want == 0 || state.cursor >= state.order.len() {
        assert(state.order.subrange(state.cursor as int, state.cursor as int) =~= Seq::empty());
    } else {
        let c = state.cursor as int;
        let peer = state.order[c];
        if state.cooling(peer, now, cooldown) {
            let next = SyncModel { order: state.order.remove(c), ..state };
            lemma_selection(next, want, now, cooldown);
            let (after, batch) = next.selected(want, now, cooldown);
            assert(next.order.take(c) =~= state.order.take(c));
            assert forall|i: int| 0 <= i < batch.len() implies !state.cooling(
                #[trigger] batch[i],
                now,
                cooldown,
            ) by {
                assert(!next.cooling(batch[i], now, cooldown));
            }
        } else {
            let next = SyncModel { cursor: state.cursor + 1, ..state };
            lemma_selection(next, (want - 1) as nat, now, cooldown);
            let (after, rest) = next.selected((want - 1) as nat, now, cooldown);
            let batch = seq![peer] + rest;
            assert(after.order.take(c + 1)[c] == state.order.take(c + 1)[c]);
            assert(after.order.subrange(c, after.cursor as int) =~= batch) by {
                assert forall|i: int| 0 < i < batch.len() implies after.order.subrange(
                    c,
                    after.cursor as int,
                )[i] == batch[i] by {
                    assert(after.order.subrange(c + 1, after.cursor as int)[i - 1] == rest[i - 1]);
                }
            }
            assert(after.order.take(c) =~= state.order.take(c)) by {
                assert forall|i: int| 0 <= i < c implies after.order[i] == state.order[i] by {
                    assert(after.order.take(c + 1)[i] == state.order.take(c + 1)[i]);
                }
            }
            assert forall|i: int| 0 <= i < batch.len() implies !state.cooling(
                #[trigger] batch[i],
                now,
                cooldown,
            ) by {
                if i > 0 {
                    assert(!next.cooling(rest[i - 1], now, cooldown));
                }
            }
        }
    }
}

/// A peer that claimed bootstrap, stopped, and claims again gets no second
/// grace period: the claim is judged repeated, at any time and whatever
/// happened in between to cycles, syncs and other peers' claims.
pub proof fn lemma_no_second_grace(
    state: SyncModel,
    peer: PeerId,
    other: PeerId,
    neighbors: Seq<PeerId>,
    want: nat,
    now: u64,
    cooldown: u64,
    later: u64,
    grace: u64,
)
    requires
        state.valid(),
        state.claim_history.contains_key(peer.0),
        other != peer,
    ensures
        state.cleared(peer).observation(peer, later, grace) == (
        BootstrapClaimObservation::Repeated { first_seen: state.claim_history[peer.0] }),
        state.cleared(peer).next_cycle(neighbors).observation(peer, later, grace)
            == state.cleared(peer).observation(peer, later, grace),
        state.cleared(peer).selected(want, now, cooldown).0.observation(peer, later, grace)
            == state.cleared(peer).observation(peer, later, grace),
        state.cleared(peer).synced(peer, now).observation(peer, later, grace) == state.cleared(
            peer,
        ).observation(peer, later, grace),
        state.cleared(peer).claimed(other, now).observation(peer, later, grace) == state.cleared(
            peer,
        ).observation(peer, later, grace),
        state.cleared(peer).claimed(peer, now).observation(peer, later, grace) == state.cleared(
            peer,
        ).observation(peer, later, grace),
{
    lemma_selection(state.cleared(peer), want, now, cooldown);
    assert(other.0 != peer.0);
}

/// A claim is reported only after its grace period: as long as the first claim
/// stays active, it is within grace exactly up to `grace` after it began, and
/// later claims do not move its beginning.
pub proof fn lemma_claim_keeps_its_beginning(
    state: SyncModel,
    peer: PeerId,
    began: u64,
    now: u64,
    later: u64,
    grace: u64,
    neighbors: Seq<PeerId>,
)
    requires
        state.valid(),
        !state.claim_history.contains_key(peer.0),
    ensures
        state.observation(peer, began, grace) == (BootstrapClaimObservation::WithinGrace {
            first_seen: began,
        }),
        ({
            let active = state.claimed(peer, began).next_cycle(neighbors).claimed(peer, now);
            active.observation(peer, later, grace) == if elapsed(later, began) > grace {
                BootstrapClaimObservation::PastGrace { first_seen: began }
            } else {
                BootstrapClaimObservation::WithinGrace { first_seen: began }
            }
        }),
{
    assert(!state.claims.contains_key(peer.0)) by {
        if state.claims.contains_key(peer.0) {
            assert(state.claims.dom().contains(peer.0));
        }
    }
}

/// A new cycle keeps cooldowns, claims, claim history and the prune position.
pub proof fn lemma_cycle_keeps_tracking(
    state: SyncModel,
    neighbors: Seq<PeerId>,
    peer: PeerId,
    now: u64,
    cooldown: u64,
)
    ensures
        state.next_cycle(neighbors).cooling(peer, now, cooldown) == state.cooling(
            peer,
            now,
            cooldown,
        ),
        state.next_cycle(neighbors).claims == state.claims,
        state.next_cycle(neighbors).claim_history == state.claim_history,
        state.next_cycle(neighbors).prune_cursor == state.prune_cursor,
        state.cycle_complete() ==> state.next_cycle(neighbors).order == neighbors
            && state.next_cycle(neighbors).cursor == 0,
        !state.cycle_complete() ==> state.next_cycle(neighbors) == state,
{
}

/// A record that just saw one more local cycle complete.
pub open spec fn aged(record: PeerSyncRecord) -> PeerSyncRecord {
    PeerSyncRecord {
        cycles_since_sync: if record.cycles_since_sync < u32::MAX {
            (record.cycles_since_sync + 1) as u32
        } else {
            record.cycles_since_sync
        },
        ..record
    }
}

/// Sync history of all peers.
pub struct SyncHistory {
    records: ByteMap<PeerSyncRecord>,
}

impl View for SyncHistory {
    type V = Map<[u8; 32], PeerSyncRecord>;

    closed spec fn view(&self) -> Map<[u8; 32], PeerSyncRecord> {
        self.records@
    }
}

impl SyncHistory {
    /// The representation is sound.
    pub closed spec fn wf(&self) -> bool {
        self.records.wf()
    }

    /// An empty history.
    pub fn new() -> (h: Self)
        ensures
            h.wf(),
            h@ == Map::<[u8; 32], PeerSyncRecord>::empty(),
    {
        SyncHistory { records: ByteMap::new() }
    }

    /// The record of `peer`.
    pub fn get(&self, peer: &PeerId) -> (r: Option<PeerSyncRecord>)
        requires
            self.wf(),
        ensures
            r is Some <==> self@.contains_key(peer.0),
            r is Some ==> r->0 == self@[peer.0],
    {
        match self.records.get(&peer.0) {
            Some(r) => Some(*r),
            None => None,
        }
    }

    /// Remember a sync with `peer`.
    pub fn record_sync(&mut self, peer: &PeerId, now: u64)
        requires
            old(self).wf(),
        ensures
            final(self).wf(),
            final(self)@ == old(self)@.insert(
                peer.0,
                PeerSyncRecord { last_sync: Some(now), cycles_since_sync: 0 },
            ),
    {
        self.records.insert(
            peer.0,
            PeerSyncRecord { last_sync: Some(now), cycles_since_sync: 0 },
        );
    }

    /// Count one more completed cycle for every peer.
    pub fn complete_cycle(&mut self)
        requires
            old(self).wf(),
        ensures
            final(self).wf(),
            final(self)@ == old(self)@.map_values(|r: PeerSyncRecord| aged(r)),
    {
        let keys = self.records.keys();
        let ghost start = self@;
        for i in 0..keys.len()
            invariant
                self.wf(),
                start == old(self)@,
                keys@.no_duplicates(),
                forall|k: [u8; 32]| keys@.contains(k) <==> #[trigger] start.contains_key(k),
                self@.dom() == start.dom(),
                forall|k: [u8; 32]| #[trigger]
                    start.contains_key(k) ==> self@[k] == if keys@.take(i as int).contains(k) {
                        aged(start[k])
                    } else {
                        start[k]
                    },
        {
            let key = keys[i];
            assert(keys@.contains(key));
            assert(start.contains_key(key));
            let ghost before = self@;
            assert(before.contains_key(key));
            let ghost t = keys@.take(i as int);
            proof {
                if t.contains(key) {
                    let j = choose|j: int| 0 <= j < t.len() && t[j] == key;
                    assert(keys@[j] == keys@[i as int]);
                }
            }
            if let Some(found) = self.records.get(&key) {
                let record = *found;
                let cycles: u32 = if record.cycles_since_sync < u32::MAX {
                    record.cycles_since_sync + 1
                } else {
                    record.cycles_since_sync
                };
                self.records.insert(
                    key,
                    PeerSyncRecord { last_sync: record.last_sync, cycles_since_sync: cycles },
                );
            }
            proof {
                assert(keys@.take(i + 1) =~= t.push(key));
                assert(self@.dom() =~= start.dom());
                assert forall|k: [u8; 32]| #[trigger] start.contains_key(k) implies self@[k]
                    == if keys@.take(i + 1).contains(k) {
                    aged(start[k])
                } else {
                    start[k]
                } by {
                    lemma_push_contains(t, key, k);
                }
            }
        }
        proof {
            assert(keys@.take(keys@.len() as int) =~= keys@);
            assert(self@ =~= start.map_values(|r: PeerSyncRecord| aged(r)));
        }
    }
}

/// A selection goes through the peers from the cursor on, in order, up to the
/// place `cut`, and takes those that `ready` holds of.
proof fn lemma_selection_is_a_filter(
    state: SyncModel,
    want: nat,
    now: u64,
    cooldown: u64,
    ready: spec_fn(PeerId) -> bool,
) -> (cut: int)
    requires
        state.valid(),
        forall|p: PeerId| #[trigger] ready(p) == !state.cooling(p, now, cooldown),
    ensures
        ({
            let (after, batch) = state.selected(want, now, cooldown);
            let c = state.cursor as int;
            &&& c <= cut <= state.order.len()
            &&& batch == state.order.subrange(c, cut).filter(ready)
            &&& after.order == state.order.take(c) + batch + state.order.skip(cut)
            &&& batch.len() == want || (batch.len() < want && cut == state.order.len())
            &&& want > 0 && batch.len() == want ==> cut > c && ready(state.order[cut - 1])
            &&& want == 0 ==> cut == c
        }),
    decreases state.order.len() - state.cursor,
{
    reveal_with_fuel(Seq::<_>::filter, 2);
    let c = state.cursor as int;
    let order = state.order;
    if want == 0 || c >= order.len() {
        assert(order.subrange(c, c) =~= Seq::empty());
        assert(order.take(c) + Seq::<PeerId>::empty() + order.skip(c) =~= order);
        c
    } else {
        let peer = order[c];
        assert(ready(peer) == !state.cooling(peer, now, cooldown));
        let one = seq![peer];
        assert(one.drop_last() =~= Seq::empty());
        assert(one.filter(ready) =~= if ready(peer) {
            one
        } else {
            Seq::empty()
        });
        if state.cooling(peer, now, cooldown) {
            let next = SyncModel { order: order.remove(c), ..state };
            assert forall|p: PeerId| #[trigger] ready(p) == !next.cooling(p, now, cooldown) by {
                assert(next.cooling(p, now, cooldown) == state.cooling(p, now, cooldown));
            }
            let below = lemma_selection_is_a_filter(next, want, now, cooldown, ready);
            let (after, batch) = next.selected(want, now, cooldown);
            assert(order.subrange(c, below + 1) =~= one + next.order.subrange(c, below));
            Seq::filter_distributes_over_add(one, next.order.subrange(c, below), ready);
            assert(batch =~= order.subrange(c, below + 1).filter(ready));
            assert(next.order.take(c) =~= order.take(c));
            assert(next.order.skip(below) =~= order.skip(below + 1));
            below + 1
        } else {
            let next = SyncModel { cursor: state.cursor + 1, ..state };
            assert forall|p: PeerId| #[trigger] ready(p) == !next.cooling(p, now, cooldown) by {
                assert(next.cooling(p, now, cooldown) == state.cooling(p, now, cooldown));
            }
            let below = lemma_selection_is_a_filter(next, (want - 1) as nat, now, cooldown, ready);
            let (after, rest) = next.selected((want - 1) as nat, now, cooldown);
            let batch = one + rest;
            assert(order.subrange(c, below) =~= one + order.subrange(c + 1, below));
            Seq::filter_distributes_over_add(one, order.subrange(c + 1, below), ready);
            assert(after.order =~= order.take(c) + batch + order.skip(below));
            below
        }
    }
}

/// A peer keeps its turn unless it was synced with less than `cooldown` ago.
/// From the cursor on, the selection takes in order the peers that were never
/// synced with, or at least `cooldown` ago, until it has `want` of them; the
/// others that it comes across leave the cycle, and nobody else does.
pub proof fn lemma_selection_skips_only_recent_peers(
    state: SyncModel,
    want: nat,
    now: u64,
    cooldown: u64,
)
    requires
        state.valid(),
    ensures
        ({
            let (after, batch) = state.selected(want, now, cooldown);
            let c = state.cursor as int;
            let ready = |p: PeerId|
                !state.last_sync.contains_key(p.0) || cooldown == 0 || now - state.last_sync[p.0]
                    >= cooldown;
            &&& after.cursor == c + batch.len()
            &&& exists|cut: int|
                {
                    &&& c <= cut <= state.order.len()
                    &&& batch == state.order.subrange(c, cut).filter(ready)
                    &&& after.order == state.order.take(c) + batch + #[trigger] state.order.skip(
                        cut,
                    )
                    &&& batch.len() == want || (batch.len() < want && cut == state.order.len())
                    &&& want > 0 && batch.len() == want ==> cut > c && ready(state.order[cut - 1])
                    &&& want == 0 ==> cut == c
                }
        }),
{
    let ready = |p: PeerId|
        !state.last_sync.contains_key(p.0) || cooldown == 0 || now - state.last_sync[p.0]
            >= cooldown;
    let cut = lemma_selection_is_a_filter(state, want, now, cooldown, ready);
    lemma_selection(state, want, now, cooldown);
    assert(state.order.skip(cut) == state.order.skip(cut));
}

/// What becomes of one peer of the order. A peer that was never synced with, or
/// at least `cooldown` before `now`, stays in the order, and is selected when
/// it stands at the cursor and there is room. A peer that leaves the order had
/// its last sync less than `cooldown` before `now`. Peers before the cursor
/// stay where they are.
pub proof fn lemma_only_recent_peers_leave_the_order(
    state: SyncModel,
    want: nat,
    now: u64,
    cooldown: u64,
    at: int,
)
    requires
        state.valid(),
        0 <= at < state.order.len(),
    ensures
        ({
            let (after, batch) = state.selected(want, now, cooldown);
            let peer = state.order[at];
            &&& !state.last_sync.contains_key(peer.0) || now - state.last_sync[peer.0] >= cooldown
                ==> after.order.contains(peer)
            &&& !after.order.contains(peer) ==> at >= state.cursor && state.last_sync.contains_key(
                peer.0,
            ) && now - state.last_sync[peer.0] < cooldown
            &&& (!state.last_sync.contains_key(peer.0) || now - state.last_sync[peer.0]
                >= cooldown) && at == state.cursor && want > 0 ==> batch.len() > 0 && batch[0]
                == peer
            &&& at < state.cursor ==> after.order[at] == peer
            &&& forall|i: int|
                0 <= i < batch.len() ==> state.order.contains(#[trigger] batch[i]) && (
                !state.last_sync.contains_key(batch[i].0) || cooldown == 0 || now
                    - state.last_sync[batch[i].0] >= cooldown)
        }),
{
    reveal_with_fuel(Seq::<_>::filter, 2);
    let ready = |p: PeerId|
        !state.last_sync.contains_key(p.0) || cooldown == 0 || now - state.last_sync[p.0]
            >= cooldown;
    let cut = lemma_selection_is_a_filter(state, want, now, cooldown, ready);
    let (after, batch) = state.selected(want, now, cooldown);
    let c = state.cursor as int;
    let peer = state.order[at];
    let seen = state.order.subrange(c, cut);
    assert(after.order == state.order.take(c) + batch + state.order.skip(cut));
    if at < c {
        assert(after.order[at] == peer);
    } else if at >= cut {
        assert(after.order[c + batch.len() + (at - cut)] == peer);
    } else {
        assert(seen[at - c] == peer);
        if ready(peer) {
            seen.lemma_filter_contains(ready, at - c);
            let i = choose|i: int| 0 <= i < batch.len() && batch[i] == peer;
            assert(after.order[c + i] == peer);
        }
    }
    if at == c && want > 0 && ready(peer) {
        assert(seen =~= seq![peer] + seen.skip(1));
        Seq::filter_distributes_over_add(seq![peer], seen.skip(1), ready);
        assert(seq![peer].drop_last() =~= Seq::empty());
        assert(seq![peer].filter(ready) =~= seq![peer]);
        assert(batch[0] == peer);
    }
    assert forall|i: int| 0 <= i < batch.len() implies state.order.contains(#[trigger] batch[i])
        && (!state.last_sync.contains_key(batch[i].0) || cooldown == 0 || now
        - state.last_sync[batch[i].0] >= cooldown) by {
        seen.lemma_filter_pred(ready, i);
        assert(seen.filter(ready).contains(batch[i]));
        seen.lemma_filter_contains_rev(ready, batch[i]);
        let j = choose|j: int| 0 <= j < seen.len() && seen[j] == batch[i];
        assert(state.order[c + j] == batch[i]);
    }
}

/// A peer that could not be reached leaves the cycle at its first place; all
/// others keep their order, and the cursor still stands before the same peer.
pub proof fn lemma_failed_peer_leaves_the_order(state: SyncModel, peer: PeerId)
    requires
        state.valid(),
    ensures
        ({
            let after = state.without_peer(peer);
            &&& after.valid()
            &&& !state.order.contains(peer) ==> after == state
            &&& state.order.contains(peer) ==> exists|at: int|
                {
                    &&& 0 <= at < state.order.len()
                    &&& #[trigger] state.order[at] == peer
                    &&& forall|j: int| 0 <= j < at ==> #[trigger] state.order[j] != peer
                    &&& after.order == state.order.take(at) + state.order.skip(at + 1)
                    &&& after.cursor == if at < state.cursor {
                        state.cursor - 1
                    } else {
                        state.cursor as int
                    }
                }
            &&& after.last_sync == state.last_sync
            &&& after.claims == state.claims
            &&& after.claim_history == state.claim_history
            &&& after.prune_cursor == state.prune_cursor
        }),
{
    lemma_first_position(state.order, peer);
    let at = first_position(state.order, peer);
    if state.order.contains(peer) {
        assert(state.order.remove(at) =~= state.order.take(at) + state.order.skip(at + 1));
        assert(state.order[at] == peer);
    } else {
        if at < state.order.len() {
            assert(state.order.contains(state.order[at]));
        }
    }
}

proof fn lemma_first_position(order: Seq<PeerId>, peer: PeerId)
    ensures
        0 <= first_position(order, peer) <= order.len(),
        first_position(order, peer) < order.len() ==> order[first_position(order, peer)] == peer,
        forall|j: int| 0 <= j < first_position(order, peer) ==> #[trigger] order[j] != peer,
        order.contains(peer) ==> first_position(order, peer) < order.len(),
    decreases order.len(),
{
    if order.len() > 0 && order[0] != peer {
        let rest = order.drop_first();
        lemma_first_position(rest, peer);
        let n = first_position(rest, peer);
        assert forall|j: int| 0 <= j < 1 + n implies #[trigger] order[j] != peer by {
            if j > 0 {
                assert(rest[j - 1] == order[j]);
            }
        }
        if order.contains(peer) {
            let i = choose|i: int| 0 <= i < order.len() && order[i] == peer;
            assert(rest[i - 1] == peer);
        }
    }
}

/// How a bootstrap claim is judged, by what is on record. While the first claim
/// is active it is within grace for `grace` after it was first seen and past
/// grace later; a claim after an ended one is repeated; the first claim ever
/// begins now.
pub proof fn lemma_claim_cases(state: SyncModel, peer: PeerId, now: u64, grace: u64)
    requires
        state.valid(),
    ensures
        ({
            let active = state.claims.contains_key(peer.0);
            let known = state.claim_history.contains_key(peer.0);
            let since = state.claims[peer.0];
            let seen = state.observation(peer, now, grace);
            &&& seen is PastGrace <==> active && now > since + grace
            &&& seen is Repeated <==> !active && known
            &&& seen is WithinGrace <==> !known || (active && now <= since + grace)
            &&& seen matches BootstrapClaimObservation::PastGrace { first_seen } ==> first_seen
                == since
            &&& seen matches BootstrapClaimObservation::Repeated { first_seen } ==> first_seen
                == state.claim_history[peer.0]
            &&& seen matches BootstrapClaimObservation::WithinGrace { first_seen } ==> first_seen
                == if active {
                since
            } else {
                now
            }
        }),
{
    if state.claims.contains_key(peer.0) {
        assert(state.claims.dom().contains(peer.0));
    }
}

/// What a claim, the end of a claim and a sync leave on record. Only the peer's
/// own records change; a claim is recorded at its first occurrence and never
/// again, its end removes the active record alone, and a sync notes the time.
pub proof fn lemma_records_of_a_peer(state: SyncModel, peer: PeerId, now: u64, other: PeerId)
    requires
        state.valid(),
    ensures
        ({
            let claimed = state.claimed(peer, now);
            let cleared = state.cleared(peer);
            let synced = state.synced(peer, now);
            &&& claimed.valid() && cleared.valid() && synced.valid()
            &&& claimed.claim_history.contains_key(peer.0)
            &&& state.claim_history.contains_key(peer.0) ==> claimed == state
            &&& !state.claim_history.contains_key(peer.0) ==> claimed.claims.contains_key(peer.0)
                && claimed.claims[peer.0] == now && claimed.claim_history[peer.0] == now
            &&& !cleared.claims.contains_key(peer.0)
            &&& cleared.claim_history == state.claim_history
            &&& synced.last_sync.contains_key(peer.0) && synced.last_sync[peer.0] == now
            &&& synced.claims == state.claims && synced.claim_history == state.claim_history
            &&& claimed.last_sync == state.last_sync && cleared.last_sync == state.last_sync
            &&& other.0 != peer.0 ==> {
                &&& claimed.claims.contains_key(other.0) <==> state.claims.contains_key(other.0)
                &&& cleared.claims.contains_key(other.0) <==> state.claims.contains_key(other.0)
                &&& claimed.claim_history.contains_key(other.0)
                    <==> state.claim_history.contains_key(other.0)
                &&& synced.last_sync.contains_key(other.0) <==> state.last_sync.contains_key(
                    other.0,
                )
                &&& state.claims.contains_key(other.0) ==> claimed.claims[other.0]
                    == state.claims[other.0] && cleared.claims[other.0] == state.claims[other.0]
                &&& state.claim_history.contains_key(other.0) ==> claimed.claim_history[other.0]
                    == state.claim_history[other.0]
                &&& state.last_sync.contains_key(other.0) ==> synced.last_sync[other.0]
                    == state.last_sync[other.0]
            }
            &&& claimed.order == state.order && claimed.cursor == state.cursor
            &&& cleared.order == state.order && cleared.cursor == state.cursor
            &&& synced.order == state.order && synced.cursor == state.cursor
            &&& claimed.prune_cursor == state.prune_cursor && cleared.prune_cursor
                == state.prune_cursor && synced.prune_cursor == state.prune_cursor
        }),
{
    let claimed = state.claimed(peer, now);
    assert forall|k: [u8; 32]| #[trigger]
        claimed.claims.dom().contains(k) implies claimed.claim_history.dom().contains(k)
        && claimed.claims[k] == claimed.claim_history[k] by {
        if k != peer.0 {
            assert(state.claims.dom().contains(k));
        } else if state.claim_history.contains_key(k) {
            assert(state.claims.dom().contains(k));
        }
    }
    assert forall|k: [u8; 32]| #[trigger]
        state.cleared(peer).claims.dom().contains(k) implies state.claim_history.dom().contains(k)
        && state.cleared(peer).claims[k] == state.claim_history[k] by {
        assert(state.claims.dom().contains(k));
    }
}

/// A cycle is complete once as many peers had their turn as it has, and only
/// then does the next one begin, with the given peers from the first on.
pub proof fn lemma_next_cycle_waits_for_the_last_turn(state: SyncModel, neighbors: Seq<PeerId>)
    requires
        state.valid(),
    ensures
        state.cycle_complete() <==> state.cursor == state.order.len(),
        state.cursor < state.order.len() ==> state.next_cycle(neighbors) == state,
        state.cursor == state.order.len() ==> {
            let next = state.next_cycle(neighbors);
            &&& next.order == neighbors
            &&& next.cursor == 0
            &&& next.last_sync == state.last_sync
            &&& next.claims == state.claims
            &&& next.claim_history == state.claim_history
            &&& next.prune_cursor == state.prune_cursor
        },
{
}

/// One more completed cycle adds one to the count since the last sync, up to
/// the largest count, and keeps the time of that sync.
pub proof fn lemma_cycle_ages_a_record(record: PeerSyncRecord)
    ensures
        aged(record).last_sync == record.last_sync,
        record.cycles_since_sync < u32::MAX ==> aged(record).cycles_since_sync
            == record.cycles_since_sync + 1,
        record.cycles_since_sync == u32::MAX ==> aged(record).cycles_since_sync == u32::MAX,
{
}

/// A selection of one takes the first peer at or behind the cursor that was
/// never synced with, or at least `cooldown` ago, and nobody if there is none.
pub proof fn lemma_first_due_peer_is_selected(state: SyncModel, now: u64, cooldown: u64)
    requires
        state.valid(),
    ensures
        ({
            let batch = state.selected(1, now, cooldown).1;
            let due = |p: PeerId|
                !state.last_sync.contains_key(p.0) || cooldown == 0 || now - state.last_sync[p.0]
                    >= cooldown;
            &&& batch.len() <= 1
            &&& batch.len() == 0 <==> forall|i: int|
                state.cursor <= i < state.order.len() ==> !due(#[trigger] state.order[i])
            &&& batch.len() == 1 ==> exists|i: int|
                {
                    &&& state.cursor <= i < state.order.len()
                    &&& #[trigger] state.order[i] == batch[0]
                    &&& due(state.order[i])
                    &&& forall|j: int| state.cursor <= j < i ==> !due(#[trigger] state.order[j])
                }
        }),
    decreases state.order.len() - state.cursor,
{
    let due = |p: PeerId|
        !state.last_sync.contains_key(p.0) || cooldown == 0 || now - state.last_sync[p.0]
            >= cooldown;
    let c = state.cursor as int;
    if c < state.order.len() {
        let peer = state.order[c];
        if state.cooling(peer, now, cooldown) {
            assert(!due(peer));
            let next = SyncModel { order: state.order.remove(c), ..state };
            lemma_first_due_peer_is_selected(next, now, cooldown);
            let batch = next.selected(1, now, cooldown).1;
            assert(state.selected(1, now, cooldown).1 == batch);
            assert forall|i: int| c <= i < next.order.len() implies #[trigger] next.order[i]
                == state.order[i + 1] by {}
            if batch.len() == 1 {
                let i = choose|i: int|
                    {
                        &&& c <= i < next.order.len()
                        &&& #[trigger] next.order[i] == batch[0]
                        &&& due(next.order[i])
                        &&& forall|j: int| c <= j < i ==> !due(#[trigger] next.order[j])
                    };
                assert(state.order[i + 1] == batch[0]);
                assert forall|j: int| c <= j < i + 1 implies !due(#[trigger] state.order[j]) by {
                    if j > c {
                        assert(next.order[j - 1] == state.order[j]);
                    }
                }
            } else {
                assert forall|i: int| c <= i < state.order.len() implies !due(
                    #[trigger] state.order[i],
                ) by {
                    if i > c {
                        assert(next.order[i - 1] == state.order[i]);
                    }
                }
            }
        } else {
            assert(due(peer));
            let next = SyncModel { cursor: state.cursor + 1, ..state };
            assert(next.selected(0, now, cooldown).1 =~= Seq::empty());
            assert(state.selected(1, now, cooldown).1 =~= seq![peer]);
            assert(state.order[c] == state.selected(1, now, cooldown).1[0]);
        }
    }
}

} // verus!
