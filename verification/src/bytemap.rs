//! A small map and a small set over thirty-two byte identifiers.

use crate::ids::same_bytes;
use vstd::prelude::*;

verus! {

/// Association list in which every key occurs once.
pub struct ByteMap<V> {
    entries: Vec<([u8; 32], V)>,
    model: Ghost<Map<[u8; 32], V>>,
}

impl<V> View for ByteMap<V> {
    type V = Map<[u8; 32], V>;

    closed spec fn view(&self) -> Map<[u8; 32], V> {
        self.model@
    }
}

impl<V> ByteMap<V> {
    /// Every key occurs once, and the list and the map agree.
    pub closed spec fn wf(&self) -> bool {
        &&& self@.dom().finite()
        &&& self@.len() == self.entries@.len()
        &&& forall|i: int|
            #![trigger self.entries@[i]]
            0 <= i < self.entries@.len() ==> self@.contains_key(self.entries@[i].0)
                && self@[self.entries@[i].0] == self.entries@[i].1
        &&& forall|i: int, j: int|
            #![trigger self.entries@[i], self.entries@[j]]
            0 <= i < j < self.entries@.len() ==> self.entries@[i].0 != self.entries@[j].0
        &&& forall|k: [u8; 32]| #[trigger]
            self@.contains_key(k) ==> exists|i: int|
                0 <= i < self.entries@.len() && #[trigger] self.entries@[i].0 == k
    }

    /// An empty map.
    pub fn new() -> (m: Self)
        ensures
            m.wf(),
            m@ == Map::<[u8; 32], V>::empty(),
    {
        ByteMap { entries: Vec::new(), model: Ghost(Map::empty()) }
    }

    /// Number of keys.
    pub fn len(&self) -> (n: usize)
        requires
            self.wf(),
        ensures
            n == self@.len(),
            self@.dom().finite(),
    {
        self.entries.len()
    }

    /// Position of `key` in the list, or the list's length.
    fn position(&self, key: &[u8; 32]) -> (at: usize)
        requires
            self.wf(),
        ensures
            at <= self.entries@.len(),
            at < self.entries@.len() <==> self@.contains_key(*key),
            at < self.entries@.len() ==> self.entries@[at as int].0 == *key,
    {
        let mut i: usize = 0;
        while i < self.entries.len()
            invariant
                self.wf(),
                i <= self.entries@.len(),
                forall|j: int| 0 <= j < i ==> #[trigger] self.entries@[j].0 != *key,
            decreases self.entries@.len() - i,
        {
            if same_bytes(&self.entries[i].0, key) {
                return i;
            }
            i = i + 1;
        }
        i
    }

    /// Whether `key` is present.
    pub fn contains(&self, key: &[u8; 32]) -> (r: bool)
        requires
            self.wf(),
        ensures
            r == self@.contains_key(*key),
    {
        self.position(key) < self.entries.len()
    }

    /// The value stored under `key`.
    pub fn get(&self, key: &[u8; 32]) -> (r: Option<&V>)
        requires
            self.wf(),
        ensures
            r is Some <==> self@.contains_key(*key),
            r is Some ==> *r->0 == self@[*key],
    {
        let i = self.position(key);
        if i < self.entries.len() {
            Some(&self.entries[i].1)
        } else {
            None
        }
    }

    /// Remove `key`, handing back its value.
    pub fn remove(&mut self, key: &[u8; 32]) -> (r: Option<V>)
        requires
            old(self).wf(),
        ensures
            final(self).wf(),
            final(self)@ == old(self)@.remove(*key),
            r is Some <==> old(self)@.contains_key(*key),
            r is Some ==> r->0 == old(self)@[*key],
    {
        let i = self.position(key);
        if i < self.entries.len() {
            let ghost before = self.entries@;
            let (_, value) = self.entries.remove(i);
            self.model = Ghost(self.model@.remove(*key));
            proof {
                let after = self.entries@;
                assert forall|k: [u8; 32]| #[trigger] self@.contains_key(k) implies exists|j: int|
                    0 <= j < after.len() && #[trigger] after[j].0 == k by {
                    let j = choose|j: int| 0 <= j < before.len() && #[trigger] before[j].0 == k;
                    if j < i {
                        assert(after[j].0 == k);
                    } else {
                        assert(after[j - 1].0 == k);
                    }
                }
            }
            Some(value)
        } else {
            assert(self@ =~= self@.remove(*key));
            None
        }
    }

    /// Store `value` under `key`, replacing what was there.
    pub fn insert(&mut self, key: [u8; 32], value: V)
        requires
            old(self).wf(),
        ensures
            final(self).wf(),
            final(self)@ == old(self)@.insert(key, value),
    {
        let ghost original = self@;
        let _ = self.remove(&key);
        let ghost before = self.entries@;
        self.entries.push((key, value));
        self.model = Ghost(self.model@.insert(key, value));
        proof {
            let after = self.entries@;
            assert forall|k: [u8; 32]| #[trigger] self@.contains_key(k) implies exists|j: int|
                0 <= j < after.len() && #[trigger] after[j].0 == k by {
                if k == key {
                    assert(after[before.len() as int].0 == k);
                } else {
                    let j = choose|j: int| 0 <= j < before.len() && #[trigger] before[j].0 == k;
                    assert(after[j].0 == k);
                }
            }
            assert(self@ =~= original.insert(key, value));
        }
    }

    /// All keys, each once.
    pub fn keys(&self) -> (r: Vec<[u8; 32]>)
        requires
            self.wf(),
        ensures
            r@.no_duplicates(),
            r@.len() == self@.len(),
            forall|k: [u8; 32]| r@.contains(k) <==> #[trigger] self@.contains_key(k),
    {
        let mut r: Vec<[u8; 32]> = Vec::new();
        let mut i: usize = 0;
        while i < self.entries.len()
            invariant
                self.wf(),
                i <= self.entries@.len(),
                r@.len() == i,
                forall|j: int| 0 <= j < i ==> #[trigger] r@[j] == self.entries@[j].0,
            decreases self.entries@.len() - i,
        {
            r.push(self.entries[i].0);
            i = i + 1;
        }
        proof {
            assert forall|k: [u8; 32]| r@.contains(k) <==> #[trigger] self@.contains_key(k) by {
                if self@.contains_key(k) {
                    let j = choose|j: int|
                        0 <= j < self.entries@.len() && #[trigger] self.entries@[j].0 == k;
                    assert(r@[j] == k);
                }
                if r@.contains(k) {
                    let j = choose|j: int| 0 <= j < r@.len() && r@[j] == k;
                    assert(self.entries@[j].0 == k);
                }
            }
            assert forall|a: int, b: int| 0 <= a < b < r@.len() implies r@[a] != r@[b] by {
                assert(self.entries@[a].0 != self.entries@[b].0);
            }
        }
        r
    }
}

/// A set of thirty-two byte identifiers.
pub struct ByteSet {
    members: ByteMap<()>,
}

impl View for ByteSet {
    type V = Set<[u8; 32]>;

    closed spec fn view(&self) -> Set<[u8; 32]> {
        self.members@.dom()
    }
}

impl ByteSet {
    /// The underlying list is well formed.
    pub closed spec fn wf(&self) -> bool {
        self.members.wf()
    }

    /// An empty set.
    pub fn new() -> (s: Self)
        ensures
            s.wf(),
            s@ == Set::<[u8; 32]>::empty(),
    {
        let s = ByteSet { members: ByteMap::new() };
        assert(s@ =~= Set::<[u8; 32]>::empty());
        s
    }

    /// Whether the set has no member.
    pub fn is_empty(&self) -> (r: bool)
        requires
            self.wf(),
        ensures
            r == (self@ == Set::<[u8; 32]>::empty()),
    {
        let n = self.members.len();
        proof {
            if n == 0 {
                self@.lemma_len0_is_empty();
            } else {
                assert(self@.len() != 0);
            }
        }
        n == 0
    }

    /// Whether `key` is a member.
    pub fn contains(&self, key: &[u8; 32]) -> (r: bool)
        requires
            self.wf(),
        ensures
            r == self@.contains(*key),
    {
        self.members.contains(key)
    }

    /// Add `key`.
    pub fn insert(&mut self, key: [u8; 32])
        requires
            old(self).wf(),
        ensures
            final(self).wf(),
            final(self)@ == old(self)@.insert(key),
    {
        self.members.insert(key, ());
        assert(self@ =~= old(self)@.insert(key));
    }

    /// Drop `key`.
    pub fn remove(&mut self, key: &[u8; 32])
        requires
            old(self).wf(),
        ensures
            final(self).wf(),
            final(self)@ == old(self)@.remove(*key),
    {
        let _ = self.members.remove(key);
        assert(self@ =~= old(self)@.remove(*key));
    }

    /// All members, each once.
    pub fn to_vec(&self) -> (r: Vec<[u8; 32]>)
        requires
            self.wf(),
        ensures
            r@.no_duplicates(),
            forall|k: [u8; 32]| r@.contains(k) <==> #[trigger] self@.contains(k),
    {
        let r = self.members.keys();
        assert forall|k: [u8; 32]| r@.contains(k) <==> #[trigger] self@.contains(k) by {
            assert(self.members@.contains_key(k) <==> self@.contains(k));
        }
        r
    }
}

} // verus!
