//! Thirty-two byte identifiers of records and peers.

use vstd::prelude::*;

verus! {

/// Content address of a record.
pub type XorName = [u8; 32];

/// Identity of a peer on the network.
#[derive(Clone, Copy, Debug, PartialEq, Eq, Hash)]
pub struct PeerId(pub [u8; 32]);

/// Whether two identifiers hold the same bytes.
pub fn same_bytes(a: &[u8; 32], b: &[u8; 32]) -> (same: bool)
    ensures
        same == (*a == *b),
{
    for i in 0..32usize
        invariant
            forall|j: int| 0 <= j < i ==> a@[j] == b@[j],
    {
        if a[i] != b[i] {
            assert(a@[i as int] != b@[i as int]);
            return false;
        }
    }
    assert(*a =~= *b);
    true
}

/// Whether two peer identities are the same.
pub fn same_peer(a: &PeerId, b: &PeerId) -> (same: bool)
    ensures
        same == (*a == *b),
{
    same_bytes(&a.0, &b.0)
}

/// Whether `peers` lists `peer`.
pub fn lists_peer(peers: &Vec<PeerId>, peer: &PeerId) -> (r: bool)
    ensures
        r == peers@.contains(*peer),
{
    for i in 0..peers.len()
        invariant
            forall|j: int| 0 <= j < i ==> peers@[j] != *peer,
    {
        if same_peer(&peers[i], peer) {
            assert(peers@[i as int] == *peer);
            return true;
        }
    }
    false
}

/// A copy of a list of peers.
pub fn copy_peers(peers: &Vec<PeerId>) -> (r: Vec<PeerId>)
    ensures
        r@ == peers@,
{
    let mut r: Vec<PeerId> = Vec::new();
    for i in 0..peers.len()
        invariant
            r@ == peers@.take(i as int),
    {
        r.push(peers[i]);
        assert(r@ =~= peers@.take(i + 1));
    }
    assert(r@ =~= peers@);
    r
}

/// Kademlia distance between two identifiers: their bytewise exclusive or.
pub open spec fn is_xor_distance(a: [u8; 32], b: [u8; 32], d: [u8; 32]) -> bool {
    forall|i: int| 0 <= i < 32 ==> #[trigger] d@[i] == a@[i] ^ b@[i]
}

/// The distance between two identifiers.
pub open spec fn distance_between(a: [u8; 32], b: [u8; 32]) -> [u8; 32] {
    choose|d: [u8; 32]| is_xor_distance(a, b, d)
}

/// Compute the distance between two identifiers.
pub fn xor_distance(a: &[u8; 32], b: &[u8; 32]) -> (d: [u8; 32])
    ensures
        is_xor_distance(*a, *b, d),
        d == distance_between(*a, *b),
{
    let mut d: [u8; 32] = [0u8; 32];
    for i in 0..32usize
        invariant
            forall|j: int| 0 <= j < i ==> #[trigger] d@[j] == a@[j] ^ b@[j],
    {
        d[i] = a[i] ^ b[i];
    }
    proof {
        assert(is_xor_distance(*a, *b, d));
        let other = distance_between(*a, *b);
        assert(is_xor_distance(*a, *b, other));
        assert forall|i: int| 0 <= i < 32 implies d@[i] == other@[i] by {
            assert(d@[i] == a@[i] ^ b@[i]);
            assert(other@[i] == a@[i] ^ b@[i]);
        }
        assert(d =~= other);
    }
    d
}

/// Big-endian order of two distances: the first differing byte decides.
pub open spec fn nearer(a: [u8; 32], b: [u8; 32]) -> bool {
    exists|i: int|
        0 <= i < 32 && #[trigger] a@[i] < b@[i] && forall|j: int| 0 <= j < i ==> a@[j] == b@[j]
}

/// No distance is nearer than itself.
pub proof fn lemma_nearer_irreflexive(a: [u8; 32])
    ensures
        !nearer(a, a),
{
}

/// The order of distances is transitive.
pub proof fn lemma_nearer_transitive(a: [u8; 32], b: [u8; 32], c: [u8; 32])
    requires
        nearer(a, b),
        nearer(b, c),
    ensures
        nearer(a, c),
{
    let i = choose|i: int|
        0 <= i < 32 && #[trigger] a@[i] < b@[i] && forall|j: int| 0 <= j < i ==> a@[j] == b@[j];
    let k = choose|k: int|
        0 <= k < 32 && #[trigger] b@[k] < c@[k] && forall|j: int| 0 <= j < k ==> b@[j] == c@[j];
    let m = if i < k {
        i
    } else {
        k
    };
    assert(a@[m] < c@[m]);
    assert forall|j: int| 0 <= j < m implies a@[j] == c@[j] by {
        assert(a@[j] == b@[j]);
        assert(b@[j] == c@[j]);
    }
}

/// Two different distances are ordered one way or the other.
pub proof fn lemma_nearer_total(a: [u8; 32], b: [u8; 32])
    requires
        a != b,
    ensures
        nearer(a, b) || nearer(b, a),
{
    if !nearer(a, b) && !nearer(b, a) {
        lemma_common_prefix(a, b, 32);
        assert(a =~= b);
    }
}

proof fn lemma_common_prefix(a: [u8; 32], b: [u8; 32], n: int)
    requires
        0 <= n <= 32,
        !nearer(a, b),
        !nearer(b, a),
    ensures
        forall|j: int| 0 <= j < n ==> a@[j] == b@[j],
    decreases n,
{
    if n > 0 {
        lemma_common_prefix(a, b, n - 1);
        let i = n - 1;
        if a@[i] < b@[i] {
            assert(nearer(a, b));
        } else if b@[i] < a@[i] {
            assert(nearer(b, a));
        }
    }
}

/// Whether distance `a` is strictly smaller than distance `b`.
pub fn is_nearer(a: &[u8; 32], b: &[u8; 32]) -> (r: bool)
    ensures
        r == nearer(*a, *b),
{
    for i in 0..32usize
        invariant
            forall|j: int| 0 <= j < i ==> a@[j] == b@[j],
    {
        if a[i] < b[i] {
            assert(a@[i as int] < b@[i as int]);
            return true;
        }
        if b[i] < a[i] {
            assert(!nearer(*a, *b)) by {
                if nearer(*a, *b) {
                    let k = choose|k: int|
                        0 <= k < 32 && #[trigger] a@[k] < b@[k] && forall|j: int|
                            0 <= j < k ==> a@[j] == b@[j];
                    assert(k >= i);
                    assert(k == i || a@[i as int] == b@[i as int]);
                }
            }
            return false;
        }
    }
    false
}

/// The distance of two identifiers is the exclusive or of their bytes. It is the
/// same both ways, it is zero exactly between an identifier and itself, and with
/// one of the two it gives back the other.
pub proof fn lemma_distance_is_a_metric(a: [u8; 32], b: [u8; 32])
    ensures
        forall|i: int| 0 <= i < 32 ==> #[trigger] distance_between(a, b)@[i] == a@[i] ^ b@[i],
        distance_between(a, b) == distance_between(b, a),
        (forall|i: int| 0 <= i < 32 ==> #[trigger] distance_between(a, b)@[i] == 0) <==> a == b,
        distance_between(distance_between(a, b), b) == a,
{
    lemma_distance_bytes(a, b);
    lemma_distance_bytes(b, a);
    let d = distance_between(a, b);
    let e = distance_between(b, a);
    let back = distance_between(d, b);
    lemma_distance_bytes(d, b);
    assert forall|i: int| 0 <= i < 32 implies d@[i] == e@[i] && back@[i] == a@[i] && (d@[i] == 0
        <==> a@[i] == b@[i]) by {
        let x = a@[i];
        let y = b@[i];
        assert(x ^ y == y ^ x) by (bit_vector);
        assert((x ^ y) ^ y == x) by (bit_vector);
        assert(x ^ y == 0 <==> x == y) by (bit_vector);
    }
    assert(d =~= e);
    assert(back =~= a);
    if forall|i: int| 0 <= i < 32 ==> #[trigger] d@[i] == 0 {
        assert forall|i: int| 0 <= i < 32 implies a@[i] == b@[i] by {
            assert(d@[i] == 0);
        }
        assert(a =~= b);
    }
}

proof fn lemma_distance_bytes(a: [u8; 32], b: [u8; 32])
    ensures
        forall|i: int| 0 <= i < 32 ==> #[trigger] distance_between(a, b)@[i] == a@[i] ^ b@[i],
{
    let d = lemma_distance_exists(a, b, 32);
    assert(is_xor_distance(a, b, d));
}

/// An identifier whose first `n` bytes are those of the distance.
proof fn lemma_distance_exists(a: [u8; 32], b: [u8; 32], n: int) -> (d: [u8; 32])
    requires
        0 <= n <= 32,
    ensures
        forall|i: int| 0 <= i < n ==> #[trigger] d@[i] == a@[i] ^ b@[i],
    decreases n,
{
    if n == 0 {
        a
    } else {
        let shorter = lemma_distance_exists(a, b, n - 1);
        vstd::array::spec_array_update(shorter, n - 1, a@[n - 1] ^ b@[n - 1])
    }
}

/// The number that bytes stand for, most significant first.
pub open spec fn big_endian(bytes: Seq<u8>) -> int
    decreases bytes.len(),
{
    if bytes.len() == 0 {
        0
    } else {
        256 * big_endian(bytes.drop_last()) + bytes.last()
    }
}

/// Distances are ordered as the numbers that their bytes stand for.
pub proof fn lemma_nearer_is_a_smaller_number(a: [u8; 32], b: [u8; 32])
    ensures
        nearer(a, b) <==> big_endian(a@) < big_endian(b@),
        a == b <==> big_endian(a@) == big_endian(b@),
{
    lemma_prefix_order(a@, b@, 32);
    assert(a@.take(32) =~= a@);
    assert(b@.take(32) =~= b@);
    if a@.take(32) == b@.take(32) {
        assert(a =~= b);
    }
}

proof fn lemma_prefix_order(a: Seq<u8>, b: Seq<u8>, n: int)
    requires
        0 <= n <= a.len(),
        a.len() == b.len(),
    ensures
        big_endian(a.take(n)) < big_endian(b.take(n)) <==> exists|i: int|
            0 <= i < n && #[trigger] a[i] < b[i] && forall|j: int| 0 <= j < i ==> a[j] == b[j],
        big_endian(a.take(n)) == big_endian(b.take(n)) <==> a.take(n) == b.take(n),
    decreases n,
{
    if n == 0 {
        assert(a.take(0) =~= b.take(0));
    } else {
        let m = n - 1;
        lemma_prefix_order(a, b, m);
        assert(a.take(n).drop_last() =~= a.take(m));
        assert(b.take(n).drop_last() =~= b.take(m));
        assert(a.take(n).last() == a[m] && b.take(n).last() == b[m]);
        if a.take(m) == b.take(m) {
            assert forall|j: int| 0 <= j < m implies a[j] == b[j] by {
                assert(a.take(m)[j] == b.take(m)[j]);
            }
            if a[m] == b[m] {
                assert(a.take(n) =~= b.take(n));
            } else {
                assert(a.take(n)[m] != b.take(n)[m]);
            }
            if a[m] < b[m] {
                assert(a[m] < b[m] && forall|j: int| 0 <= j < m ==> a[j] == b[j]);
            }
        } else {
            assert(a.take(n) != b.take(n)) by {
                if a.take(n) == b.take(n) {
                    assert(a.take(n).drop_last() == b.take(n).drop_last());
                }
            }
            if forall|k: int| 0 <= k < m ==> a[k] == b[k] {
                assert(a.take(m) =~= b.take(m));
            }
        }
    }
}

} // verus!
