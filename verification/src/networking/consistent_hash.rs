//! Consistent hashing over a ring of virtual nodes.
//!
//! Each peer owns `replicas` positions on a 64-bit ring, the FNV hashes of
//! `"{id}-{i}"` for `i < replicas`. A key belongs to the peer owning the first
//! position at or after the key's hash, wrapping around to the first position.
use vstd::prelude::*;
use crate::utils::text::{decimal, format_decimal};
use std::hash::{Hash, Hasher};
use vstd::utf8::encode_utf8;

verus! {

broadcast use vstd::seq_lib::group_to_multiset_ensures;

/// 64-bit FNV-1a over `bytes`: starting from the offset basis
/// 0xcbf29ce484222325, each byte in turn is xored into the state, which is
/// then multiplied by the FNV prime 0x100000001b3, modulo 2^64.
pub open spec fn fnv1a(bytes: Seq<u8>) -> u64
    decreases bytes.len(),
{
    if bytes.len() == 0 {
        0xcbf29ce484222325u64
    } else {
        (((fnv1a(bytes.drop_last()) ^ (bytes.last() as u64)) * 0x100000001b3int) % 0x1_0000_0000_0000_0000int) as u64
    }
}

/// The FNV-1a hash of a string as `Hash for str` feeds it to a hasher: its
/// UTF-8 bytes, then the byte 0xff.
pub open spec fn fnv_hash(s: Seq<char>) -> u64 {
    fnv1a(encode_utf8(s) + seq![0xffu8])
}

/// Hashes a string with `fnv::FnvHasher` through `Hash for str`.
///
/// Trusted: `FnvHasher::default` starts from 0xcbf29ce484222325 and its
/// `write` xors in each byte and multiplies by 0x100000001b3 with wrapping,
/// `finish` returns the state; `Hash for str` writes the string's bytes and
/// then the byte 0xff (`Hasher::write_str`, which `FnvHasher` keeps).
#[verifier::external_body]
pub(crate) fn fnv_hash_str(s: &str) -> (h: u64)
    ensures
        h == fnv_hash(s@),
{
    let mut hasher = fnv::FnvHasher::default();
    s.hash(&mut hasher);
    hasher.finish()
}

/// The ring key of the `i`-th virtual node of peer `id`: `"{id}-{i}"`.
pub open spec fn vnode_key(id: Seq<char>, i: nat) -> Seq<char> {
    id + "-"@ + decimal(i)
}

/// The ring positions of peer number `idx` with identifier `id`, in order.
pub open spec fn vnodes(id: Seq<char>, idx: usize, replicas: nat) -> Seq<(u64, usize)> {
    Seq::new(replicas, |i: int| (fnv_hash(vnode_key(id, i as nat)), idx))
}

/// Ring positions are ordered by hash.
pub open spec fn sorted_by_hash(s: Seq<(u64, usize)>) -> bool {
    forall|i: int, j: int| 0 <= i <= j < s.len() ==> s[i].0 <= s[j].0
}

/// The number of ring positions owned by peer number `j`.
pub open spec fn owned_count(s: Seq<(u64, usize)>, j: usize) -> nat
    decreases s.len(),
{
    if s.len() == 0 {
        0
    } else {
        owned_count(s.drop_last(), j) + if s.last().1 == j { 1nat } else { 0nat }
    }
}

/// The ring after removing peer number `p`: its positions are dropped and
/// the owners after it move down by one, keeping their order.
pub open spec fn without_owner(s: Seq<(u64, usize)>, p: usize) -> Seq<(u64, usize)>
    decreases s.len(),
{
    if s.len() == 0 {
        s
    } else {
        let rest = without_owner(s.drop_last(), p);
        let e = s.last();
        if e.1 == p {
            rest
        } else if e.1 > p {
            rest.push((e.0, (e.1 - 1) as usize))
        } else {
            rest.push(e)
        }
    }
}

/// `i` is the first ring position whose hash is at least `h`, or the ring
/// length when there is none.
pub open spec fn is_successor(s: Seq<(u64, usize)>, h: u64, i: int) -> bool {
    &&& 0 <= i <= s.len()
    &&& forall|k: int| 0 <= k < i ==> s[k].0 < h
    &&& i < s.len() ==> s[i].0 >= h
}

/// The first position with hash at least `h`, or the ring length.
pub open spec fn successor_index(s: Seq<(u64, usize)>, h: u64) -> int {
    choose|i: int| is_successor(s, h, i)
}

/// The owner that a hash `h` maps to on a sorted, non-empty ring: the owner of
/// the first position whose hash is at least `h`, wrapping to the first position.
pub open spec fn successor_owner(s: Seq<(u64, usize)>, h: u64) -> usize {
    let i = successor_index(s, h);
    if i < s.len() { s[i].1 } else { s[0].1 }
}

proof fn lemma_successor_unique(s: Seq<(u64, usize)>, h: u64, i: int)
    requires
        is_successor(s, h, i),
    ensures
        successor_index(s, h) == i,
{
    let j = successor_index(s, h);
    assert(is_successor(s, h, j));
    if j < i {
        assert(s[j].0 < h);
    } else if i < j {
        assert(s[i].0 < h);
    }
}

proof fn lemma_count_concat(a: Seq<(u64, usize)>, b: Seq<(u64, usize)>, j: usize)
    ensures
        owned_count(a + b, j) == owned_count(a, j) + owned_count(b, j),
    decreases b.len(),
{
    if b.len() > 0 {
        lemma_count_concat(a, b.drop_last(), j);
        assert((a + b).drop_last() =~= a + b.drop_last());
    } else {
        assert(a + b =~= a);
    }
}

proof fn lemma_count_vnodes(id: Seq<char>, idx: usize, r: nat, j: usize)
    ensures
        owned_count(vnodes(id, idx, r), j) == if j == idx { r } else { 0 },
    decreases r,
{
    if r > 0 {
        lemma_count_vnodes(id, idx, (r - 1) as nat, j);
        assert(vnodes(id, idx, r).drop_last() =~= vnodes(id, idx, (r - 1) as nat));
    }
}

proof fn lemma_count_absent(s: Seq<(u64, usize)>, j: usize)
    requires
        forall|k: int| 0 <= k < s.len() ==> s[k].1 < j,
    ensures
        owned_count(s, j) == 0,
    decreases s.len(),
{
    if s.len() > 0 {
        assert forall|k: int| 0 <= k < s.drop_last().len() implies s.drop_last()[k].1 < j by {
            assert(s.drop_last()[k] == s[k]);
        }
        lemma_count_absent(s.drop_last(), j);
        assert(s.last() == s[s.len() - 1]);
    }
}

proof fn lemma_count_remove(s: Seq<(u64, usize)>, k: int, j: usize)
    requires
        0 <= k < s.len(),
    ensures
        owned_count(s, j) == owned_count(s.remove(k), j) + if s[k].1 == j { 1nat } else { 0nat },
    decreases s.len(),
{
    if k == s.len() - 1 {
        assert(s.remove(k) =~= s.drop_last());
    } else {
        lemma_count_remove(s.drop_last(), k, j);
        assert(s.remove(k).drop_last() =~= s.drop_last().remove(k));
        assert(s.remove(k).last() == s.last());
    }
}

/// Rearranging a ring keeps the number of positions of every owner.
proof fn lemma_count_permutation(a: Seq<(u64, usize)>, b: Seq<(u64, usize)>, j: usize)
    requires
        a.to_multiset() == b.to_multiset(),
    ensures
        owned_count(a, j) == owned_count(b, j),
    decreases a.len(),
{
    if a.len() == 0 {
        assert(b.to_multiset().len() == 0);
    } else {
        let x = a.last();
        let a0 = a.drop_last();
        assert(a0.push(x) =~= a);
        assert(a.to_multiset() == a0.to_multiset().insert(x));
        assert(a.contains(x)) by {
            assert(a[a.len() - 1] == x);
        }
        assert(b.to_multiset().count(x) > 0);
        assert(b.contains(x));
        let k = choose|k: int| 0 <= k < b.len() && b[k] == x;
        let b0 = b.remove(k);
        assert(b0.to_multiset() == b.to_multiset().remove(x));
        assert(a0.to_multiset() =~= a.to_multiset().remove(x));
        lemma_count_permutation(a0, b0, j);
        lemma_count_remove(b, k, j);
    }
}

proof fn lemma_without_owner_count(s: Seq<(u64, usize)>, p: usize, j: usize)
    ensures
        j < p ==> owned_count(without_owner(s, p), j) == owned_count(s, j),
        p <= j < usize::MAX ==> owned_count(without_owner(s, p), j) == owned_count(s, (j + 1) as usize),
        without_owner(s, p).len() + owned_count(s, p) == s.len(),
    decreases s.len(),
{
    if s.len() > 0 {
        lemma_without_owner_count(s.drop_last(), p, j);
        let rest = without_owner(s.drop_last(), p);
        let e = s.last();
        if e.1 != p {
            let t = without_owner(s, p);
            assert(t.drop_last() == rest);
        }
    }
}

proof fn lemma_without_owner_bound(s: Seq<(u64, usize)>, p: usize, n: nat)
    requires
        forall|k: int| 0 <= k < s.len() ==> s[k].1 < n,
        p < n,
    ensures
        forall|k: int| 0 <= k < without_owner(s, p).len() ==> without_owner(s, p)[k].1 < n - 1,
    decreases s.len(),
{
    if s.len() > 0 {
        assert forall|k: int| 0 <= k < s.drop_last().len() implies s.drop_last()[k].1 < n by {
            assert(s.drop_last()[k] == s[k]);
        }
        lemma_without_owner_bound(s.drop_last(), p, n);
        assert(s.last() == s[s.len() - 1]);
        let rest = without_owner(s.drop_last(), p);
        let e = s.last();
        let t = without_owner(s, p);
        if e.1 != p {
            assert forall|k: int| 0 <= k < t.len() implies t[k].1 < n - 1 by {
                if k < rest.len() {
                    assert(t[k] == rest[k]);
                }
            }
        }
    }
}

/// Sorts ring positions by hash (`slice::sort_by_key`, stable).
///
/// Trusted: the standard library's sort returns the same positions ordered
/// by hash.
#[verifier::external_body]
fn sort_by_hash(v: &mut Vec<(u64, usize)>)
    ensures
        final(v)@.to_multiset() == old(v)@.to_multiset(),
        sorted_by_hash(final(v)@),
{
    v.sort_by_key(|&(h, _)| h);
}

/// The ring key `"{id}-{i}"` as a string.
fn vnode_key_string(id: &str, i: u64) -> (s: String)
    ensures
        s@ == vnode_key(id@, i as nat),
{
    let mut s = String::from_str(id);
    s.append("-");
    let d = format_decimal(i);
    s.append(d.as_str());
    s
}

/// A ring held as two parallel arrays: positions (hashes) and owners.
pub(crate) struct Ring {
    pub(crate) sorted_hashes: Vec<u64>,
    pub(crate) hash_to_index: Vec<usize>,
}

impl Ring {
    pub(crate) open spec fn entries(&self) -> Seq<(u64, usize)> {
        Seq::new(self.sorted_hashes@.len(), |i: int| (self.sorted_hashes@[i], self.hash_to_index@[i]))
    }

    pub(crate) open spec fn wf(&self) -> bool {
        self.sorted_hashes@.len() == self.hash_to_index@.len()
    }

    pub(crate) fn new() -> (r: Ring)
        ensures
            r.wf(),
            r.entries() == Seq::<(u64, usize)>::empty(),
    {
        let r = Ring { sorted_hashes: Vec::new(), hash_to_index: Vec::new() };
        assert(r.entries() =~= Seq::<(u64, usize)>::empty());
        r
    }

    pub(crate) fn len(&self) -> (n: usize)
        requires
            self.wf(),
        ensures
            n == self.entries().len(),
    {
        self.sorted_hashes.len()
    }

    /// Appends the `replicas` positions of owner `idx`.
    pub(crate) fn add_vnodes(&mut self, id: &str, idx: usize, replicas: usize)
        requires
            old(self).wf(),
        ensures
            final(self).wf(),
            final(self).entries() == old(self).entries() + vnodes(id@, idx, replicas as nat),
    {
        let mut i: usize = 0;
        while i < replicas
            invariant
                self.wf(),
                i <= replicas,
                self.entries() == old(self).entries() + vnodes(id@, idx, i as nat),
            decreases replicas - i,
        {
            let key = vnode_key_string(id, i as u64);
            let h = fnv_hash_str(key.as_str());
            let ghost prev = self.entries();
            self.sorted_hashes.push(h);
            self.hash_to_index.push(idx);
            assert(self.entries() =~= prev.push((h, idx)));
            assert(vnodes(id@, idx, (i + 1) as nat) =~= vnodes(id@, idx, i as nat).push((h, idx)));
            i = i + 1;
            assert(self.entries() =~= old(self).entries() + vnodes(id@, idx, i as nat));
        }
    }

    fn from_pairs(pairs: &Vec<(u64, usize)>) -> (r: Ring)
        ensures
            r.wf(),
            r.entries() == pairs@,
    {
        let mut r = Ring { sorted_hashes: Vec::with_capacity(pairs.len()), hash_to_index: Vec::with_capacity(pairs.len()) };
        let mut i: usize = 0;
        while i < pairs.len()
            invariant
                r.wf(),
                i <= pairs@.len(),
                r.entries() == pairs@.subrange(0, i as int),
            decreases pairs@.len() - i,
        {
            let (h, x) = pairs[i];
            let ghost prev = r.entries();
            r.sorted_hashes.push(h);
            r.hash_to_index.push(x);
            assert(r.entries() =~= prev.push((h, x)));
            assert(pairs@.subrange(0, i + 1) =~= pairs@.subrange(0, i as int).push(pairs@[i as int]));
            i = i + 1;
            assert(r.entries() =~= pairs@.subrange(0, i as int));
        }
        assert(pairs@.subrange(0, pairs@.len() as int) =~= pairs@);
        r
    }

    /// Orders the positions by hash.
    pub(crate) fn finalize(&mut self)
        requires
            old(self).wf(),
        ensures
            final(self).wf(),
            final(self).entries().to_multiset() == old(self).entries().to_multiset(),
            sorted_by_hash(final(self).entries()),
    {
        let mut pairs: Vec<(u64, usize)> = Vec::with_capacity(self.sorted_hashes.len());
        let mut i: usize = 0;
        while i < self.sorted_hashes.len()
            invariant
                self.wf(),
                i <= self.entries().len(),
                pairs@ == self.entries().subrange(0, i as int),
            decreases self.entries().len() - i,
        {
            pairs.push((self.sorted_hashes[i], self.hash_to_index[i]));
            i = i + 1;
            assert(pairs@ =~= self.entries().subrange(0, i as int));
        }
        assert(pairs@ =~= self.entries());
        sort_by_hash(&mut pairs);
        *self = Ring::from_pairs(&pairs);
    }

    /// Drops the positions of owner `p`, renumbers the owners after it, and
    /// orders the rest by hash.
    pub(crate) fn remove_owner(&mut self, p: usize)
        requires
            old(self).wf(),
        ensures
            final(self).wf(),
            final(self).entries().to_multiset() == without_owner(old(self).entries(), p).to_multiset(),
            sorted_by_hash(final(self).entries()),
    {
        let ghost old_entries = self.entries();
        let mut pairs: Vec<(u64, usize)> = Vec::new();
        let mut i: usize = 0;
        while i < self.sorted_hashes.len()
            invariant
                self.wf(),
                self.entries() == old_entries,
                i <= old_entries.len(),
                pairs@ == without_owner(old_entries.subrange(0, i as int), p),
            decreases old_entries.len() - i,
        {
            let h = self.sorted_hashes[i];
            let x = self.hash_to_index[i];
            assert(old_entries.subrange(0, i + 1).drop_last() =~= old_entries.subrange(0, i as int));
            if x != p {
                if x > p {
                    pairs.push((h, x - 1));
                } else {
                    pairs.push((h, x));
                }
            }
            i = i + 1;
        }
        assert(old_entries.subrange(0, old_entries.len() as int) =~= old_entries);
        sort_by_hash(&mut pairs);
        *self = Ring::from_pairs(&pairs);
    }

    /// The first position whose hash is at least `h` (binary search).
    pub(crate) fn successor(&self, h: u64) -> (i: usize)
        requires
            self.wf(),
        ensures
            i <= self.entries().len(),
            sorted_by_hash(self.entries()) ==> is_successor(self.entries(), h, i as int),
    {
        let mut lo: usize = 0;
        let mut hi: usize = self.sorted_hashes.len();
        while lo < hi
            invariant
                self.wf(),
                0 <= lo <= hi <= self.entries().len(),
                sorted_by_hash(self.entries()) ==> forall|k: int| 0 <= k < lo ==> self.entries()[k].0 < h,
                sorted_by_hash(self.entries()) ==> forall|k: int| hi <= k < self.entries().len() ==> self.entries()[k].0 >= h,
            decreases hi - lo,
        {
            let mid = lo + (hi - lo) / 2;
            if self.sorted_hashes[mid] < h {
                assert(self.entries()[mid as int].0 < h);
                lo = mid + 1;
            } else {
                assert(self.entries()[mid as int].0 >= h);
                hi = mid;
            }
        }
        lo
    }

    /// The owner of the position that `h` maps to: the first position with a
    /// hash at least `h`, or the first position when there is none.
    pub(crate) fn owner_of(&self, h: u64) -> (r: Option<usize>)
        requires
            self.wf(),
        ensures
            self.entries().len() == 0 <==> r is None,
            r matches Some(o) ==> exists|i: int| 0 <= i < self.entries().len() && self.entries()[i].1 == o,
            sorted_by_hash(self.entries()) && self.entries().len() > 0 ==> r == Some(successor_owner(self.entries(), h)),
    {
        if self.sorted_hashes.len() == 0 {
            return None;
        }
        let i = self.successor(h);
        proof {
            if sorted_by_hash(self.entries()) {
                lemma_successor_unique(self.entries(), h, i as int);
            }
        }
        if i < self.hash_to_index.len() {
            assert(self.entries()[i as int].1 == self.hash_to_index@[i as int]);
            Some(self.hash_to_index[i])
        } else {
            assert(self.entries()[0].1 == self.hash_to_index@[0]);
            Some(self.hash_to_index[0])
        }
    }
}

/// A consistent-hash ring over peers of type `P`.
///
/// Peers are added with [`add_peer`](Self::add_peer) and the ring is ordered
/// once by [`finalize`](Self::finalize); lookups follow the ordered ring.
pub struct ConsistentHash<P> {
    replicas: usize,
    ring: Ring,
    peers: Vec<P>,
    peer_ids: Vec<String>,
}

impl<P> ConsistentHash<P> {
    /// The number of positions each peer takes on the ring.
    pub closed spec fn replica_count(&self) -> nat {
        self.replicas as nat
    }

    /// The ring positions and their owners (indexes into [`peer_list`](Self::peer_list)).
    pub closed spec fn positions(&self) -> Seq<(u64, usize)> {
        self.ring.entries()
    }

    /// The identifiers of the peers, in the order they were added.
    pub closed spec fn peer_list(&self) -> Seq<Seq<char>> {
        string_views(self.peer_ids@)
    }

    /// The peers, in the order they were added.
    pub closed spec fn peer_values(&self) -> Seq<P> {
        self.peers@
    }

    /// Well-formedness: the arrays agree, every owner is a peer, and every
    /// peer owns exactly `replicas` positions.
    pub closed spec fn wf(&self) -> bool {
        &&& self.ring.wf()
        &&& self.peers@.len() == self.peer_ids@.len()
        &&& forall|k: int| 0 <= k < self.ring.entries().len() ==> self.ring.entries()[k].1 < self.peer_ids@.len()
        &&& self.ring.entries().len() == self.replicas * self.peer_ids@.len()
        &&& forall|j: usize| j < self.peer_ids@.len() ==> owned_count(self.ring.entries(), j) == self.replicas
    }

    /// The shape of a well-formed ring: every position belongs to a peer,
    /// every peer owns exactly `replicas` positions, so the ring has
    /// `replicas` times as many positions as there are peers.
    pub proof fn lemma_ring_shape(&self)
        requires
            self.wf(),
        ensures
            self.peer_values().len() == self.peer_list().len(),
            forall|k: int| 0 <= k < self.positions().len() ==> self.positions()[k].1 < self.peer_list().len(),
            forall|j: usize| j < self.peer_list().len() ==> #[trigger] owned_count(self.positions(), j)
                == self.replica_count(),
            self.positions().len() == self.replica_count() * self.peer_list().len(),
    {
    }

    /// An empty ring where each peer will take `replicas` positions.
    pub fn new(replicas: usize) -> (h: Self)
        ensures
            h.wf(),
            h.replica_count() == replicas,
            h.positions().len() == 0,
            h.peer_list().len() == 0,
            h.peer_values().len() == 0,
    {
        let h = ConsistentHash { replicas, ring: Ring::new(), peers: Vec::new(), peer_ids: Vec::new() };
        assert(h.peer_list() =~= Seq::<Seq<char>>::empty());
        h
    }

    /// The number of positions each peer takes on the ring.
    pub fn replicas(&self) -> (r: usize)
        ensures
            r == self.replica_count(),
    {
        self.replicas
    }

    /// The FNV hash used for ring positions and keys.
    pub fn hash(&self, key: &str) -> (h: u64)
        ensures
            h == fnv_hash(key@),
    {
        fnv_hash_str(key)
    }

    /// Adds a peer under identifier `id`, appending its `replicas` positions
    /// (the ring must be finalized again before lookups follow hash order).
    pub fn add_peer(&mut self, peer: P, id: &str)
        requires
            old(self).wf(),
        ensures
            final(self).wf(),
            final(self).replica_count() == old(self).replica_count(),
            final(self).peer_list() == old(self).peer_list().push(id@),
            final(self).peer_values() == old(self).peer_values().push(peer),
            final(self).positions() == old(self).positions()
                + vnodes(id@, old(self).peer_list().len() as usize, old(self).replica_count()),
    {
        let peer_idx = self.peers.len();
        let ghost n = self.peer_ids@.len();
        let ghost old_entries = self.ring.entries();
        self.peers.push(peer);
        self.peer_ids.push(String::from_str(id));
        self.ring.add_vnodes(id, peer_idx, self.replicas);
        proof {
            let e = self.ring.entries();
            let v = vnodes(id@, peer_idx, self.replicas as nat);
            assert(self.peer_list() =~= old(self).peer_list().push(id@));
            assert forall|k: int| 0 <= k < e.len() implies e[k].1 < self.peer_ids@.len() by {
                if k >= old_entries.len() {
                    assert(e[k] == v[k - old_entries.len()]);
                } else {
                    assert(e[k] == old_entries[k]);
                }
            }
            assert(e.len() == self.replicas * (n + 1)) by (nonlinear_arith)
                requires
                    e.len() == old_entries.len() + self.replicas,
                    old_entries.len() == self.replicas * n;
            assert forall|j: usize| j < self.peer_ids@.len() implies owned_count(e, j) == self.replicas by {
                lemma_count_concat(old_entries, v, j);
                lemma_count_vnodes(id@, peer_idx, self.replicas as nat, j);
                if j < n {
                    assert(owned_count(old(self).ring.entries(), j) == old(self).replicas);
                } else {
                    lemma_count_absent(old_entries, j);
                }
            }
        }
    }

    /// Orders the ring by hash; the positions are unchanged as a multiset.
    pub fn finalize(&mut self)
        requires
            old(self).wf(),
        ensures
            final(self).wf(),
            final(self).replica_count() == old(self).replica_count(),
            final(self).peer_list() == old(self).peer_list(),
            final(self).peer_values() == old(self).peer_values(),
            final(self).positions().to_multiset() == old(self).positions().to_multiset(),
            sorted_by_hash(final(self).positions()),
    {
        let ghost old_entries = self.ring.entries();
        self.ring.finalize();
        proof {
            let e = self.ring.entries();
            assert forall|k: int| 0 <= k < e.len() implies e[k].1 < self.peer_ids@.len() by {
                assert(e.to_multiset().count(e[k]) > 0) by {
                    assert(e.contains(e[k]));
                }
                assert(old_entries.contains(e[k]));
            }
            assert(e.to_multiset() == old_entries.to_multiset());
            assert forall|j: usize| j < self.peer_ids@.len() implies owned_count(e, j) == self.replicas by {
                lemma_count_permutation(e, old_entries, j);
                assert(j < old(self).peer_ids@.len());
                assert(owned_count(old(self).ring.entries(), j) == old(self).replicas);
            }
            assert(e.len() == old_entries.len()) by {
                assert(e.to_multiset().len() == old_entries.to_multiset().len());
            }
        }
    }

    /// Removes the first peer added under `id`, with all its positions; the
    /// peers after it move down by one and the ring is ordered by hash.
    /// Nothing changes when no peer has that identifier.
    pub fn remove_peer(&mut self, id: &str)
        requires
            old(self).wf(),
        ensures
            final(self).wf(),
            final(self).replica_count() == old(self).replica_count(),
            match first_index_of(old(self).peer_list(), id@) {
                Some(p) => {
                    &&& final(self).peer_list() == old(self).peer_list().remove(p as int)
                    &&& final(self).peer_values() == old(self).peer_values().remove(p as int)
                    &&& final(self).positions().to_multiset() == without_owner(old(self).positions(), p).to_multiset()
                    &&& sorted_by_hash(final(self).positions())
                },
                None => *final(self) == *old(self),
            },
    {
        let target = String::from_str(id);
        let mut p: usize = 0;
        let mut found = false;
        while p < self.peer_ids.len() && !found
            invariant
                target@ == id@,
                self.wf(),
                *self == *old(self),
                p <= self.peer_ids@.len(),
                found ==> p < self.peer_ids@.len() && self.peer_list()[p as int] == id@,
                forall|k: int| 0 <= k < p ==> self.peer_list()[k] != id@,
            decreases 2 * (self.peer_ids@.len() - p) + if found { 0int } else { 1int },
        {
            assert(self.peer_list()[p as int] == self.peer_ids@[p as int]@);
            if self.peer_ids[p] == target {
                found = true;
            } else {
                p = p + 1;
            }
        }
        if !found {
            proof { lemma_first_index_none(self.peer_list(), id@); }
            return;
        }
        proof { lemma_first_index_some(self.peer_list(), id@, p); }
        let ghost n = self.peer_ids@.len();
        let ghost old_entries = self.ring.entries();
        self.peers.remove(p);
        self.peer_ids.remove(p);
        self.ring.remove_owner(p);
        proof {
            let e = self.ring.entries();
            let w = without_owner(old_entries, p);
            assert(self.peer_list() =~= old(self).peer_list().remove(p as int));
            lemma_without_owner_bound(old_entries, p, n);
            assert forall|k: int| 0 <= k < e.len() implies e[k].1 < self.peer_ids@.len() by {
                assert(e.to_multiset().count(e[k]) > 0) by {
                    assert(e.contains(e[k]));
                }
                assert(w.contains(e[k]));
            }
            lemma_without_owner_count(old_entries, p, p);
            assert(e.len() == w.len()) by {
                assert(e.to_multiset().len() == w.to_multiset().len());
            }
            assert(e.len() == self.replicas * (n - 1)) by (nonlinear_arith)
                requires
                    e.len() + self.replicas == old_entries.len(),
                    old_entries.len() == self.replicas * n,
                    n >= 1;
            assert forall|j: usize| j < self.peer_ids@.len() implies owned_count(e, j) == self.replicas by {
                lemma_count_permutation(e, w, j);
                lemma_without_owner_count(old_entries, p, j);
            }
        }
    }

    /// The number of peers.
    pub fn peer_count(&self) -> (n: usize)
        requires
            self.wf(),
        ensures
            n == self.peer_list().len(),
    {
        self.peer_ids.len()
    }

    /// The identifiers of all peers, in the order they were added.
    pub fn get_all_peers(&self) -> (ids: Vec<String>)
        requires
            self.wf(),
        ensures
            string_views(ids@) == self.peer_list(),
    {
        let mut ids: Vec<String> = Vec::new();
        let mut i: usize = 0;
        while i < self.peer_ids.len()
            invariant
                i <= self.peer_ids@.len(),
                ids@.len() == i,
                string_views(ids@) == self.peer_list().subrange(0, i as int),
            decreases self.peer_ids@.len() - i,
        {
            let c = self.peer_ids[i].clone();
            let ghost prev = ids@;
            ids.push(c);
            assert(ids@ == prev.push(c));
            assert(c@ == self.peer_list()[i as int]);
            assert(string_views(prev) == self.peer_list().subrange(0, i as int));
            i = i + 1;
            assert forall|k: int| 0 <= k < i implies #[trigger] string_views(ids@)[k] == self.peer_list()[k] by {
                if k < i - 1 {
                    assert(ids@[k] == prev[k]);
                    assert(string_views(prev)[k] == self.peer_list().subrange(0, i - 1)[k]);
                }
            }
            assert(string_views(ids@) =~= self.peer_list().subrange(0, i as int));
        }
        assert(self.peer_list().subrange(0, i as int) =~= self.peer_list());
        ids
    }

    /// The number of ring positions: `replicas` times the number of peers.
    pub fn ring_size(&self) -> (n: usize)
        requires
            self.wf(),
        ensures
            n == self.positions().len(),
            n == self.replica_count() * self.peer_list().len(),
    {
        self.ring.len()
    }

    /// The peer a key belongs to: on an ordered ring, the owner of the first
    /// position whose hash is at least the key's hash, wrapping around.
    /// `None` exactly when the ring has no positions.
    pub fn pick_peer(&self, key: &str) -> (r: Option<&P>)
        requires
            self.wf(),
        ensures
            self.positions().len() == 0 <==> r is None,
            r matches Some(p) ==> exists|i: int| 0 <= i < self.peer_values().len() && *p == self.peer_values()[i],
            sorted_by_hash(self.positions()) && self.positions().len() > 0 ==> {
                &&& successor_owner(self.positions(), fnv_hash(key@)) < self.peer_values().len()
                &&& r == Some(&self.peer_values()[successor_owner(self.positions(), fnv_hash(key@)) as int])
            },
    {
        let h = fnv_hash_str(key);
        match self.ring.owner_of(h) {
            Some(o) => {
                proof {
                    let i = choose|i: int| 0 <= i < self.ring.entries().len() && self.ring.entries()[i].1 == o;
                    assert(o < self.peer_ids@.len());
                    assert(self.peer_values()[o as int] == self.peers@[o as int]);
                }
                Some(&self.peers[o])
            },
            None => None,
        }
    }
}

/// The character views of a sequence of strings.
pub open spec fn string_views(s: Seq<String>) -> Seq<Seq<char>> {
    s.map_values(|x: String| x@)
}

/// The first index of `x` in `s`.
pub open spec fn first_index_of(s: Seq<Seq<char>>, x: Seq<char>) -> Option<usize>
    decreases s.len(),
{
    if s.len() == 0 {
        None
    } else {
        match first_index_of(s.drop_last(), x) {
            Some(i) => Some(i),
            None => if s.last() == x { Some((s.len() - 1) as usize) } else { None },
        }
    }
}

proof fn lemma_first_index_none(s: Seq<Seq<char>>, x: Seq<char>)
    requires
        forall|k: int| 0 <= k < s.len() ==> s[k] != x,
    ensures
        first_index_of(s, x) is None,
    decreases s.len(),
{
    if s.len() > 0 {
        assert forall|k: int| 0 <= k < s.drop_last().len() implies s.drop_last()[k] != x by {
            assert(s.drop_last()[k] == s[k]);
        }
        lemma_first_index_none(s.drop_last(), x);
        assert(s.last() == s[s.len() - 1]);
    }
}

proof fn lemma_first_index_some(s: Seq<Seq<char>>, x: Seq<char>, p: usize)
    requires
        p < s.len(),
        s[p as int] == x,
        forall|k: int| 0 <= k < p ==> s[k] != x,
    ensures
        first_index_of(s, x) == Some(p),
    decreases s.len(),
{
    if p == s.len() - 1 {
        assert forall|k: int| 0 <= k < s.drop_last().len() implies s.drop_last()[k] != x by {
            assert(s.drop_last()[k] == s[k]);
        }
        lemma_first_index_none(s.drop_last(), x);
    } else {
        assert(s.drop_last()[p as int] == s[p as int]);
        assert forall|k: int| 0 <= k < p implies s.drop_last()[k] != x by {
            assert(s.drop_last()[k] == s[k]);
        }
        lemma_first_index_some(s.drop_last(), x, p);
    }
}

/// The ring's hash of a key, for clients that pick peers themselves: the
/// same FNV hash the ring gives keys and virtual nodes.
pub fn hash_key(key: &str) -> (h: u64)
    ensures
        h == fnv_hash(key@),
{
    fnv_hash_str(key)
}

/// The number peer number `q` has once peer number `p` is removed.
pub open spec fn renumbered(q: usize, p: usize) -> usize {
    if q > p { (q - 1) as usize } else { q }
}

/// The position that decides where a hash `h` goes: the first one whose hash
/// is at least `h`, or the first position when there is none.
pub open spec fn deciding_index(s: Seq<(u64, usize)>, h: u64) -> int {
    let i = successor_index(s, h);
    if i < s.len() { i } else { 0 }
}

/// No other position shares the hash of position `i`.
pub open spec fn hash_unique_at(s: Seq<(u64, usize)>, i: int) -> bool {
    forall|k: int| 0 <= k < s.len() && k != i ==> s[k].0 != s[i].0
}

proof fn lemma_successor_exists(s: Seq<(u64, usize)>, h: u64)
    requires
        sorted_by_hash(s),
    ensures
        is_successor(s, h, successor_index(s, h)),
    decreases s.len(),
{
    if s.len() == 0 {
        assert(is_successor(s, h, 0));
    } else {
        let s0 = s.drop_last();
        assert(sorted_by_hash(s0)) by {
            assert forall|i: int, j: int| 0 <= i <= j < s0.len() implies s0[i].0 <= s0[j].0 by {
                assert(s0[i] == s[i] && s0[j] == s[j]);
            }
        }
        lemma_successor_exists(s0, h);
        let i0 = successor_index(s0, h);
        assert forall|k: int| 0 <= k < s0.len() implies s0[k] == #[trigger] s[k] by {}
        if i0 < s0.len() {
            assert(is_successor(s, h, i0));
        } else if s[s.len() - 1].0 >= h {
            assert(is_successor(s, h, s.len() - 1));
        } else {
            assert(is_successor(s, h, s.len() as int));
        }
    }
}

proof fn lemma_without_owner_source(s: Seq<(u64, usize)>, p: usize, k: int)
    requires
        0 <= k < without_owner(s, p).len(),
    ensures
        exists|m: int| 0 <= m < s.len() && s[m].1 != p
            && without_owner(s, p)[k] == (s[m].0, renumbered(s[m].1, p)),
    decreases s.len(),
{
    let rest = without_owner(s.drop_last(), p);
    let w = without_owner(s, p);
    let e = s.last();
    if k < rest.len() {
        assert(w[k] == rest[k]);
        lemma_without_owner_source(s.drop_last(), p, k);
        let m = choose|m: int| 0 <= m < s.drop_last().len() && s.drop_last()[m].1 != p
            && rest[k] == (s.drop_last()[m].0, renumbered(s.drop_last()[m].1, p));
        assert(s[m] == s.drop_last()[m]);
    } else {
        assert(s[s.len() - 1] == e);
        assert(w[k] == (e.0, renumbered(e.1, p)));
    }
}

proof fn lemma_without_owner_keeps(s: Seq<(u64, usize)>, p: usize, m: int)
    requires
        0 <= m < s.len(),
        s[m].1 != p,
    ensures
        without_owner(s, p).contains((s[m].0, renumbered(s[m].1, p))),
    decreases s.len(),
{
    let rest = without_owner(s.drop_last(), p);
    let w = without_owner(s, p);
    let x = (s[m].0, renumbered(s[m].1, p));
    if m == s.len() - 1 {
        assert(s.last() == s[m]);
        assert(w[rest.len() as int] == x);
    } else {
        assert(s.drop_last()[m] == s[m]);
        lemma_without_owner_keeps(s.drop_last(), p, m);
        let i = choose|i: int| 0 <= i < rest.len() && rest[i] == x;
        assert(w[i] == rest[i]);
    }
}

/// Removing a peer moves only the keys it owned: on ordered rings before and
/// after peer number `p` is removed, a hash that another peer owned is still
/// owned by that peer (under its new number), provided no other position
/// shares the hash of the position that decided it.
pub proof fn lemma_removal_keeps_other_keys(
    s: Seq<(u64, usize)>,
    t: Seq<(u64, usize)>,
    peers: Seq<Seq<char>>,
    p: usize,
    h: u64,
)
    requires
        sorted_by_hash(s),
        sorted_by_hash(t),
        s.len() > 0,
        forall|k: int| 0 <= k < s.len() ==> s[k].1 < peers.len(),
        p < peers.len(),
        t.to_multiset() == without_owner(s, p).to_multiset(),
        successor_owner(s, h) != p,
        hash_unique_at(s, deciding_index(s, h)),
    ensures
        t.len() > 0,
        successor_owner(t, h) == renumbered(successor_owner(s, h), p),
        peers.remove(p as int)[successor_owner(t, h) as int] == peers[successor_owner(s, h) as int],
{
    lemma_successor_exists(s, h);
    lemma_successor_exists(t, h);
    let w = without_owner(s, p);
    let i = successor_index(s, h);
    let d = deciding_index(s, h);
    let e = s[d];
    assert(successor_owner(s, h) == e.1);
    let x = (e.0, renumbered(e.1, p));
    lemma_without_owner_keeps(s, p, d);
    assert(w.to_multiset().count(x) > 0);
    assert(t.to_multiset().count(x) > 0);
    assert(t.contains(x));
    let q = choose|q: int| 0 <= q < t.len() && t[q] == x;
    assert forall|k: int| 0 <= k < t.len() implies exists|m: int| 0 <= m < s.len() && s[m].1 != p
        && #[trigger] t[k] == (s[m].0, renumbered(s[m].1, p)) by {
        assert(t.contains(t[k]));
        assert(t.to_multiset().count(t[k]) > 0);
        assert(w.to_multiset().count(t[k]) > 0);
        assert(w.contains(t[k]));
        let kk = choose|kk: int| 0 <= kk < w.len() && w[kk] == t[k];
        lemma_without_owner_source(s, p, kk);
    }
    let j = successor_index(t, h);
    if i < s.len() {
        assert(x.0 >= h);
        assert(j <= q);
        let m = choose|m: int| 0 <= m < s.len() && s[m].1 != p && t[j] == (s[m].0, renumbered(s[m].1, p));
        assert(s[m].0 >= h);
        assert(m >= i);
        assert(s[m].0 >= e.0);
        assert(t[j].0 <= t[q].0);
        assert(m == d);
        assert(t[j] == x);
    } else {
        assert(d == 0);
        assert forall|k: int| 0 <= k < t.len() implies t[k].0 < h by {
            let m = choose|m: int| 0 <= m < s.len() && s[m].1 != p && t[k] == (s[m].0, renumbered(s[m].1, p));
        }
        assert(is_successor(t, h, t.len() as int));
        lemma_successor_unique(t, h, t.len() as int);
        let m = choose|m: int| 0 <= m < s.len() && s[m].1 != p && t[0] == (s[m].0, renumbered(s[m].1, p));
        assert(s[0].0 <= s[m].0);
        assert(t[0].0 <= t[q].0);
        assert(m == 0);
        assert(t[0] == x);
    }
    let o = e.1;
    assert(o != p);
    assert(peers.remove(p as int)[renumbered(o, p) as int] == peers[o as int]);
}

/// Adding a peer moves keys only to it: on ordered rings before and after
/// the positions of a new peer number `n` are added, a hash is owned after by
/// the peer that owned it before or by the new peer, provided no other
/// position of the ring before shares the hash of the position that decided
/// it. On a ring that was empty, every hash goes to the new peer.
pub proof fn lemma_addition_moves_keys_only_to_new_peer(
    s: Seq<(u64, usize)>,
    t: Seq<(u64, usize)>,
    id: Seq<char>,
    n: usize,
    replicas: nat,
    h: u64,
)
    requires
        sorted_by_hash(s),
        sorted_by_hash(t),
        t.to_multiset() == (s + vnodes(id, n, replicas)).to_multiset(),
        hash_unique_at(s, deciding_index(s, h)),
    ensures
        t.len() == s.len() + replicas,
        t.len() > 0 ==> successor_owner(t, h) == n
            || (s.len() > 0 && successor_owner(t, h) == successor_owner(s, h)),
{
    let v = vnodes(id, n, replicas);
    let sv = s + v;
    assert(t.len() == t.to_multiset().len() && sv.len() == sv.to_multiset().len()) by {
        broadcast use vstd::seq_lib::group_to_multiset_ensures;
    }
    if s.len() > 0 {
        lemma_addition_nonempty(s, t, id, n, replicas, h);
    } else if t.len() > 0 {
        lemma_successor_exists(t, h);
        let x = t[deciding_index(t, h)];
        assert(t.contains(x));
        assert(t.to_multiset().count(x) > 0);
        assert(sv.to_multiset().count(x) > 0);
        assert(sv.contains(x));
        let kk = choose|kk: int| 0 <= kk < sv.len() && sv[kk] == x;
        assert(sv[kk] == v[kk]);
    }
}

/// Removing a peer moves only the keys it owned, stated over the peers a
/// lookup gives: when `after` is `before` with peer number `p` removed and
/// both rings are ordered, a key whose peer before was not peer `p` gets the
/// same peer after, provided no other position shares the hash of the
/// position that decided the key before.
pub proof fn lemma_lookup_after_removal<P>(before: ConsistentHash<P>, after: ConsistentHash<P>, p: usize, key: Seq<char>)
    requires
        before.wf(),
        after.wf(),
        sorted_by_hash(before.positions()),
        sorted_by_hash(after.positions()),
        p < before.peer_list().len(),
        after.peer_values() == before.peer_values().remove(p as int),
        after.positions().to_multiset() == without_owner(before.positions(), p).to_multiset(),
        before.positions().len() > 0,
        successor_owner(before.positions(), fnv_hash(key)) != p,
        hash_unique_at(before.positions(), deciding_index(before.positions(), fnv_hash(key))),
    ensures
        after.positions().len() > 0,
        after.peer_values()[successor_owner(after.positions(), fnv_hash(key)) as int]
            == before.peer_values()[successor_owner(before.positions(), fnv_hash(key)) as int],
{
    let h = fnv_hash(key);
    let s = before.positions();
    before.lemma_ring_shape();
    lemma_removal_keeps_other_keys(s, after.positions(), before.peer_list(), p, h);
    lemma_successor_exists(s, h);
    let i = successor_index(s, h);
    if i < s.len() {
        assert(s[i].1 < before.peer_list().len());
    } else {
        assert(s[0].1 < before.peer_list().len());
    }
}

/// Adding a peer moves keys only to it, stated over the peers a lookup
/// gives: when `after` is `before` with peer `q` added under `id` and both
/// rings are ordered, the peer that [`ConsistentHash::pick_peer`] gives for
/// `key` after is `q` or the peer it gave before (a ring that was empty
/// gives `q`), provided no other position of the ring before shares the
/// hash of the position that decided the key.
pub proof fn lemma_lookup_after_addition<P>(
    before: ConsistentHash<P>,
    after: ConsistentHash<P>,
    q: P,
    id: Seq<char>,
    key: Seq<char>,
)
    requires
        before.wf(),
        after.wf(),
        sorted_by_hash(before.positions()),
        sorted_by_hash(after.positions()),
        after.peer_values() == before.peer_values().push(q),
        after.positions().to_multiset() == (before.positions()
            + vnodes(id, before.peer_list().len() as usize, before.replica_count())).to_multiset(),
        hash_unique_at(before.positions(), deciding_index(before.positions(), fnv_hash(key))),
    ensures
        after.positions().len() > 0 ==> {
            let p = after.peer_values()[successor_owner(after.positions(), fnv_hash(key)) as int];
            p == q || (before.positions().len() > 0
                && p == before.peer_values()[successor_owner(before.positions(), fnv_hash(key)) as int])
        },
{
    let h = fnv_hash(key);
    let n = before.peer_list().len();
    assert(before.peers.len() == before.peers@.len());
    before.lemma_ring_shape();
    after.lemma_ring_shape();
    lemma_addition_moves_keys_only_to_new_peer(
        before.positions(), after.positions(), id, n as usize, before.replica_count(), h);
    if after.positions().len() > 0 {
        let o = successor_owner(after.positions(), h);
        if o == n as usize {
            assert(after.peer_values()[n as int] == q);
        } else {
            let s = before.positions();
            lemma_successor_exists(s, h);
            let i = successor_index(s, h);
            if i < s.len() {
                assert(s[i].1 < n);
            } else {
                assert(s[0].1 < n);
            }
            assert(after.peer_values()[o as int] == before.peer_values()[o as int]);
        }
    }
}

proof fn lemma_addition_nonempty(
    s: Seq<(u64, usize)>,
    t: Seq<(u64, usize)>,
    id: Seq<char>,
    n: usize,
    replicas: nat,
    h: u64,
)
    requires
        sorted_by_hash(s),
        sorted_by_hash(t),
        s.len() > 0,
        t.to_multiset() == (s + vnodes(id, n, replicas)).to_multiset(),
        hash_unique_at(s, deciding_index(s, h)),
    ensures
        t.len() > 0,
        successor_owner(t, h) == successor_owner(s, h) || successor_owner(t, h) == n,
{
    lemma_successor_exists(s, h);
    lemma_successor_exists(t, h);
    let v = vnodes(id, n, replicas);
    let sv = s + v;
    assert forall|m: int| 0 <= m < s.len() implies t.contains(#[trigger] s[m]) by {
        assert(sv[m] == s[m]);
        assert(sv.contains(s[m]));
        assert(sv.to_multiset().count(s[m]) > 0);
        assert(t.to_multiset().count(s[m]) > 0);
    }
    assert(t.contains(s[0]));
    let i = successor_index(s, h);
    let j = successor_index(t, h);
    let dt = deciding_index(t, h);
    let x = t[dt];
    if x.1 != n {
        assert(t.contains(x));
        assert(t.to_multiset().count(x) > 0);
        assert(sv.to_multiset().count(x) > 0);
        assert(sv.contains(x));
        let kk = choose|kk: int| 0 <= kk < sv.len() && sv[kk] == x;
        if kk >= s.len() {
            assert(sv[kk] == v[kk - s.len()]);
            assert(v[kk - s.len()].1 == n);
        }
        let a = kk;
        assert(s[a] == x);
        if j < t.len() {
            assert(dt == j);
            assert(x.0 >= h);
            assert(i <= a);
            let b = choose|b: int| 0 <= b < t.len() && t[b] == s[i];
            assert(b >= j);
            assert(t[j].0 <= t[b].0);
            assert(s[i].0 <= s[a].0);
            assert(s[a].0 == s[i].0);
            assert(deciding_index(s, h) == i);
            assert(a == i);
        } else {
            assert(dt == 0);
            assert forall|m: int| 0 <= m < s.len() implies s[m].0 < h by {
                let b = choose|b: int| 0 <= b < t.len() && t[b] == s[m];
            }
            assert(is_successor(s, h, s.len() as int));
            lemma_successor_unique(s, h, s.len() as int);
            let b = choose|b: int| 0 <= b < t.len() && t[b] == s[0];
            assert(t[0].0 <= t[b].0);
            assert(s[0].0 <= s[a].0);
            assert(s[a].0 == s[0].0);
            assert(deciding_index(s, h) == 0);
            assert(a == 0);
        }
    }
}

} // verus!
