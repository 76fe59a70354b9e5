//! The local side of a cache group: a main cache for the keys this node
//! owns or loads, and a smaller hot cache (an eighth of the size) for values
//! fetched from or written to other peers.
//!
//! Peers, the loader of missing values and the optional write-through store
//! are the caller's: it asks the group what is local, does the remote work,
//! and reports the outcome back with the methods below.
use vstd::prelude::*;
use crate::cache::cache::{
    has_key, index_of_key, item_size, key_bytes, keys_distinct, lookup, bytes_of, entries_after_delete,
    entries_after_put, expiry_for, fits, lemma_get_after_delete, lemma_get_after_put, Cache, CacheEntry, CacheStats,
};
use crate::cache::value::expired_at;
use crate::networking::consistent_hash::string_views;
use crate::utils::error::{BlazeCacheError, Result};
use crate::utils::time::current_timestamp;
use crate::utils::text::same_text;
use vstd::string::StrSliceExecFns;

verus! {

/// The text of an optional string.
pub open spec fn text_of(o: Option<String>) -> Option<Seq<char>> {
    match o {
        Some(a) => Some(a@),
        None => None,
    }
}

/// The node to ask for a key instead of this one: the owner the ring gave,
/// unless it is this node (whose address is `local`, when it has one).
pub open spec fn owner_elsewhere(owner: Option<Seq<char>>, local: Seq<char>) -> Option<Seq<char>> {
    match owner {
        Some(a) => if local.len() > 0 && a == local { None } else { Some(a) },
        None => None,
    }
}

/// What a read does next.
#[derive(Debug)]
pub enum ReadStep {
    /// The read is answered with these bytes.
    Answer(Vec<u8>),
    /// The node at this address owns the key and is asked for it.
    AskOwner(String),
    /// The key is loaded with the group's loader.
    Load,
}

/// The first of two lookups that finds something.
pub open spec fn either(a: Option<Seq<u8>>, b: Option<Seq<u8>>) -> Option<Seq<u8>> {
    match a {
        Some(x) => Some(x),
        None => b,
    }
}

/// What a delete reports once the peer that owns the key, if another one,
/// has answered: the peer's success is `true`; its `KeyNotFound`, or no
/// peer, leaves the answer to the local caches; another error is returned.
pub open spec fn delete_result(remote: Option<Result<()>>, main_deleted: bool, hot_deleted: bool) -> Result<bool> {
    match remote {
        Some(Ok(_)) => Ok(true),
        Some(Err(BlazeCacheError::KeyNotFound)) => Ok(main_deleted || hot_deleted),
        Some(Err(e)) => Err(e),
        None => Ok(main_deleted || hot_deleted),
    }
}

/// What a local read of `k` at time `now` finds: the main cache's value, or
/// else the hot cache's.
pub open spec fn local_hit(
    main: Seq<(Seq<char>, CacheEntry)>,
    hot: Seq<(Seq<char>, CacheEntry)>,
    k: Seq<char>,
    now: u64,
) -> Option<Seq<u8>> {
    either(lookup(main, k, now), lookup(hot, k, now))
}

/// The keys found locally, each with its value, in the order of `keys`.
pub open spec fn hits_of(
    main: Seq<(Seq<char>, CacheEntry)>,
    hot: Seq<(Seq<char>, CacheEntry)>,
    keys: Seq<Seq<char>>,
    now: u64,
) -> Seq<(Seq<char>, Seq<u8>)>
    decreases keys.len(),
{
    if keys.len() == 0 {
        Seq::empty()
    } else {
        let prev = hits_of(main, hot, keys.drop_last(), now);
        match local_hit(main, hot, keys.last(), now) {
            Some(v) => prev.push((keys.last(), v)),
            None => prev,
        }
    }
}

/// The keys not found locally, in the order of `keys`.
pub open spec fn misses_of(
    main: Seq<(Seq<char>, CacheEntry)>,
    hot: Seq<(Seq<char>, CacheEntry)>,
    keys: Seq<Seq<char>>,
    now: u64,
) -> Seq<Seq<char>>
    decreases keys.len(),
{
    if keys.len() == 0 {
        Seq::empty()
    } else {
        let prev = misses_of(main, hot, keys.drop_last(), now);
        match local_hit(main, hot, keys.last(), now) {
            Some(_) => prev,
            None => prev.push(keys.last()),
        }
    }
}

/// Key-value pairs as characters and bytes.
pub open spec fn pair_views(p: Seq<(String, Vec<u8>)>) -> Seq<(Seq<char>, Seq<u8>)> {
    p.map_values(|x: (String, Vec<u8>)| (x.0@, x.1@))
}

/// The map that pairs make when inserted in order, a later value of a key
/// replacing an earlier one.
pub open spec fn pairs_map(p: Seq<(Seq<char>, Seq<u8>)>) -> Map<Seq<char>, Seq<u8>>
    decreases p.len(),
{
    if p.len() == 0 {
        Map::empty()
    } else {
        pairs_map(p.drop_last()).insert(p.last().0, p.last().1)
    }
}

/// No key occurs twice among the pairs.
pub open spec fn pair_keys_distinct(p: Seq<(Seq<char>, Seq<u8>)>) -> bool {
    forall|i: int, j: int| 0 <= i < j < p.len() ==> p[i].0 != p[j].0
}

/// The outcome of a load, as the bytes loaded if it succeeded.
pub open spec fn loaded_view(r: Result<Vec<u8>>) -> Option<Seq<u8>> {
    match r {
        Ok(d) => Some(d@),
        Err(_) => None,
    }
}

/// Adds the first `n` loaded values to `m`: the value at position `i` of
/// `loaded` goes under the key at position `i` of `keys`, unless that key
/// already has a value; failed loads add nothing.
pub open spec fn with_loaded(
    m: Map<Seq<char>, Seq<u8>>,
    keys: Seq<Seq<char>>,
    loaded: Seq<Option<Seq<u8>>>,
    n: nat,
) -> Map<Seq<char>, Seq<u8>>
    decreases n,
{
    if n == 0 {
        m
    } else {
        let prev = with_loaded(m, keys, loaded, (n - 1) as nat);
        let i = n - 1;
        match loaded[i] {
            Some(v) => if prev.contains_key(keys[i]) { prev } else { prev.insert(keys[i], v) },
            None => prev,
        }
    }
}

proof fn lemma_pairs_map_has(p: Seq<(Seq<char>, Seq<u8>)>, k: Seq<char>)
    ensures
        pairs_map(p).contains_key(k) <==> exists|j: int| 0 <= j < p.len() && p[j].0 == k,
    decreases p.len(),
{
    if p.len() > 0 {
        lemma_pairs_map_has(p.drop_last(), k);
        if pairs_map(p.drop_last()).contains_key(k) {
            let j = choose|j: int| 0 <= j < p.drop_last().len() && p.drop_last()[j].0 == k;
            assert(p[j] == p.drop_last()[j]);
        }
        if exists|j: int| 0 <= j < p.len() && p[j].0 == k {
            let j = choose|j: int| 0 <= j < p.len() && p[j].0 == k;
            if j < p.len() - 1 {
                assert(p.drop_last()[j] == p[j]);
            }
        }
    }
}

proof fn lemma_pairs_map_update(p: Seq<(Seq<char>, Seq<u8>)>, j: int, v: Seq<u8>)
    requires
        pair_keys_distinct(p),
        0 <= j < p.len(),
    ensures
        pairs_map(p.update(j, (p[j].0, v))) == pairs_map(p).insert(p[j].0, v),
    decreases p.len(),
{
    let k = p[j].0;
    let q = p.update(j, (k, v));
    if j == p.len() - 1 {
        assert(q.drop_last() =~= p.drop_last());
        assert(pairs_map(p).insert(k, v) =~= pairs_map(p.drop_last()).insert(k, v));
    } else {
        let d = p.drop_last();
        assert(pair_keys_distinct(d)) by {
            assert forall|a: int, b: int| 0 <= a < b < d.len() implies d[a].0 != d[b].0 by {
                assert(d[a] == p[a] && d[b] == p[b]);
            }
        }
        assert(d[j] == p[j]);
        lemma_pairs_map_update(d, j, v);
        assert(q.drop_last() =~= d.update(j, (k, v)));
        assert(q.last() == p.last());
        assert(p.last().0 != k) by {
            assert(p[p.len() - 1] == p.last());
        }
        assert(pairs_map(q) =~= pairs_map(p).insert(k, v));
    }
}

/// Whether some pair has key `k`.
fn pairs_contain(p: &Vec<(String, Vec<u8>)>, k: &str) -> (b: bool)
    ensures
        b == pairs_map(pair_views(p@)).contains_key(k@),
{
    let mut i: usize = 0;
    while i < p.len()
        invariant
            i <= p@.len(),
            forall|j: int| 0 <= j < i ==> pair_views(p@)[j].0 != k@,
        decreases p@.len() - i,
    {
        if same_text(p[i].0.as_str(), k) {
            proof {
                assert(pair_views(p@)[i as int].0 == k@);
                lemma_pairs_map_has(pair_views(p@), k@);
            }
            return true;
        }
        i = i + 1;
    }
    proof {
        lemma_pairs_map_has(pair_views(p@), k@);
    }
    false
}

/// Puts `v` under `k`, replacing the value `k` had.
fn pairs_insert(p: &mut Vec<(String, Vec<u8>)>, k: String, v: Vec<u8>)
    requires
        pair_keys_distinct(pair_views(old(p)@)),
    ensures
        pair_keys_distinct(pair_views(final(p)@)),
        pairs_map(pair_views(final(p)@)) == pairs_map(pair_views(old(p)@)).insert(k@, v@),
{
    let ghost pv = pair_views(p@);
    let mut i: usize = 0;
    while i < p.len()
        invariant
            p@ == old(p)@,
            pv == pair_views(p@),
            pair_keys_distinct(pv),
            i <= p@.len(),
            forall|j: int| 0 <= j < i ==> pv[j].0 != k@,
        decreases p@.len() - i,
    {
        if same_text(p[i].0.as_str(), k.as_str()) {
            assert(pv[i as int].0 == k@);
            p.set(i, (k, v));
            proof {
                lemma_pairs_map_update(pv, i as int, v@);
                assert(pair_views(p@) =~= pv.update(i as int, (pv[i as int].0, v@)));
                assert forall|a: int, b: int| 0 <= a < b < pair_views(p@).len()
                    implies pair_views(p@)[a].0 != pair_views(p@)[b].0 by {
                    assert(pair_views(p@)[a].0 == pv[a].0 && pair_views(p@)[b].0 == pv[b].0);
                }
            }
            return;
        }
        i = i + 1;
    }
    let ghost kv = k@;
    let ghost vv = v@;
    p.push((k, v));
    proof {
        assert(pair_views(p@) =~= pv.push((kv, vv)));
        assert(pair_views(p@).drop_last() =~= pv);
        assert forall|a: int, b: int| 0 <= a < b < pair_views(p@).len()
            implies pair_views(p@)[a].0 != pair_views(p@)[b].0 by {
            if b == pv.len() {
                assert(pair_views(p@)[a] == pv[a]);
            } else {
                assert(pair_views(p@)[a] == pv[a] && pair_views(p@)[b] == pv[b]);
            }
        }
    }
}

/// The local caches of a named cache group.
pub struct Group {
    name: String,
    main_cache: Cache,
    hot_cache: Cache,
    local_peer_address: String,
    write_through: bool,
}

impl Group {
    /// The main cache.
    pub closed spec fn main_store(&self) -> Cache {
        self.main_cache
    }

    /// The hot cache.
    pub closed spec fn hot_store(&self) -> Cache {
        self.hot_cache
    }

    /// The group's name.
    pub closed spec fn name_view(&self) -> Seq<char> {
        self.name@
    }

    /// This node's own address among the peers (empty when unknown).
    pub closed spec fn local_address(&self) -> Seq<char> {
        self.local_peer_address@
    }

    /// Whether writes go first to a backing store.
    pub closed spec fn writes_through(&self) -> bool {
        self.write_through
    }

    /// Both caches are well formed.
    pub open spec fn wf(&self) -> bool {
        self.main_store().wf() && self.hot_store().wf()
    }

    /// A group whose main cache holds `cache_bytes` and whose hot cache an
    /// eighth of that.
    pub fn new(name: String, cache_bytes: usize, local_peer_address: String) -> (g: Self)
        requires
            cache_bytes <= usize::MAX / 2,
        ensures
            g.wf(),
            g.name_view() == name@,
            g.local_address() == local_peer_address@,
            g.main_store().capacity() == cache_bytes,
            g.hot_store().capacity() == cache_bytes / 8,
            g.main_store().entries().len() == 0,
            g.hot_store().entries().len() == 0,
            !g.writes_through(),
    {
        Group {
            name,
            main_cache: Cache::new(cache_bytes),
            hot_cache: Cache::new(cache_bytes / 8),
            local_peer_address,
            write_through: false,
        }
    }

    /// As [`new`](Self::new), for a group whose writes go first to a backing
    /// store.
    pub fn with_write_through(name: String, cache_bytes: usize, local_peer_address: String) -> (g: Self)
        requires
            cache_bytes <= usize::MAX / 2,
        ensures
            g.wf(),
            g.name_view() == name@,
            g.local_address() == local_peer_address@,
            g.main_store().capacity() == cache_bytes,
            g.hot_store().capacity() == cache_bytes / 8,
            g.main_store().entries().len() == 0,
            g.hot_store().entries().len() == 0,
            g.writes_through(),
    {
        Group {
            name,
            main_cache: Cache::new(cache_bytes),
            hot_cache: Cache::new(cache_bytes / 8),
            local_peer_address,
            write_through: true,
        }
    }

    /// The group's name.
    pub fn name(&self) -> (n: &str)
        ensures
            n@ == self.name_view(),
    {
        self.name.as_str()
    }

    /// Whether writes go first to a backing store.
    pub fn has_write_through(&self) -> (b: bool)
        ensures
            b == self.writes_through(),
    {
        self.write_through
    }

    /// Whether `addr` is this node's own address (never, when it is unknown).
    pub fn is_local_peer(&self, addr: &str) -> (b: bool)
        ensures
            b == (self.local_address().len() > 0 && addr@ == self.local_address()),
    {
        self.local_peer_address.as_str().unicode_len() > 0 && same_text(addr, self.local_peer_address.as_str())
    }

    /// Reads `key` locally at time `now`: the main cache first, then the hot
    /// cache. `Ok(None)` means the value must be loaded. An empty key is refused.
    pub fn get_local_at(&mut self, key: &str, now: u64) -> (r: Result<Option<Vec<u8>>>)
        requires
            old(self).wf(),
        ensures
            final(self).wf(),
            final(self).main_store().capacity() == old(self).main_store().capacity(),
            final(self).hot_store().capacity() == old(self).hot_store().capacity(),
            key@.len() == 0 ==> r == Err::<Option<Vec<u8>>, BlazeCacheError>(BlazeCacheError::KeyEmpty)
                && *final(self) == *old(self),
            key@.len() > 0 ==> (r matches Ok(o) && bytes_of(o) == either(
                lookup(old(self).main_store().entries(), key@, now),
                lookup(old(self).hot_store().entries(), key@, now),
            )),
    {
        if key.unicode_len() == 0 {
            return Err(BlazeCacheError::KeyEmpty);
        }
        let from_main = self.main_cache.get_at(key, now);
        match from_main {
            Ok(Some(d)) => { return Ok(Some(d)); },
            Ok(None) => {},
            Err(e) => { return Err(e); },
        }
        let from_hot = self.hot_cache.get_at(key, now);
        match from_hot {
            Ok(Some(d)) => Ok(Some(d)),
            Ok(None) => Ok(None),
            Err(e) => Err(e),
        }
    }

    /// Reads `key` locally now; see [`get_local_at`](Self::get_local_at).
    pub fn get_local(&mut self, key: &str) -> (r: Result<Option<Vec<u8>>>)
        requires
            old(self).wf(),
        ensures
            final(self).wf(),
            key@.len() == 0 ==> r == Err::<Option<Vec<u8>>, BlazeCacheError>(BlazeCacheError::KeyEmpty),
            key@.len() > 0 ==> r is Ok,
            key@.len() > 0 ==> exists|now: u64| #![trigger lookup(old(self).main_store().entries(), key@, now)] (r matches Ok(o) && bytes_of(o) == either(
                lookup(old(self).main_store().entries(), key@, now),
                lookup(old(self).hot_store().entries(), key@, now),
            )),
    {
        let now = current_timestamp();
        self.get_local_at(key, now)
    }

    /// Keeps a value fetched from the peer that owns `key` in the hot cache,
    /// without expiry.
    pub fn store_fetched(&mut self, key: String, value: Vec<u8>) -> (r: Result<()>)
        requires
            old(self).wf(),
            key_bytes(key@) + value@.len() + 64 <= usize::MAX,
        ensures
            final(self).wf(),
            final(self).main_store() == old(self).main_store(),
            final(self).hot_store().capacity() == old(self).hot_store().capacity(),
            (item_size(key@, value@) > old(self).hot_store().capacity()) <==> r is Err,
            exists|now: u64| final(self).hot_store().entries()
                == entries_after_put(old(self).hot_store().entries(), key@, value, 0, now, old(self).hot_store().capacity()),
    {
        self.hot_cache.put(key, value, 0)
    }

    /// Keeps a value the loader produced in the main cache, without expiry.
    pub fn store_loaded(&mut self, key: String, value: Vec<u8>) -> (r: Result<()>)
        requires
            old(self).wf(),
            key_bytes(key@) + value@.len() + 64 <= usize::MAX,
        ensures
            final(self).wf(),
            final(self).hot_store() == old(self).hot_store(),
            final(self).main_store().capacity() == old(self).main_store().capacity(),
            (item_size(key@, value@) > old(self).main_store().capacity()) <==> r is Err,
            exists|now: u64| final(self).main_store().entries()
                == entries_after_put(old(self).main_store().entries(), key@, value, 0, now, old(self).main_store().capacity()),
    {
        self.main_cache.put(key, value, 0)
    }

    /// Reads each of `keys` locally at time `now` (see
    /// [`get_local_at`](Self::get_local_at), an empty key being simply not
    /// found): the keys found with their values, and the keys that must be
    /// loaded, each in the order of `keys`.
    pub fn cached_many_at(&mut self, keys: &Vec<String>, now: u64) -> (r: (Vec<(String, Vec<u8>)>, Vec<String>))
        requires
            old(self).wf(),
        ensures
            final(self).wf(),
            final(self).main_store().capacity() == old(self).main_store().capacity(),
            final(self).hot_store().capacity() == old(self).hot_store().capacity(),
            pair_views(r.0@) == hits_of(old(self).main_store().entries(), old(self).hot_store().entries(), string_views(keys@), now),
            string_views(r.1@) == misses_of(old(self).main_store().entries(), old(self).hot_store().entries(), string_views(keys@), now),
    {
        let ghost main0 = self.main_cache.entries();
        let ghost hot0 = self.hot_cache.entries();
        let ghost ks = string_views(keys@);
        let mut found: Vec<(String, Vec<u8>)> = Vec::new();
        let mut missing: Vec<String> = Vec::new();
        let mut i: usize = 0;
        while i < keys.len()
            invariant
                self.wf(),
                self.main_store().capacity() == old(self).main_store().capacity(),
                self.hot_store().capacity() == old(self).hot_store().capacity(),
                main0 == old(self).main_store().entries(),
                hot0 == old(self).hot_store().entries(),
                ks == string_views(keys@),
                i <= keys@.len(),
                forall|k: Seq<char>| #[trigger] lookup(self.main_store().entries(), k, now) == lookup(main0, k, now),
                forall|k: Seq<char>| #[trigger] lookup(self.hot_store().entries(), k, now) == lookup(hot0, k, now),
                pair_views(found@) == hits_of(main0, hot0, ks.subrange(0, i as int), now),
                string_views(missing@) == misses_of(main0, hot0, ks.subrange(0, i as int), now),
            decreases keys@.len() - i,
        {
            let key = &keys[i];
            let ghost kv = key@;
            proof {
                assert(ks.subrange(0, i + 1).drop_last() =~= ks.subrange(0, i as int));
                assert(ks.subrange(0, i + 1).last() == kv);
            }
            let ghost fv = pair_views(found@);
            let ghost mv = string_views(missing@);
            let from_main = self.main_cache.get_at(key.as_str(), now);
            let got = match from_main {
                Ok(Some(d)) => Some(d),
                _ => {
                    let from_hot = self.hot_cache.get_at(key.as_str(), now);
                    match from_hot {
                        Ok(Some(d)) => Some(d),
                        _ => None,
                    }
                },
            };
            match got {
                Some(d) => {
                    let ghost dv = d@;
                    found.push((key.clone(), d));
                    proof {
                        assert(pair_views(found@) =~= fv.push((kv, dv)));
                    }
                },
                None => {
                    missing.push(key.clone());
                    proof {
                        assert(string_views(missing@) =~= mv.push(kv));
                    }
                },
            }
            i = i + 1;
        }
        proof {
            assert(ks.subrange(0, keys@.len() as int) =~= ks);
        }
        (found, missing)
    }

    /// Reads each of `keys` locally now; see [`cached_many_at`](Self::cached_many_at).
    pub fn cached_many(&mut self, keys: &Vec<String>) -> (r: (Vec<(String, Vec<u8>)>, Vec<String>))
        requires
            old(self).wf(),
        ensures
            final(self).wf(),
            final(self).main_store().capacity() == old(self).main_store().capacity(),
            final(self).hot_store().capacity() == old(self).hot_store().capacity(),
            exists|now: u64| #![trigger hits_of(old(self).main_store().entries(), old(self).hot_store().entries(), string_views(keys@), now)]
                pair_views(r.0@) == hits_of(old(self).main_store().entries(), old(self).hot_store().entries(), string_views(keys@), now)
                && string_views(r.1@) == misses_of(old(self).main_store().entries(), old(self).hot_store().entries(), string_views(keys@), now),
    {
        let now = current_timestamp();
        self.cached_many_at(keys, now)
    }

    /// The owner the ring gave for a key, when it is another node.
    pub fn remote_owner(&self, owner: Option<String>) -> (r: Option<String>)
        ensures
            text_of(r) == owner_elsewhere(text_of(owner), self.local_address()),
    {
        match owner {
            Some(a) => if self.is_local_peer(a.as_str()) { None } else { Some(a) },
            None => None,
        }
    }

    /// Starts a read of `key`, whose owner on the ring is `owner`: a value
    /// held locally (main cache, then hot cache) answers it; otherwise the
    /// owner is asked when it is another node, and the key is loaded when it
    /// is this node or there is none. An empty key is refused.
    pub fn read_start(&mut self, key: &str, owner: Option<String>) -> (r: Result<ReadStep>)
        requires
            old(self).wf(),
        ensures
            final(self).wf(),
            key@.len() == 0 ==> r == Err::<ReadStep, BlazeCacheError>(BlazeCacheError::KeyEmpty),
            key@.len() > 0 ==> exists|now: u64| #![trigger lookup(old(self).main_store().entries(), key@, now)]
                match either(lookup(old(self).main_store().entries(), key@, now), lookup(old(self).hot_store().entries(), key@, now)) {
                    Some(d) => r matches Ok(ReadStep::Answer(v)) && v@ == d,
                    None => match owner_elsewhere(text_of(owner), old(self).local_address()) {
                        Some(a) => r matches Ok(ReadStep::AskOwner(x)) && x@ == a,
                        None => r matches Ok(ReadStep::Load),
                    },
                },
    {
        let elsewhere = self.remote_owner(owner);
        match self.get_local(key) {
            Err(e) => Err(e),
            Ok(Some(d)) => Ok(ReadStep::Answer(d)),
            Ok(None) => match elsewhere {
                Some(a) => Ok(ReadStep::AskOwner(a)),
                None => Ok(ReadStep::Load),
            },
        }
    }

    /// Takes the owner's reply to a read of `key`: a value is kept in the hot
    /// cache without expiry (when its charged size fits in a `usize`) and
    /// answers the read, unless the hot cache refuses it, which is the
    /// result; a failed reply leaves the key to be loaded.
    pub fn after_owner_reply(&mut self, key: String, reply: Result<Vec<u8>>) -> (r: Result<ReadStep>)
        requires
            old(self).wf(),
        ensures
            final(self).wf(),
            final(self).main_store() == old(self).main_store(),
            match reply {
                Err(_) => r matches Ok(ReadStep::Load) && *final(self) == *old(self),
                Ok(v) => if item_size(key@, v@) > usize::MAX {
                    r matches Ok(ReadStep::Answer(x)) && x@ == v@ && *final(self) == *old(self)
                } else {
                    &&& (item_size(key@, v@) > old(self).hot_store().capacity()) <==> r is Err
                    &&& r is Ok ==> (r matches Ok(ReadStep::Answer(x)) && x@ == v@)
                    &&& exists|now: u64| final(self).hot_store().entries()
                        == entries_after_put(old(self).hot_store().entries(), key@, v, 0, now, old(self).hot_store().capacity())
                },
            },
    {
        match reply {
            Err(_) => Ok(ReadStep::Load),
            Ok(v) => {
                if !fits(key.as_str(), v.as_slice()) {
                    return Ok(ReadStep::Answer(v));
                }
                let kept = v.clone();
                match self.store_fetched(key, v) {
                    Ok(()) => Ok(ReadStep::Answer(kept)),
                    Err(e) => Err(e),
                }
            },
        }
    }

    /// Checks a write of `value` under `key` before anything is stored: an
    /// empty key is refused, and so is an item whose charged size does not
    /// fit in a `usize`.
    pub fn check_write(key: &str, value: &[u8]) -> (r: Result<()>)
        ensures
            key@.len() == 0 ==> r == Err::<(), BlazeCacheError>(BlazeCacheError::KeyEmpty),
            key@.len() > 0 && item_size(key@, value@) > usize::MAX ==> r == Err::<(), BlazeCacheError>(BlazeCacheError::CacheFull),
            key@.len() > 0 && item_size(key@, value@) <= usize::MAX ==> r is Ok,
    {
        Self::check_key(key)?;
        if !fits(key, value) {
            return Err(BlazeCacheError::CacheFull);
        }
        Ok(())
    }

    /// Keeps what the loader produced for `key`: a value is stored in the
    /// main cache without expiry and returned; a loader error, or a value
    /// too large for the cache, is the result (`CacheFull` when its charged
    /// size does not even fit in a `usize`).
    pub fn keep_loaded(&mut self, key: String, loaded: Result<Vec<u8>>) -> (r: Result<Vec<u8>>)
        requires
            old(self).wf(),
        ensures
            final(self).wf(),
            final(self).hot_store() == old(self).hot_store(),
            final(self).main_store().capacity() == old(self).main_store().capacity(),
            match loaded {
                Err(e) => r == Err::<Vec<u8>, BlazeCacheError>(e) && *final(self) == *old(self),
                Ok(v) => if item_size(key@, v@) > usize::MAX {
                    r == Err::<Vec<u8>, BlazeCacheError>(BlazeCacheError::CacheFull) && *final(self) == *old(self)
                } else {
                    &&& (item_size(key@, v@) > old(self).main_store().capacity()) <==> r is Err
                    &&& r matches Ok(d) ==> d@ == v@
                    &&& exists|now: u64| final(self).main_store().entries()
                        == entries_after_put(old(self).main_store().entries(), key@, v, 0, now, old(self).main_store().capacity())
                },
            },
    {
        match loaded {
            Err(e) => Err(e),
            Ok(v) => {
                if !fits(key.as_str(), v.as_slice()) {
                    return Err(BlazeCacheError::CacheFull);
                }
                let kept = v.clone();
                match self.store_loaded(key, v) {
                    Ok(()) => Ok(kept),
                    Err(e) => Err(e),
                }
            },
        }
    }

    /// The result of a multi-key read: the pairs `found` locally, then the
    /// loaded values, the one at each position of `loaded` going under the
    /// key at the same position of `misses` (the keys that were not found,
    /// in the order they were loaded) unless that key already has a value;
    /// failed loads add nothing. Keys are distinct in the result.
    pub fn merge_loaded(misses: &Vec<String>, found: Vec<(String, Vec<u8>)>, loaded: Vec<Result<Vec<u8>>>)
        -> (r: Vec<(String, Vec<u8>)>)
        ensures
            pair_keys_distinct(pair_views(r@)),
            pairs_map(pair_views(r@)) == with_loaded(
                pairs_map(pair_views(found@)),
                string_views(misses@),
                loaded@.map_values(|x: Result<Vec<u8>>| loaded_view(x)),
                if misses@.len() < loaded@.len() { misses@.len() } else { loaded@.len() },
            ),
    {
        let ghost fv = pair_views(found@);
        let ghost ks = string_views(misses@);
        let ghost lv = loaded@.map_values(|x: Result<Vec<u8>>| loaded_view(x));
        let mut results: Vec<(String, Vec<u8>)> = Vec::new();
        let mut i: usize = 0;
        proof {
            assert(pair_views(results@) =~= Seq::<(Seq<char>, Seq<u8>)>::empty());
            assert(fv.subrange(0, 0) =~= Seq::<(Seq<char>, Seq<u8>)>::empty());
        }
        while i < found.len()
            invariant
                fv == pair_views(found@),
                i <= found@.len(),
                pair_keys_distinct(pair_views(results@)),
                pairs_map(pair_views(results@)) == pairs_map(fv.subrange(0, i as int)),
            decreases found@.len() - i,
        {
            let k = found[i].0.clone();
            let v = found[i].1.clone();
            pairs_insert(&mut results, k, v);
            proof {
                assert(fv.subrange(0, i + 1).drop_last() =~= fv.subrange(0, i as int));
                assert(fv.subrange(0, i + 1).last() == fv[i as int]);
            }
            i = i + 1;
        }
        proof {
            assert(fv.subrange(0, found@.len() as int) =~= fv);
        }
        let n = if misses.len() < loaded.len() { misses.len() } else { loaded.len() };
        let mut j: usize = 0;
        while j < n
            invariant
                n <= misses@.len(),
                n <= loaded@.len(),
                ks == string_views(misses@),
                lv == loaded@.map_values(|x: Result<Vec<u8>>| loaded_view(x)),
                j <= n,
                pair_keys_distinct(pair_views(results@)),
                pairs_map(pair_views(results@)) == with_loaded(pairs_map(fv), ks, lv, j as nat),
            decreases n - j,
        {
            assert(lv[j as int] == loaded_view(loaded@[j as int]));
            assert(ks[j as int] == misses@[j as int]@);
            match &loaded[j] {
                Ok(v) => {
                    if !pairs_contain(&results, misses[j].as_str()) {
                        pairs_insert(&mut results, misses[j].clone(), v.clone());
                    }
                },
                Err(_) => {},
            }
            j = j + 1;
        }
        results
    }

    /// Refuses an empty key before a write.
    pub fn check_key(key: &str) -> (r: Result<()>)
        ensures
            r is Ok <==> key@.len() > 0,
            r is Err ==> r == Err::<(), BlazeCacheError>(BlazeCacheError::KeyEmpty),
    {
        if key.unicode_len() == 0 {
            Err(BlazeCacheError::KeyEmpty)
        } else {
            Ok(())
        }
    }

    /// After the peer that owns `key` stored a value, keeps it in the hot
    /// cache for 10 seconds.
    pub fn store_after_remote_set(&mut self, key: String, value: Vec<u8>) -> (r: Result<()>)
        requires
            old(self).wf(),
            key_bytes(key@) + value@.len() + 64 <= usize::MAX,
        ensures
            final(self).wf(),
            final(self).main_store() == old(self).main_store(),
            final(self).hot_store().capacity() == old(self).hot_store().capacity(),
            (item_size(key@, value@) > old(self).hot_store().capacity()) <==> r is Err,
            exists|now: u64| final(self).hot_store().entries()
                == entries_after_put(old(self).hot_store().entries(), key@, value, 10, now, old(self).hot_store().capacity()),
    {
        self.hot_cache.put(key, value, 10)
    }

    /// Stores a value this node owns in the main cache.
    pub fn store_local(&mut self, key: String, value: Vec<u8>, ttl_secs: u32) -> (r: Result<()>)
        requires
            old(self).wf(),
            key_bytes(key@) + value@.len() + 64 <= usize::MAX,
        ensures
            final(self).wf(),
            final(self).hot_store() == old(self).hot_store(),
            final(self).main_store().capacity() == old(self).main_store().capacity(),
            (item_size(key@, value@) > old(self).main_store().capacity()) <==> r is Err,
            exists|now: u64| final(self).main_store().entries()
                == entries_after_put(old(self).main_store().entries(), key@, value, ttl_secs, now, old(self).main_store().capacity()),
    {
        self.main_cache.put(key, value, ttl_secs)
    }

    /// Removes `key` from both local caches, so that no stale value is
    /// served; reports whether each held it. An empty key is refused.
    pub fn delete_local(&mut self, key: &str) -> (r: Result<(bool, bool)>)
        requires
            old(self).wf(),
        ensures
            final(self).wf(),
            key@.len() == 0 ==> r == Err::<(bool, bool), BlazeCacheError>(BlazeCacheError::KeyEmpty)
                && *final(self) == *old(self),
            key@.len() > 0 ==> {
                &&& r == Ok::<(bool, bool), BlazeCacheError>((
                    has_key(old(self).main_store().entries(), key@),
                    has_key(old(self).hot_store().entries(), key@),
                ))
                &&& final(self).main_store().entries() == entries_after_delete(old(self).main_store().entries(), key@)
                &&& final(self).hot_store().entries() == entries_after_delete(old(self).hot_store().entries(), key@)
            },
    {
        if key.unicode_len() == 0 {
            return Err(BlazeCacheError::KeyEmpty);
        }
        let main_deleted = match self.main_cache.delete(key) {
            Ok(b) => b,
            Err(e) => { return Err(e); },
        };
        let hot_deleted = match self.hot_cache.delete(key) {
            Ok(b) => b,
            Err(e) => { return Err(e); },
        };
        Ok((main_deleted, hot_deleted))
    }

    /// What a delete reports; see [`delete_result`].
    pub fn delete_outcome(remote: Option<Result<()>>, main_deleted: bool, hot_deleted: bool) -> (r: Result<bool>)
        ensures
            r == delete_result(remote, main_deleted, hot_deleted),
    {
        match remote {
            Some(Ok(_)) => Ok(true),
            Some(Err(BlazeCacheError::KeyNotFound)) => Ok(main_deleted || hot_deleted),
            Some(Err(e)) => Err(e),
            None => Ok(main_deleted || hot_deleted),
        }
    }

    /// The keys of hot items (accessed 5 or more times in the last 300
    /// seconds); the main cache tracks none, so this is empty.
    pub fn get_hot_items(&self) -> (r: Vec<String>)
        ensures
            r@.len() == 0,
    {
        let items = self.main_cache.get_hot_items(5, 300);
        let mut keys: Vec<String> = Vec::new();
        let mut i: usize = 0;
        while i < items.len()
            invariant
                i <= items@.len(),
                keys@.len() == i,
            decreases items@.len() - i,
        {
            keys.push(items[i].0.clone());
            i = i + 1;
        }
        keys
    }

    /// Keeps a hot item replicated from another peer in the hot cache for
    /// one second; a refusal is ignored.
    pub fn replicate_hot_item(&mut self, key: &str, value: Vec<u8>)
        requires
            old(self).wf(),
            key_bytes(key@) + value@.len() + 64 <= usize::MAX,
        ensures
            final(self).wf(),
            final(self).main_store() == old(self).main_store(),
            exists|now: u64| final(self).hot_store().entries()
                == entries_after_put(old(self).hot_store().entries(), key@, value, 1, now, old(self).hot_store().capacity()),
    {
        let _ = self.hot_cache.put(String::from_str(key), value, 1);
    }

    /// The main cache's value for `key`, to replicate to other peers, as a
    /// read of the main cache now finds it; nothing when it is missing or has
    /// expired.
    pub fn get_hot_item_for_replication(&mut self, key: &str) -> (r: Option<Vec<u8>>)
        requires
            old(self).wf(),
        ensures
            final(self).wf(),
            final(self).hot_store() == old(self).hot_store(),
            !has_key(old(self).main_store().entries(), key@) ==> r is None,
            r matches Some(d) ==> has_key(old(self).main_store().entries(), key@)
                && d@ == old(self).main_store().entries()[index_of_key(old(self).main_store().entries(), key@)].1.value.data@,
            exists|now: u64| bytes_of(r) == #[trigger] lookup(old(self).main_store().entries(), key@, now),
    {
        match self.main_cache.get(key) {
            Ok(Some(d)) => Some(d),
            _ => None,
        }
    }

    /// The number of entries in the main cache.
    pub fn main_cache_len(&self) -> (n: usize)
        ensures
            n == self.main_store().entries().len(),
    {
        self.main_cache.len()
    }

    /// The number of entries in the hot cache.
    pub fn hot_cache_len(&self) -> (n: usize)
        ensures
            n == self.hot_store().entries().len(),
    {
        self.hot_cache.len()
    }

    /// The main cache's counters.
    pub fn stats(&self) -> (s: CacheStats)
        ensures
            s == self.main_store().counters(),
    {
        self.main_cache.stats()
    }

    /// Empties both caches.
    pub fn clear(&mut self)
        requires
            old(self).wf(),
        ensures
            final(self).wf(),
            final(self).main_store().entries().len() == 0,
            final(self).hot_store().entries().len() == 0,
            final(self).main_store().capacity() == old(self).main_store().capacity(),
            final(self).hot_store().capacity() == old(self).hot_store().capacity(),
    {
        self.main_cache.clear();
        self.hot_cache.clear();
    }
}

/// A local read finds a value stored locally, as long as it has not
/// expired: the main cache answers before the hot cache.
pub proof fn lemma_main_cache_first(main: Option<Seq<u8>>, hot: Option<Seq<u8>>)
    requires
        main is Some,
    ensures
        either(main, hot) == main,
{
}

/// A delete that the owning peer answered with success reports `true`;
/// one that no peer owns reports what the local caches held.
pub proof fn lemma_delete_result(main_deleted: bool, hot_deleted: bool)
    ensures
        delete_result(Some(Ok(())), main_deleted, hot_deleted) == Ok::<bool, BlazeCacheError>(true),
        delete_result(None, main_deleted, hot_deleted) == Ok::<bool, BlazeCacheError>(main_deleted || hot_deleted),
        delete_result(Some(Err(BlazeCacheError::KeyNotFound)), main_deleted, hot_deleted)
            == Ok::<bool, BlazeCacheError>(main_deleted || hot_deleted),
{
}

/// A multi-key read never replaces a value found locally with a loaded one:
/// the keys that had a value keep it, whatever was loaded.
pub proof fn lemma_loaded_values_never_replace(
    m: Map<Seq<char>, Seq<u8>>,
    keys: Seq<Seq<char>>,
    loaded: Seq<Option<Seq<u8>>>,
    n: nat,
    k: Seq<char>,
)
    requires
        m.contains_key(k),
    ensures
        with_loaded(m, keys, loaded, n).contains_key(k),
        with_loaded(m, keys, loaded, n)[k] == m[k],
    decreases n,
{
    if n > 0 {
        lemma_loaded_values_never_replace(m, keys, loaded, (n - 1) as nat, k);
    }
}

/// A local read right after a value this node owns was stored finds that
/// value, as long as it has not expired.
pub proof fn lemma_local_read_after_store(
    main: Seq<(Seq<char>, CacheEntry)>,
    hot: Seq<(Seq<char>, CacheEntry)>,
    k: Seq<char>,
    value: Vec<u8>,
    ttl_secs: u32,
    now: u64,
    max: nat,
    later: u64,
)
    requires
        keys_distinct(main),
        item_size(k, value@) <= max,
        !expired_at(expiry_for(ttl_secs, now), later),
    ensures
        local_hit(entries_after_put(main, k, value, ttl_secs, now, max), hot, k, later) == Some(value@),
{
    lemma_get_after_put(main, k, value, ttl_secs, now, max, later);
}

/// After a local delete, a local read of the key finds nothing.
pub proof fn lemma_local_read_after_delete(
    main: Seq<(Seq<char>, CacheEntry)>,
    hot: Seq<(Seq<char>, CacheEntry)>,
    k: Seq<char>,
    now: u64,
)
    requires
        keys_distinct(main),
        keys_distinct(hot),
    ensures
        local_hit(entries_after_delete(main, k), entries_after_delete(hot, k), k, now) is None,
{
    lemma_get_after_delete(main, k, now);
    lemma_get_after_delete(hot, k, now);
}

} // verus!
