//! The size-bounded LRU cache.
//!
//! Entries live in an `lru::LruCache` ordered from most to least recently
//! used. Each entry is charged `key bytes + value bytes + 64`; an item larger
//! than the cache is refused, and a new key evicts least recently used
//! entries until it fits. Reads touch keys lazily: a read key joins a queue,
//! and once the queue reaches its threshold every queued key moves to the front.
use vstd::prelude::*;
use crate::cache::value::{expired_at, Value};
use crate::utils::error::{BlazeCacheError, Result};
use crate::utils::time::{current_timestamp, duration_from_secs};
use vstd::string::StringSliceAdditionalSpecFns;
use vstd::utf8::encode_utf8;
use core::time::Duration;

verus! {

/// A stored value with the number of bytes it is charged.
#[derive(Debug, Clone)]
pub struct CacheEntry {
    pub value: Value,
    pub size: usize,
}

/// Counters of cache activity.
#[derive(Debug, Clone, Default)]
pub struct CacheStats {
    pub hits: u64,
    pub misses: u64,
    pub puts: u64,
    pub deletes: u64,
    pub evictions: u64,
    pub hot_items: u64,
    pub rejected_items: u64,
    pub ttl_evictions: u64,
    pub entry_count: usize,
    pub memory_usage: usize,
}

#[verifier::external_type_specification]
#[verifier::external_body]
#[verifier::reject_recursive_types(K)]
#[verifier::reject_recursive_types(V)]
#[verifier::reject_recursive_types(S)]
pub struct ExLruCache<K, V, S>(lru::LruCache<K, V, S>);

#[verifier::external_type_specification]
#[verifier::external_body]
pub struct ExLruDefaultHasher(lru::DefaultHasher);

/// The entries of an `lru::LruCache`, from most to least recently used, each
/// key given by its characters.
pub uninterp spec fn lru_entries(c: lru::LruCache<String, CacheEntry>) -> Seq<(Seq<char>, CacheEntry)>;

/// The entry limit an `lru::LruCache` was made with (`LruCache::cap`).
pub uninterp spec fn lru_cap(c: lru::LruCache<String, CacheEntry>) -> nat;

/// The entries, as a sequence, hold each key once.
pub open spec fn keys_distinct(s: Seq<(Seq<char>, CacheEntry)>) -> bool {
    forall|i: int, j: int| 0 <= i < j < s.len() ==> s[i].0 != s[j].0
}

/// Some entry has key `k`.
pub open spec fn has_key(s: Seq<(Seq<char>, CacheEntry)>, k: Seq<char>) -> bool {
    exists|i: int| 0 <= i < s.len() && s[i].0 == k
}

/// The position of the entry with key `k` (meaningful when there is one).
pub open spec fn index_of_key(s: Seq<(Seq<char>, CacheEntry)>, k: Seq<char>) -> int {
    choose|i: int| 0 <= i < s.len() && s[i].0 == k
}

/// Moves the entry with key `k`, if any, to the front.
pub open spec fn touch(s: Seq<(Seq<char>, CacheEntry)>, k: Seq<char>) -> Seq<(Seq<char>, CacheEntry)> {
    if has_key(s, k) {
        seq![s[index_of_key(s, k)]] + s.remove(index_of_key(s, k))
    } else {
        s
    }
}

/// Touches each key of `ks` in turn.
pub open spec fn touch_all(s: Seq<(Seq<char>, CacheEntry)>, ks: Seq<Seq<char>>) -> Seq<(Seq<char>, CacheEntry)>
    decreases ks.len(),
{
    if ks.len() == 0 {
        s
    } else {
        touch(touch_all(s, ks.drop_last()), ks.last())
    }
}

/// The number of UTF-8 bytes of a key.
pub open spec fn key_bytes(k: Seq<char>) -> nat {
    encode_utf8(k).len()
}

/// The bytes an item is charged: key bytes, value bytes and 64.
pub open spec fn item_size(k: Seq<char>, v: Seq<u8>) -> nat {
    key_bytes(k) + v.len() + 64
}

/// The sum of the charged sizes of the entries.
pub open spec fn total_size(s: Seq<(Seq<char>, CacheEntry)>) -> nat
    decreases s.len(),
{
    if s.len() == 0 {
        0
    } else {
        total_size(s.drop_last()) + (s.last().1.size as nat)
    }
}

/// The memory usage the cache reports: per entry, its key bytes plus its
/// charged size.
pub open spec fn memory_of(s: Seq<(Seq<char>, CacheEntry)>) -> nat
    decreases s.len(),
{
    if s.len() == 0 {
        0
    } else {
        memory_of(s.drop_last()) + key_bytes(s.last().0) + (s.last().1.size as nat)
    }
}

/// The entries left after making room for an item of `item` bytes in a cache
/// of `max` bytes: least recently used entries go while the running usage
/// `cur` (reduced by each evicted entry's charged size) plus `item` exceeds `max`.
pub open spec fn after_evictions(s: Seq<(Seq<char>, CacheEntry)>, cur: int, item: int, max: int) -> Seq<(Seq<char>, CacheEntry)>
    decreases s.len(),
{
    if cur + item <= max || s.len() == 0 {
        s
    } else {
        after_evictions(s.drop_last(), cur - s.last().1.size, item, max)
    }
}

/// The number of entries evicted by [`after_evictions`].
pub open spec fn eviction_count(s: Seq<(Seq<char>, CacheEntry)>, cur: int, item: int, max: int) -> nat
    decreases s.len(),
{
    if cur + item <= max || s.len() == 0 {
        0
    } else {
        1 + eviction_count(s.drop_last(), cur - s.last().1.size, item, max)
    }
}

/// The entries that have not expired at time `now`, in order.
pub open spec fn unexpired(s: Seq<(Seq<char>, CacheEntry)>, now: u64) -> Seq<(Seq<char>, CacheEntry)>
    decreases s.len(),
{
    if s.len() == 0 {
        s
    } else if expired_at(s.last().1.value.expire, now) {
        unexpired(s.drop_last(), now)
    } else {
        unexpired(s.drop_last(), now).push(s.last())
    }
}

/// `x + n` modulo 2^64.
pub open spec fn add_mod(x: u64, n: nat) -> u64 {
    ((x as int + n) % 0x1_0000_0000_0000_0000) as u64
}

/// `x + 1` modulo 2^64.
pub open spec fn bump(x: u64) -> u64 {
    add_mod(x, 1)
}

proof fn lemma_add_mod_step(x: u64, k: nat)
    ensures
        add_mod(x, k).wrapping_add(1) == add_mod(x, k + 1),
        x.wrapping_add(1) == bump(x),
{
    vstd::arithmetic::div_mod::lemma_add_mod_noop(x as int + k, 1, 0x1_0000_0000_0000_0000);
    vstd::arithmetic::div_mod::lemma_small_mod(1, 0x1_0000_0000_0000_0000);
    if x as int + 1 < 0x1_0000_0000_0000_0000 {
        vstd::arithmetic::div_mod::lemma_small_mod((x as int + 1) as nat, 0x1_0000_0000_0000_0000);
    } else {
        vstd::arithmetic::div_mod::lemma_small_mod(0, 0x1_0000_0000_0000_0000);
    }
    let y = add_mod(x, k);
    if y as int + 1 < 0x1_0000_0000_0000_0000 {
        vstd::arithmetic::div_mod::lemma_small_mod((y as int + 1) as nat, 0x1_0000_0000_0000_0000);
    }
}

// ---------------------------------------------------------------------------
// Trusted access to `lru::LruCache<String, CacheEntry>`.
// ---------------------------------------------------------------------------

/// `LruCache::unbounded()`: an empty cache with no entry limit.
///
/// Trusted: a new cache has no entries, and its limit is `usize::MAX`
/// (`NonZeroUsize::MAX`).
#[verifier::external_body]
fn lru_unbounded() -> (c: lru::LruCache<String, CacheEntry>)
    ensures
        lru_entries(c) == Seq::<(Seq<char>, CacheEntry)>::empty(),
        lru_cap(c) == usize::MAX,
{
    lru::LruCache::unbounded()
}

/// `LruCache::len`.
///
/// Trusted: the number of entries.
#[verifier::external_body]
fn lru_len(c: &lru::LruCache<String, CacheEntry>) -> (n: usize)
    ensures
        n == lru_entries(*c).len(),
{
    c.len()
}

/// `LruCache::peek`: the entry for a key, without changing the order.
///
/// Trusted: the entry stored under the key, if any; keys are distinct.
#[verifier::external_body]
fn lru_peek<'a>(c: &'a lru::LruCache<String, CacheEntry>, key: &str) -> (r: Option<&'a CacheEntry>)
    ensures
        has_key(lru_entries(*c), key@) ==> r == Some(&lru_entries(*c)[index_of_key(lru_entries(*c), key@)].1),
        !has_key(lru_entries(*c), key@) ==> r is None,
{
    c.peek(key)
}

/// `LruCache::contains`, without changing the order.
///
/// Trusted: whether some entry has the key.
#[verifier::external_body]
fn lru_contains(c: &lru::LruCache<String, CacheEntry>, key: &str) -> (r: bool)
    ensures
        r == has_key(lru_entries(*c), key@),
{
    c.contains(key)
}

/// `LruCache::pop`: removes and returns the entry for a key.
///
/// Trusted: the entry with the key, if any, leaves the cache and the order
/// of the others is kept; the limit is unchanged.
#[verifier::external_body]
fn lru_pop(c: &mut lru::LruCache<String, CacheEntry>, key: &str) -> (r: Option<CacheEntry>)
    ensures
        lru_cap(*final(c)) == lru_cap(*old(c)),
        has_key(lru_entries(*old(c)), key@) ==> {
            let i = index_of_key(lru_entries(*old(c)), key@);
            &&& r == Some(lru_entries(*old(c))[i].1)
            &&& lru_entries(*final(c)) == lru_entries(*old(c)).remove(i)
        },
        !has_key(lru_entries(*old(c)), key@) ==> r is None && lru_entries(*final(c)) == lru_entries(*old(c)),
{
    c.pop(key)
}

/// `LruCache::put` on a cache below its limit.
///
/// Trusted: the entry becomes the most recently used, replacing and
/// returning the entry previously stored under the key; no other entry
/// leaves while fewer entries than the limit are held (an entry is evicted
/// only when the length equals `cap`); the limit is unchanged.
#[verifier::external_body]
fn lru_put(c: &mut lru::LruCache<String, CacheEntry>, key: String, e: CacheEntry) -> (r: Option<CacheEntry>)
    requires
        lru_entries(*old(c)).len() < lru_cap(*old(c)),
    ensures
        lru_cap(*final(c)) == lru_cap(*old(c)),
        has_key(lru_entries(*old(c)), key@) ==> {
            let i = index_of_key(lru_entries(*old(c)), key@);
            &&& r == Some(lru_entries(*old(c))[i].1)
            &&& lru_entries(*final(c)) == seq![(key@, e)] + lru_entries(*old(c)).remove(i)
        },
        !has_key(lru_entries(*old(c)), key@) ==> r is None && lru_entries(*final(c)) == seq![(key@, e)]
            + lru_entries(*old(c)),
{
    c.put(key, e)
}

/// `LruCache::pop_lru`: removes and returns the least recently used entry.
///
/// Trusted: the last entry in recency order leaves; `None` when empty; the
/// limit is unchanged.
#[verifier::external_body]
fn lru_pop_lru(c: &mut lru::LruCache<String, CacheEntry>) -> (r: Option<(String, CacheEntry)>)
    ensures
        lru_cap(*final(c)) == lru_cap(*old(c)),
        lru_entries(*old(c)).len() == 0 ==> r is None && lru_entries(*final(c)) == lru_entries(*old(c)),
        lru_entries(*old(c)).len() > 0 ==> {
            &&& r matches Some((k, e)) && k@ == lru_entries(*old(c)).last().0 && e == lru_entries(*old(c)).last().1
            &&& lru_entries(*final(c)) == lru_entries(*old(c)).drop_last()
        },
{
    c.pop_lru()
}

/// A key with the expiry and charged size of its entry.
pub struct EntrySummary {
    pub key: String,
    pub expire: u64,
    pub size: usize,
}

/// Summarises one entry.
fn summarize(key: &String, e: &CacheEntry) -> (s: EntrySummary)
    ensures
        s.key@ == key@,
        s.expire == e.value.expire,
        s.size == e.size,
{
    EntrySummary { key: key.clone(), expire: e.value.expire, size: e.size }
}

/// `LruCache::iter`, each entry summarised, from most to least recently used.
///
/// Trusted: the iteration visits every entry once, in recency order.
#[verifier::external_body]
fn lru_summaries(c: &lru::LruCache<String, CacheEntry>) -> (r: Vec<EntrySummary>)
    ensures
        r@.len() == lru_entries(*c).len(),
        forall|i: int| 0 <= i < r@.len() ==> {
            &&& (#[trigger] r@[i]).key@ == lru_entries(*c)[i].0
            &&& r@[i].expire == lru_entries(*c)[i].1.value.expire
            &&& r@[i].size == lru_entries(*c)[i].1.size
        },
{
    c.iter().map(|(k, e)| summarize(k, e)).collect()
}


// ---------------------------------------------------------------------------
// Lemmas.
// ---------------------------------------------------------------------------

proof fn lemma_total_le_memory(s: Seq<(Seq<char>, CacheEntry)>)
    ensures
        total_size(s) <= memory_of(s),
        s.len() > 0 ==> s.last().1.size <= total_size(s),
    decreases s.len(),
{
    if s.len() > 0 {
        lemma_total_le_memory(s.drop_last());
    }
}

proof fn lemma_len_le_total(s: Seq<(Seq<char>, CacheEntry)>)
    requires
        forall|i: int| 0 <= i < s.len() ==> entry_ok(#[trigger] s[i]),
    ensures
        s.len() * 64 <= total_size(s),
    decreases s.len(),
{
    if s.len() > 0 {
        assert forall|i: int| 0 <= i < s.drop_last().len() implies entry_ok(#[trigger] s.drop_last()[i]) by {
            assert(s.drop_last()[i] == s[i]);
        }
        lemma_len_le_total(s.drop_last());
        assert(entry_ok(s[s.len() - 1]));
    }
}

proof fn lemma_memory_bound(s: Seq<(Seq<char>, CacheEntry)>)
    requires
        forall|i: int| 0 <= i < s.len() ==> key_bytes(#[trigger] s[i].0) <= s[i].1.size,
    ensures
        memory_of(s) <= 2 * total_size(s),
    decreases s.len(),
{
    if s.len() > 0 {
        assert forall|i: int| 0 <= i < s.drop_last().len() implies key_bytes(#[trigger] s.drop_last()[i].0)
            <= s.drop_last()[i].1.size by {
            assert(s.drop_last()[i] == s[i]);
        }
        lemma_memory_bound(s.drop_last());
        assert(s.last() == s[s.len() - 1]);
    }
}

proof fn lemma_memory_prefix(s: Seq<(Seq<char>, CacheEntry)>, i: int)
    requires
        0 <= i <= s.len(),
    ensures
        memory_of(s.subrange(0, i)) <= memory_of(s),
    decreases s.len() - i,
{
    if i < s.len() {
        lemma_memory_prefix(s, i + 1);
        assert(s.subrange(0, i + 1).drop_last() =~= s.subrange(0, i));
    } else {
        assert(s.subrange(0, i) =~= s);
    }
}

proof fn lemma_distinct_remove(s: Seq<(Seq<char>, CacheEntry)>, i: int)
    requires
        keys_distinct(s),
        0 <= i < s.len(),
    ensures
        keys_distinct(s.remove(i)),
        forall|k: Seq<char>| has_key(s.remove(i), k) <==> (has_key(s, k) && k != s[i].0),
{
    let r = s.remove(i);
    assert forall|a: int, b: int| 0 <= a < b < r.len() implies r[a].0 != r[b].0 by {
        let a2 = if a < i { a } else { a + 1 };
        let b2 = if b < i { b } else { b + 1 };
        assert(r[a] == s[a2]);
        assert(r[b] == s[b2]);
    }
    assert forall|k: Seq<char>| has_key(r, k) <==> (has_key(s, k) && k != s[i].0) by {
        if has_key(r, k) {
            let a = choose|a: int| 0 <= a < r.len() && r[a].0 == k;
            let a2 = if a < i { a } else { a + 1 };
            assert(r[a] == s[a2]);
        }
        if has_key(s, k) && k != s[i].0 {
            let a = choose|a: int| 0 <= a < s.len() && s[a].0 == k;
            if a < i {
                assert(r[a] == s[a]);
            } else {
                assert(r[a - 1] == s[a]);
            }
        }
    }
}

proof fn lemma_distinct_prepend(s: Seq<(Seq<char>, CacheEntry)>, e: (Seq<char>, CacheEntry))
    requires
        keys_distinct(s),
        !has_key(s, e.0),
    ensures
        keys_distinct(seq![e] + s),
{
    let t = seq![e] + s;
    assert forall|a: int, b: int| 0 <= a < b < t.len() implies t[a].0 != t[b].0 by {
        assert(t[b] == s[b - 1]);
        if a > 0 {
            assert(t[a] == s[a - 1]);
        }
    }
}

proof fn lemma_total_prepend(s: Seq<(Seq<char>, CacheEntry)>, e: (Seq<char>, CacheEntry))
    ensures
        total_size(seq![e] + s) == e.1.size + total_size(s),
        memory_of(seq![e] + s) == key_bytes(e.0) + e.1.size + memory_of(s),
    decreases s.len(),
{
    let t = seq![e] + s;
    if s.len() > 0 {
        lemma_total_prepend(s.drop_last(), e);
        assert(t.drop_last() =~= seq![e] + s.drop_last());
        assert(t.last() == s.last());
        assert(total_size(t) == total_size(t.drop_last()) + t.last().1.size);
        assert(memory_of(t) == memory_of(t.drop_last()) + key_bytes(t.last().0) + t.last().1.size);
    } else {
        assert(t.drop_last() =~= Seq::<(Seq<char>, CacheEntry)>::empty());
        assert(t.last() == e);
        assert(total_size(t) == total_size(t.drop_last()) + t.last().1.size);
        assert(memory_of(t) == memory_of(t.drop_last()) + key_bytes(t.last().0) + t.last().1.size);
    }
}

proof fn lemma_total_remove(s: Seq<(Seq<char>, CacheEntry)>, i: int)
    requires
        0 <= i < s.len(),
    ensures
        total_size(s) == total_size(s.remove(i)) + s[i].1.size,
        memory_of(s) == memory_of(s.remove(i)) + key_bytes(s[i].0) + s[i].1.size,
    decreases s.len(),
{
    if i == s.len() - 1 {
        assert(s.remove(i) =~= s.drop_last());
    } else {
        lemma_total_remove(s.drop_last(), i);
        assert(s.remove(i).drop_last() =~= s.drop_last().remove(i));
        assert(s.remove(i).last() == s.last());
    }
}

/// The per-entry facts the cache keeps.
pub open spec fn entry_ok(e: (Seq<char>, CacheEntry)) -> bool {
    &&& e.1.size == item_size(e.0, e.1.value.data@)
    &&& !e.1.value.compressed
}

proof fn lemma_entries_ok_remove(s: Seq<(Seq<char>, CacheEntry)>, i: int)
    requires
        forall|k: int| 0 <= k < s.len() ==> entry_ok(#[trigger] s[k]),
        0 <= i < s.len(),
    ensures
        forall|k: int| 0 <= k < s.remove(i).len() ==> entry_ok(#[trigger] s.remove(i)[k]),
{
    assert forall|k: int| 0 <= k < s.remove(i).len() implies entry_ok(#[trigger] s.remove(i)[k]) by {
        if k < i {
            assert(s.remove(i)[k] == s[k]);
        } else {
            assert(s.remove(i)[k] == s[k + 1]);
        }
    }
}

proof fn lemma_touch_preserves(s: Seq<(Seq<char>, CacheEntry)>, k: Seq<char>)
    requires
        keys_distinct(s),
        forall|j: int| 0 <= j < s.len() ==> entry_ok(#[trigger] s[j]),
    ensures
        keys_distinct(touch(s, k)),
        forall|j: int| 0 <= j < touch(s, k).len() ==> entry_ok(#[trigger] touch(s, k)[j]),
        total_size(touch(s, k)) == total_size(s),
        touch(s, k).len() == s.len(),
        forall|x: Seq<char>| has_key(touch(s, k), x) <==> has_key(s, x),
{
    if has_key(s, k) {
        let i = index_of_key(s, k);
        let e = s[i];
        lemma_distinct_remove(s, i);
        lemma_distinct_prepend(s.remove(i), e);
        lemma_total_prepend(s.remove(i), e);
        lemma_total_remove(s, i);
        lemma_entries_ok_remove(s, i);
        let t = touch(s, k);
        assert forall|j: int| 0 <= j < t.len() implies entry_ok(#[trigger] t[j]) by {
            if j > 0 {
                assert(t[j] == s.remove(i)[j - 1]);
            }
        }
        assert forall|x: Seq<char>| has_key(t, x) <==> has_key(s, x) by {
            if has_key(t, x) {
                let a = choose|a: int| 0 <= a < t.len() && t[a].0 == x;
                if a > 0 {
                    assert(t[a] == s.remove(i)[a - 1]);
                }
            }
            if has_key(s, x) {
                if x == k {
                    assert(t[0].0 == x);
                } else {
                    let a = choose|a: int| 0 <= a < s.remove(i).len() && s.remove(i)[a].0 == x;
                    assert(t[a + 1] == s.remove(i)[a]);
                }
            }
        }
    }
}

/// The keys of the entries that have expired at time `now`, in order.
pub open spec fn expired_keys(s: Seq<(Seq<char>, CacheEntry)>, now: u64) -> Seq<Seq<char>>
    decreases s.len(),
{
    if s.len() == 0 {
        Seq::empty()
    } else if expired_at(s.last().1.value.expire, now) {
        expired_keys(s.drop_last(), now).push(s.last().0)
    } else {
        expired_keys(s.drop_last(), now)
    }
}

/// The entries whose keys are not in `ks`, in order.
pub open spec fn drop_keys(s: Seq<(Seq<char>, CacheEntry)>, ks: Seq<Seq<char>>) -> Seq<(Seq<char>, CacheEntry)>
    decreases s.len(),
{
    if s.len() == 0 {
        s
    } else if ks.contains(s.last().0) {
        drop_keys(s.drop_last(), ks)
    } else {
        drop_keys(s.drop_last(), ks).push(s.last())
    }
}

proof fn lemma_drop_last_keys(s: Seq<(Seq<char>, CacheEntry)>)
    requires
        keys_distinct(s),
        s.len() > 0,
    ensures
        keys_distinct(s.drop_last()),
        !has_key(s.drop_last(), s.last().0),
{
    assert forall|a: int, b: int| 0 <= a < b < s.drop_last().len() implies s.drop_last()[a].0 != s.drop_last()[b].0 by {
        assert(s.drop_last()[a] == s[a] && s.drop_last()[b] == s[b]);
    }
    if has_key(s.drop_last(), s.last().0) {
        let a = choose|a: int| 0 <= a < s.drop_last().len() && s.drop_last()[a].0 == s.last().0;
        assert(s.drop_last()[a] == s[a]);
    }
}

proof fn lemma_expired_keys_present(s: Seq<(Seq<char>, CacheEntry)>, now: u64, k: Seq<char>)
    requires
        expired_keys(s, now).contains(k),
    ensures
        has_key(s, k),
    decreases s.len(),
{
    if s.len() > 0 {
        let ks = expired_keys(s.drop_last(), now);
        if ks.contains(k) {
            lemma_expired_keys_present(s.drop_last(), now, k);
            let a = choose|a: int| 0 <= a < s.drop_last().len() && s.drop_last()[a].0 == k;
            assert(s[a] == s.drop_last()[a]);
        } else {
            assert(s[s.len() - 1].0 == k);
        }
    }
}

proof fn lemma_drop_absent_key(s: Seq<(Seq<char>, CacheEntry)>, ks: Seq<Seq<char>>, k: Seq<char>)
    requires
        !has_key(s, k),
    ensures
        drop_keys(s, ks.push(k)) == drop_keys(s, ks),
    decreases s.len(),
{
    if s.len() > 0 {
        assert(!has_key(s.drop_last(), k)) by {
            if has_key(s.drop_last(), k) {
                let a = choose|a: int| 0 <= a < s.drop_last().len() && s.drop_last()[a].0 == k;
                assert(s[a] == s.drop_last()[a]);
            }
        }
        lemma_drop_absent_key(s.drop_last(), ks, k);
        assert(s.last() == s[s.len() - 1]);
        assert(ks.push(k).contains(s.last().0) == ks.contains(s.last().0)) by {
            if ks.push(k).contains(s.last().0) {
                let a = choose|a: int| 0 <= a < ks.push(k).len() && ks.push(k)[a] == s.last().0;
                if a < ks.len() {
                    assert(ks[a] == ks.push(k)[a]);
                }
            }
            if ks.contains(s.last().0) {
                let a = choose|a: int| 0 <= a < ks.len() && ks[a] == s.last().0;
                assert(ks.push(k)[a] == ks[a]);
            }
        }
    }
}

proof fn lemma_unexpired_is_drop(s: Seq<(Seq<char>, CacheEntry)>, now: u64)
    requires
        keys_distinct(s),
    ensures
        unexpired(s, now) == drop_keys(s, expired_keys(s, now)),
    decreases s.len(),
{
    if s.len() > 0 {
        let s0 = s.drop_last();
        let x = s.last();
        lemma_drop_last_keys(s);
        lemma_unexpired_is_drop(s0, now);
        let k0 = expired_keys(s0, now);
        if k0.contains(x.0) {
            lemma_expired_keys_present(s0, now, x.0);
        }
        if expired_at(x.1.value.expire, now) {
            lemma_drop_absent_key(s0, k0, x.0);
            assert(k0.push(x.0)[k0.len() as int] == x.0);
        }
    }
}

proof fn lemma_drop_one_more(s: Seq<(Seq<char>, CacheEntry)>, ks: Seq<Seq<char>>, k: Seq<char>)
    requires
        keys_distinct(s),
    ensures
        keys_distinct(drop_keys(s, ks)),
        forall|x: Seq<char>| has_key(drop_keys(s, ks), x) <==> (has_key(s, x) && !ks.contains(x)),
        has_key(drop_keys(s, ks), k) ==> drop_keys(s, ks).remove(index_of_key(drop_keys(s, ks), k))
            == drop_keys(s, ks.push(k)),
        !has_key(drop_keys(s, ks), k) ==> drop_keys(s, ks) == drop_keys(s, ks.push(k)),
    decreases s.len(),
{
    let t = drop_keys(s, ks);
    let t2 = drop_keys(s, ks.push(k));
    assert forall|y: Seq<char>| ks.push(k).contains(y) <==> (ks.contains(y) || y == k) by {
        if ks.push(k).contains(y) {
            let a = choose|a: int| 0 <= a < ks.push(k).len() && ks.push(k)[a] == y;
            if a < ks.len() {
                assert(ks[a] == ks.push(k)[a]);
            }
        }
        if ks.contains(y) {
            let a = choose|a: int| 0 <= a < ks.len() && ks[a] == y;
            assert(ks.push(k)[a] == ks[a]);
        }
        if y == k {
            assert(ks.push(k)[ks.len() as int] == k);
        }
    }
    if s.len() == 0 {
        assert(!has_key(t, k));
    } else {
        let s0 = s.drop_last();
        let x = s.last();
        lemma_drop_last_keys(s);
        lemma_drop_one_more(s0, ks, k);
        let u = drop_keys(s0, ks);
        let u2 = drop_keys(s0, ks.push(k));
        assert forall|y: Seq<char>| has_key(s, y) <==> (has_key(s0, y) || y == x.0) by {
            if has_key(s, y) {
                let a = choose|a: int| 0 <= a < s.len() && s[a].0 == y;
                if a < s0.len() {
                    assert(s0[a] == s[a]);
                }
            }
            if has_key(s0, y) {
                let a = choose|a: int| 0 <= a < s0.len() && s0[a].0 == y;
                assert(s0[a] == s[a]);
            }
            if y == x.0 {
                assert(s[s.len() - 1] == x);
            }
        }
        if ks.contains(x.0) {
            assert(t == u);
            assert(t2 == u2);
        } else {
            assert(t == u.push(x));
            assert(!has_key(u, x.0));
            assert forall|a: int, b: int| 0 <= a < b < t.len() implies t[a].0 != t[b].0 by {
                if b == t.len() - 1 {
                    assert(t[a] == u[a]);
                    assert(t[b] == x);
                } else {
                    assert(t[a] == u[a] && t[b] == u[b]);
                }
            }
            assert forall|y: Seq<char>| has_key(t, y) <==> (has_key(s, y) && !ks.contains(y)) by {
                if has_key(t, y) {
                    let a = choose|a: int| 0 <= a < t.len() && t[a].0 == y;
                    if a < u.len() {
                        assert(t[a] == u[a]);
                    }
                }
                if has_key(u, y) {
                    let a = choose|a: int| 0 <= a < u.len() && u[a].0 == y;
                    assert(t[a] == u[a]);
                }
                if y == x.0 {
                    assert(t[u.len() as int] == x);
                }
            }
            if x.0 == k {
                assert(t2 == u2);
                assert(u2 == u);
                assert(has_key(t, k)) by {
                    assert(t[u.len() as int] == x);
                }
                let i = index_of_key(t, k);
                assert(t[i].0 == k);
                if i < u.len() {
                    assert(t[i] == u[i]);
                    assert(false);
                }
                assert(t.remove(i) =~= u);
            } else {
                assert(t2 == u2.push(x));
                if has_key(t, k) {
                    let i = index_of_key(t, k);
                    if i == u.len() {
                        assert(t[i] == x);
                        assert(false);
                    }
                    assert(t[i] == u[i]);
                    assert(has_key(u, k));
                    assert(index_of_key(u, k) == i) by {
                        let j = index_of_key(u, k);
                        assert(t[j] == u[j]);
                    }
                    assert(t.remove(i) =~= u.remove(i).push(x));
                } else {
                    assert(!has_key(u, k)) by {
                        if has_key(u, k) {
                            let a = choose|a: int| 0 <= a < u.len() && u[a].0 == k;
                            assert(t[a] == u[a]);
                        }
                    }
                }
            }
        }
    }
}

// ---------------------------------------------------------------------------
// What a read finds, and the laws that tie reads to writes.
// ---------------------------------------------------------------------------

/// What a read of `k` at time `now` finds in the entries `s`: the bytes of
/// its entry, unless there is none or it has expired.
pub open spec fn lookup(s: Seq<(Seq<char>, CacheEntry)>, k: Seq<char>, now: u64) -> Option<Seq<u8>> {
    if has_key(s, k) && !expired_at(s[index_of_key(s, k)].1.value.expire, now) {
        Some(s[index_of_key(s, k)].1.value.data@)
    } else {
        None
    }
}

/// The bytes of an optional byte vector.
pub open spec fn bytes_of(o: Option<Vec<u8>>) -> Option<Seq<u8>> {
    match o {
        Some(d) => Some(d@),
        None => None,
    }
}

/// The absolute expiry of an item stored at `now` for `ttl_secs` seconds
/// (0: it never expires).
pub open spec fn expiry_for(ttl_secs: u32, now: u64) -> u64 {
    if ttl_secs > 0 {
        now.wrapping_add(ttl_secs as u64)
    } else {
        0
    }
}

/// The entry a new item gets.
pub open spec fn new_entry(k: Seq<char>, value: Vec<u8>, ttl_secs: u32, now: u64) -> CacheEntry {
    CacheEntry {
        value: Value { data: value, expire: expiry_for(ttl_secs, now), last_access: now, access_count: 1, compressed: false },
        size: item_size(k, value@) as usize,
    }
}

/// The entries after storing `k` in a cache of `max` bytes holding `s`: an
/// item too large leaves them as they are; otherwise the key's old entry, if
/// any, goes, least recently used entries are evicted as needed, and the key
/// goes to the front with its new value and expiry.
pub open spec fn entries_after_put(
    s: Seq<(Seq<char>, CacheEntry)>,
    k: Seq<char>,
    value: Vec<u8>,
    ttl_secs: u32,
    now: u64,
    max: nat,
) -> Seq<(Seq<char>, CacheEntry)> {
    let item = item_size(k, value@);
    if item > max {
        s
    } else {
        let s0 = entries_after_delete(s, k);
        seq![(k, new_entry(k, value, ttl_secs, now))] + after_evictions(s0, memory_of(s0) as int, item as int, max as int)
    }
}

/// The entries after removing `k`.
pub open spec fn entries_after_delete(s: Seq<(Seq<char>, CacheEntry)>, k: Seq<char>) -> Seq<(Seq<char>, CacheEntry)> {
    if has_key(s, k) {
        s.remove(index_of_key(s, k))
    } else {
        s
    }
}

proof fn lemma_index_of_distinct(s: Seq<(Seq<char>, CacheEntry)>, k: Seq<char>, i: int)
    requires
        keys_distinct(s),
        0 <= i < s.len(),
        s[i].0 == k,
    ensures
        has_key(s, k),
        index_of_key(s, k) == i,
{
    assert(has_key(s, k));
}

proof fn lemma_evictions_prefix(s: Seq<(Seq<char>, CacheEntry)>, cur: int, item: int, max: int)
    ensures
        after_evictions(s, cur, item, max).len() <= s.len(),
        after_evictions(s, cur, item, max) == s.subrange(0, after_evictions(s, cur, item, max).len() as int),
    decreases s.len(),
{
    if !(cur + item <= max || s.len() == 0) {
        lemma_evictions_prefix(s.drop_last(), cur - s.last().1.size, item, max);
        let r = after_evictions(s.drop_last(), cur - s.last().1.size, item, max);
        assert(r =~= s.subrange(0, r.len() as int));
    } else {
        assert(s =~= s.subrange(0, s.len() as int));
    }
}

/// A read right after a key that fits was stored finds the value stored,
/// whether or not the key held a value before, as long as it has not
/// expired by the time of the read.
pub proof fn lemma_get_after_put(
    s: Seq<(Seq<char>, CacheEntry)>,
    k: Seq<char>,
    value: Vec<u8>,
    ttl_secs: u32,
    now: u64,
    max: nat,
    later: u64,
)
    requires
        keys_distinct(s),
        item_size(k, value@) <= max,
        !expired_at(expiry_for(ttl_secs, now), later),
    ensures
        lookup(entries_after_put(s, k, value, ttl_secs, now, max), k, later) == Some(value@),
{
    let s0 = entries_after_delete(s, k);
    lemma_delete_shape(s, k);
    let item = item_size(k, value@);
    let kept = after_evictions(s0, memory_of(s0) as int, item as int, max as int);
    let t = entries_after_put(s, k, value, ttl_secs, now, max);
    lemma_evictions_prefix(s0, memory_of(s0) as int, item as int, max as int);
    assert(t == seq![(k, new_entry(k, value, ttl_secs, now))] + kept);
    assert forall|a: int, b: int| 0 <= a < b < t.len() implies t[a].0 != t[b].0 by {
        assert(t[b] == kept[b - 1]);
        assert(kept[b - 1] == s0[b - 1]);
        if a > 0 {
            assert(t[a] == kept[a - 1]);
            assert(kept[a - 1] == s0[a - 1]);
        } else {
            assert(s0[b - 1].0 != k);
        }
    }
    lemma_index_of_distinct(t, k, 0);
}

/// Removing a key keeps the keys distinct and leaves no entry for it.
proof fn lemma_delete_shape(s: Seq<(Seq<char>, CacheEntry)>, k: Seq<char>)
    requires
        keys_distinct(s),
    ensures
        keys_distinct(entries_after_delete(s, k)),
        forall|x: Seq<char>| has_key(entries_after_delete(s, k), x) <==> (has_key(s, x) && x != k),
        forall|i: int| 0 <= i < entries_after_delete(s, k).len() ==> #[trigger] entries_after_delete(s, k)[i].0 != k,
{
    if has_key(s, k) {
        let i = index_of_key(s, k);
        lemma_distinct_remove(s, i);
    }
    let t = entries_after_delete(s, k);
    assert forall|i: int| 0 <= i < t.len() implies #[trigger] t[i].0 != k by {
        if t[i].0 == k {
            assert(has_key(t, k));
        }
    }
}

/// After a key is removed, a read of it finds nothing.
pub proof fn lemma_get_after_delete(s: Seq<(Seq<char>, CacheEntry)>, k: Seq<char>, now: u64)
    requires
        keys_distinct(s),
    ensures
        lookup(entries_after_delete(s, k), k, now) is None,
{
    if has_key(s, k) {
        lemma_distinct_remove(s, index_of_key(s, k));
    }
}

/// Removing one key leaves what a read of any other key finds.
pub proof fn lemma_delete_keeps_others(s: Seq<(Seq<char>, CacheEntry)>, k: Seq<char>, other: Seq<char>, now: u64)
    requires
        keys_distinct(s),
        other != k,
    ensures
        lookup(entries_after_delete(s, k), other, now) == lookup(s, other, now),
{
    if has_key(s, k) {
        let i = index_of_key(s, k);
        let t = s.remove(i);
        lemma_distinct_remove(s, i);
        if has_key(s, other) {
            let j = index_of_key(s, other);
            let p = if j < i { j } else { j - 1 };
            assert(t[p] == s[j]);
            lemma_index_of_distinct(t, other, p);
        }
    }
}

/// Moving one key to the front changes what no read finds.
proof fn lemma_touch_keeps_lookup(s: Seq<(Seq<char>, CacheEntry)>, x: Seq<char>, k: Seq<char>, now: u64)
    requires
        keys_distinct(s),
    ensures
        keys_distinct(touch(s, x)),
        lookup(touch(s, x), k, now) == lookup(s, k, now),
{
    if has_key(s, x) {
        let i = index_of_key(s, x);
        let e = s[i];
        let r = s.remove(i);
        let t = touch(s, x);
        lemma_distinct_remove(s, i);
        lemma_distinct_prepend(r, e);
        assert(t == seq![e] + r);
        if k == x {
            lemma_index_of_distinct(t, k, 0);
        } else if has_key(s, k) {
            let j = index_of_key(s, k);
            let p = if j < i { j } else { j - 1 };
            assert(r[p] == s[j]);
            assert(t[p + 1] == r[p]);
            lemma_index_of_distinct(t, k, p + 1);
        } else {
            if has_key(t, k) {
                let a = choose|a: int| 0 <= a < t.len() && t[a].0 == k;
                assert(a > 0);
                assert(t[a] == r[a - 1]);
                assert(has_key(r, k));
            }
        }
    }
}

/// Reordering keys by recency, as reads do, changes what no read finds.
pub proof fn lemma_touches_keep_lookup(s: Seq<(Seq<char>, CacheEntry)>, ks: Seq<Seq<char>>, k: Seq<char>, now: u64)
    requires
        keys_distinct(s),
    ensures
        keys_distinct(touch_all(s, ks)),
        lookup(touch_all(s, ks), k, now) == lookup(s, k, now),
    decreases ks.len(),
{
    if ks.len() > 0 {
        lemma_touches_keep_lookup(s, ks.drop_last(), k, now);
        lemma_touch_keeps_lookup(touch_all(s, ks.drop_last()), ks.last(), k, now);
    }
}

/// After a sweep at time `now`, no entry left has expired at that time.
pub proof fn lemma_sweep_leaves_unexpired(s: Seq<(Seq<char>, CacheEntry)>, now: u64)
    ensures
        forall|i: int| 0 <= i < unexpired(s, now).len() ==> !expired_at(#[trigger] unexpired(s, now)[i].1.value.expire, now),
    decreases s.len(),
{
    if s.len() > 0 {
        lemma_sweep_leaves_unexpired(s.drop_last(), now);
        let u = unexpired(s.drop_last(), now);
        assert forall|i: int| 0 <= i < unexpired(s, now).len() implies !expired_at(#[trigger] unexpired(s, now)[i].1.value.expire, now) by {
            if i < u.len() {
                assert(unexpired(s, now)[i] == u[i]);
            }
        }
    }
}

proof fn lemma_drop_none(s: Seq<(Seq<char>, CacheEntry)>)
    ensures
        drop_keys(s, Seq::<Seq<char>>::empty()) == s,
    decreases s.len(),
{
    if s.len() > 0 {
        lemma_drop_none(s.drop_last());
        assert(s.drop_last().push(s.last()) =~= s);
    }
}

proof fn lemma_unexpired_count(s: Seq<(Seq<char>, CacheEntry)>, now: u64)
    ensures
        unexpired(s, now).len() + expired_keys(s, now).len() == s.len(),
    decreases s.len(),
{
    if s.len() > 0 {
        lemma_unexpired_count(s.drop_last(), now);
    }
}

/// `x + n` with wraparound.
fn add_wrapping_u64(x: u64, n: usize) -> (r: u64)
    ensures
        r == add_mod(x, n as nat),
{
    let r = x.wrapping_add(n as u64);
    proof {
        let m: int = 0x1_0000_0000_0000_0000;
        if x + n > u64::MAX {
            vstd::arithmetic::div_mod::lemma_small_mod((x + n - m) as nat, m as nat);
            vstd::arithmetic::div_mod::lemma_mod_add_multiples_vanish(x + n - m, m);
        } else {
            vstd::arithmetic::div_mod::lemma_small_mod((x + n) as nat, m as nat);
        }
    }
    r
}

// ---------------------------------------------------------------------------
// The cache.
// ---------------------------------------------------------------------------

/// Reads are queued before they reorder the cache; this many queued keys
/// trigger the reordering.
pub const LRU_UPDATE_THRESHOLD: usize = 100;

/// Every key in the queue once.
pub open spec fn queue_distinct(q: Seq<String>) -> bool {
    forall|i: int, j: int| 0 <= i < j < q.len() ==> q[i]@ != q[j]@
}

/// The character views of the queued keys.
pub open spec fn queue_keys(q: Seq<String>) -> Seq<Seq<char>> {
    q.map_values(|s: String| s@)
}

/// Whether the size charged for `value` under `key` (key bytes, value bytes
/// and 64) can be computed in a `usize`; a cache can only take such items.
pub fn fits(key: &str, value: &[u8]) -> (b: bool)
    ensures
        b == (item_size(key@, value@) <= usize::MAX),
{
    let k = key.as_bytes().len();
    match k.checked_add(value.len()) {
        Some(n) => n.checked_add(64).is_some(),
        None => false,
    }
}

/// What a read of `key` at time `now` does, taking the cache from `before`
/// to `after` and answering `r`: a missing key is a miss; an expired entry
/// is removed and is a miss; otherwise the value's bytes are the answer, a
/// hit is counted, and the key joins the queue of pending touches (when the
/// queue reaches its threshold, every queued key moves to the front in queue
/// order and the queue empties).
pub open spec fn read_effect(before: Cache, after: Cache, key: Seq<char>, now: u64, r: Result<Option<Vec<u8>>>) -> bool {
    &&& r matches Ok(o) && bytes_of(o) == lookup(before.entries(), key, now)
    &&& ({
        let s = before.entries();
        let st = before.counters();
        if !has_key(s, key) {
            &&& r == Ok::<Option<Vec<u8>>, BlazeCacheError>(None)
            &&& after.entries() == s
            &&& after.pending_touches() == before.pending_touches()
            &&& after.counters() == (CacheStats { misses: bump(st.misses), ..st })
        } else if expired_at(s[index_of_key(s, key)].1.value.expire, now) {
            &&& r == Ok::<Option<Vec<u8>>, BlazeCacheError>(None)
            &&& after.entries() == s.remove(index_of_key(s, key))
            &&& after.pending_touches() == before.pending_touches()
            &&& after.counters() == (CacheStats { misses: bump(st.misses), ..st })
        } else {
            let q = if before.pending_touches().contains(key) {
                before.pending_touches()
            } else {
                before.pending_touches().push(key)
            };
            &&& r matches Ok(Some(d)) && d@ == s[index_of_key(s, key)].1.value.data@
            &&& after.counters() == (CacheStats { hits: bump(st.hits), ..st })
            &&& if q.len() >= LRU_UPDATE_THRESHOLD {
                &&& after.entries() == touch_all(s, q)
                &&& after.pending_touches().len() == 0
            } else {
                &&& after.entries() == s
                &&& after.pending_touches() == q
            }
        }
    })
}

/// What a write of `value` under `key` with `ttl_secs` at time `now` does,
/// taking the cache from `before` to `after` and answering `r`: an item
/// charged more than the capacity is refused with `ItemTooLarge` and counted
/// as rejected; otherwise the key's old entry, if any, is removed, least
/// recently used entries are evicted while the running usage plus the new
/// item's size exceeds the capacity, and the key becomes the most recently
/// used with the new value and expiry; puts and evictions are counted.
pub open spec fn put_effect(
    before: Cache,
    after: Cache,
    key: Seq<char>,
    value: Vec<u8>,
    ttl_secs: u32,
    now: u64,
    r: Result<()>,
) -> bool {
    &&& after.entries() == entries_after_put(before.entries(), key, value, ttl_secs, now, before.capacity())
    &&& ({
        let s = before.entries();
        let st = before.counters();
        let max = before.capacity();
        let item = item_size(key, value@);
        if item > max {
            &&& r == Err::<(), BlazeCacheError>(BlazeCacheError::ItemTooLarge { item_size: item as usize, max_size: max as usize })
            &&& after.entries() == s
            &&& after.counters() == (CacheStats { rejected_items: bump(st.rejected_items), ..st })
        } else {
            let s0 = entries_after_delete(s, key);
            let kept = after_evictions(s0, memory_of(s0) as int, item as int, max as int);
            let n = eviction_count(s0, memory_of(s0) as int, item as int, max as int);
            let expire: u64 = if ttl_secs > 0 { now.wrapping_add(ttl_secs as u64) } else { 0 };
            let entry = CacheEntry {
                value: Value { data: value, expire, last_access: now, access_count: 1, compressed: false },
                size: item as usize,
            };
            &&& r is Ok
            &&& after.entries() == seq![(key, entry)] + kept
            &&& after.counters() == (CacheStats {
                puts: bump(st.puts),
                evictions: add_mod(st.evictions, n),
                entry_count: (kept.len() + 1) as usize,
                memory_usage: memory_of(seq![(key, entry)] + kept) as usize,
                ..st
            })
        }
    })
}

/// A size-bounded LRU cache of byte values under string keys.
pub struct Cache {
    data: lru::LruCache<String, CacheEntry>,
    max_size: usize,
    stats: CacheStats,
    cleanup_interval: Duration,
    lru_update_queue: Vec<String>,
    lru_update_threshold: usize,
}

impl Cache {
    /// The entries, from most to least recently used.
    pub closed spec fn entries(&self) -> Seq<(Seq<char>, CacheEntry)> {
        lru_entries(self.data)
    }

    /// The capacity in charged bytes.
    pub closed spec fn capacity(&self) -> nat {
        self.max_size as nat
    }

    /// The activity counters.
    pub closed spec fn counters(&self) -> CacheStats {
        self.stats
    }

    /// The interval of the background expiry sweep.
    pub closed spec fn sweep_interval(&self) -> Duration {
        self.cleanup_interval
    }

    /// The keys read since the last reordering, in order of first read.
    pub closed spec fn pending_touches(&self) -> Seq<Seq<char>> {
        queue_keys(self.lru_update_queue@)
    }

    /// The cache's invariant: keys are distinct, every entry is charged its
    /// item size and stored uncompressed, the charged sizes sum to at most
    /// the capacity, and the capacity leaves room to add up usage.
    pub closed spec fn wf(&self) -> bool {
        &&& lru_cap(self.data) == usize::MAX
        &&& keys_distinct(self.entries())
        &&& forall|i: int| 0 <= i < self.entries().len() ==> entry_ok(#[trigger] self.entries()[i])
        &&& total_size(self.entries()) <= self.max_size
        &&& self.max_size <= usize::MAX / 2
        &&& queue_distinct(self.lru_update_queue@)
        &&& self.lru_update_queue@.len() < self.lru_update_threshold
        &&& self.lru_update_threshold == LRU_UPDATE_THRESHOLD
    }

    /// The charged sizes sum to at most the capacity.
    pub proof fn lemma_size_bound(&self)
        requires
            self.wf(),
        ensures
            total_size(self.entries()) <= self.capacity(),
            keys_distinct(self.entries()),
            forall|i: int| 0 <= i < self.entries().len() ==> entry_ok(#[trigger] self.entries()[i]),
    {
    }

    /// An empty cache of `max_size` charged bytes (at most half the address
    /// space, so that usage can be summed).
    pub fn new(max_size: usize) -> (c: Self)
        requires
            max_size <= usize::MAX / 2,
        ensures
            c.wf(),
            c.entries().len() == 0,
            c.capacity() == max_size,
            c.counters() == CacheStats::default_spec(),
            c.pending_touches().len() == 0,
            c.sweep_interval() == duration_from_secs(60),
    {
        let c = Cache {
            data: lru_unbounded(),
            max_size,
            stats: CacheStats::new_zeroed(),
            cleanup_interval: Duration::from_secs(60),
            lru_update_queue: Vec::new(),
            lru_update_threshold: LRU_UPDATE_THRESHOLD,
        };
        assert(c.pending_touches() =~= Seq::<Seq<char>>::empty());
        c
    }

    /// The same cache with another interval for its background expiry sweep.
    pub fn with_cleanup_interval(self, interval: Duration) -> (c: Self)
        ensures
            c.entries() == self.entries(),
            c.capacity() == self.capacity(),
            c.counters() == self.counters(),
            c.pending_touches() == self.pending_touches(),
            c.wf() == self.wf(),
            c.sweep_interval() == interval,
    {
        Cache { cleanup_interval: interval, ..self }
    }

    /// The interval of the background expiry sweep.
    pub fn cleanup_interval(&self) -> (d: Duration)
        ensures
            d == self.sweep_interval(),
    {
        self.cleanup_interval
    }

    /// The number of entries.
    pub fn len(&self) -> (n: usize)
        ensures
            n == self.entries().len(),
    {
        lru_len(&self.data)
    }

    /// Whether the cache holds no entry.
    pub fn is_empty(&self) -> (b: bool)
        ensures
            b == (self.entries().len() == 0),
    {
        lru_len(&self.data) == 0
    }

    /// The counters.
    pub fn stats(&self) -> (s: CacheStats)
        ensures
            s == self.counters(),
    {
        self.stats.copy()
    }

    /// Hot items are not tracked by this cache: always empty.
    pub fn get_hot_items(&self, _limit: usize, _threshold: u64) -> (r: Vec<(String, Vec<u8>)>)
        ensures
            r@.len() == 0,
    {
        Vec::new()
    }

    /// The reported memory usage: the sum over entries of key bytes plus
    /// charged size.
    fn calculate_size(&self) -> (n: usize)
        requires
            self.wf(),
        ensures
            n == memory_of(self.entries()),
    {
        let items = lru_summaries(&self.data);
        let ghost s = self.entries();
        proof {
            lemma_memory_bound(s);
        }
        let mut sum: usize = 0;
        let mut i: usize = 0;
        while i < items.len()
            invariant
                s == self.entries(),
                items@.len() == s.len(),
                forall|k: int| 0 <= k < items@.len() ==> {
                    &&& (#[trigger] items@[k]).key@ == s[k].0
                    &&& items@[k].size == s[k].1.size
                },
                memory_of(s) <= usize::MAX,
                i <= s.len(),
                sum == memory_of(s.subrange(0, i as int)),
            decreases s.len() - i,
        {
            let it = &items[i];
            proof {
                assert(s.subrange(0, i + 1).drop_last() =~= s.subrange(0, i as int));
                lemma_memory_prefix(s, i + 1);
                assert(it.key@ == s[i as int].0);
            }
            sum = sum + it.key.as_str().len() + it.size;
            i = i + 1;
        }
        assert(s.subrange(0, s.len() as int) =~= s);
        sum
    }

    /// Reads `key` at time `now`.
    ///
    /// A missing key is a miss. An expired entry is removed and is a miss.
    /// Otherwise the value's bytes are returned, a hit is counted, and the key
    /// joins the queue of pending touches; when the queue reaches its
    /// threshold, every queued key moves to the front in queue order and the
    /// queue empties. A read changes what no read at the same time finds.
    pub fn get_at(&mut self, key: &str, now: u64) -> (r: Result<Option<Vec<u8>>>)
        requires
            old(self).wf(),
        ensures
            final(self).wf(),
            final(self).capacity() == old(self).capacity(),
            read_effect(*old(self), *final(self), key@, now, r),
            forall|k: Seq<char>| #[trigger] lookup(final(self).entries(), k, now) == lookup(old(self).entries(), k, now),
    {
        let ghost s = self.entries();
        let r = self.read_at(key, now);
        proof {
            let t = self.entries();
            if has_key(s, key@) {
                let i = index_of_key(s, key@);
                if expired_at(s[i].1.value.expire, now) {
                    assert forall|k: Seq<char>| #[trigger] lookup(t, k, now) == lookup(s, k, now) by {
                        if k == key@ {
                            lemma_get_after_delete(s, key@, now);
                        } else {
                            lemma_delete_keeps_others(s, key@, k, now);
                        }
                    }
                } else {
                    let q = if old(self).pending_touches().contains(key@) {
                        old(self).pending_touches()
                    } else {
                        old(self).pending_touches().push(key@)
                    };
                    if q.len() >= LRU_UPDATE_THRESHOLD {
                        assert forall|k: Seq<char>| #[trigger] lookup(t, k, now) == lookup(s, k, now) by {
                            lemma_touches_keep_lookup(s, q, k, now);
                        }
                    }
                }
            }
        }
        r
    }

    /// Reads `key` at time `now`; see [`get_at`](Self::get_at).
    fn read_at(&mut self, key: &str, now: u64) -> (r: Result<Option<Vec<u8>>>)
        requires
            old(self).wf(),
        ensures
            final(self).wf(),
            final(self).capacity() == old(self).capacity(),
            r matches Ok(o) && bytes_of(o) == lookup(old(self).entries(), key@, now),
            ({
                let s = old(self).entries();
                let st = old(self).counters();
                if !has_key(s, key@) {
                    &&& r == Ok::<Option<Vec<u8>>, BlazeCacheError>(None)
                    &&& final(self).entries() == s
                    &&& final(self).pending_touches() == old(self).pending_touches()
                    &&& final(self).counters() == (CacheStats { misses: bump(st.misses), ..st })
                } else if expired_at(s[index_of_key(s, key@)].1.value.expire, now) {
                    &&& r == Ok::<Option<Vec<u8>>, BlazeCacheError>(None)
                    &&& final(self).entries() == s.remove(index_of_key(s, key@))
                    &&& final(self).pending_touches() == old(self).pending_touches()
                    &&& final(self).counters() == (CacheStats { misses: bump(st.misses), ..st })
                } else {
                    let q = if old(self).pending_touches().contains(key@) {
                        old(self).pending_touches()
                    } else {
                        old(self).pending_touches().push(key@)
                    };
                    &&& r matches Ok(Some(d)) && d@ == s[index_of_key(s, key@)].1.value.data@
                    &&& final(self).counters() == (CacheStats { hits: bump(st.hits), ..st })
                    &&& if q.len() >= LRU_UPDATE_THRESHOLD {
                        &&& final(self).entries() == touch_all(s, q)
                        &&& final(self).pending_touches().len() == 0
                    } else {
                        &&& final(self).entries() == s
                        &&& final(self).pending_touches() == q
                    }
                }
            }),
    {
        let ghost s = self.entries();
        let found = match lru_peek(&self.data, key) {
            Some(entry) => Some((entry.value.expire, entry.value.get_data())),
            None => None,
        };
        match found {
            None => {
                self.stats.misses = self.stats.misses.wrapping_add(1);
                Ok(None)
            },
            Some((expire, data)) => {
                proof {
                    let i = index_of_key(s, key@);
                    assert(entry_ok(s[i]));
                }
                if expire > 0 && now > expire {
                    let _ = lru_pop(&mut self.data, key);
                    proof {
                        lemma_distinct_remove(s, index_of_key(s, key@));
                        lemma_total_remove(s, index_of_key(s, key@));
                        lemma_entries_ok_remove(s, index_of_key(s, key@));
                    }
                    self.stats.misses = self.stats.misses.wrapping_add(1);
                    return Ok(None);
                }
                let result = match data {
                    Ok(d) => d,
                    Err(e) => { return Err(e); },
                };
                self.queue_touch(key);
                self.stats.hits = self.stats.hits.wrapping_add(1);
                Ok(Some(result))
            },
        }
    }

    /// Adds `key` to the queue of pending touches, and applies the queue once
    /// it reaches its threshold.
    fn queue_touch(&mut self, key: &str)
        requires
            old(self).wf(),
        ensures
            final(self).wf(),
            final(self).capacity() == old(self).capacity(),
            final(self).counters() == old(self).counters(),
            ({
                let q = if old(self).pending_touches().contains(key@) {
                    old(self).pending_touches()
                } else {
                    old(self).pending_touches().push(key@)
                };
                if q.len() >= LRU_UPDATE_THRESHOLD {
                    &&& final(self).entries() == touch_all(old(self).entries(), q)
                    &&& final(self).pending_touches().len() == 0
                } else {
                    &&& final(self).entries() == old(self).entries()
                    &&& final(self).pending_touches() == q
                }
            }),
    {
        let mut present = false;
        let mut i: usize = 0;
        let target = String::from_str(key);
        while i < self.lru_update_queue.len()
            invariant
                target@ == key@,
                i <= self.lru_update_queue@.len(),
                present <==> exists|k: int| 0 <= k < i && self.lru_update_queue@[k]@ == key@,
            decreases self.lru_update_queue@.len() - i,
        {
            if self.lru_update_queue[i] == target {
                present = true;
            }
            i = i + 1;
        }
        proof {
            let q = self.lru_update_queue@;
            if present {
                let k = choose|k: int| 0 <= k < q.len() && q[k]@ == key@;
                assert(queue_keys(q)[k] == key@);
            } else {
                assert forall|k: int| 0 <= k < queue_keys(q).len() implies queue_keys(q)[k] != key@ by {
                    assert(queue_keys(q)[k] == q[k]@);
                }
            }
        }
        if !present {
            let ghost q0 = self.lru_update_queue@;
            self.lru_update_queue.push(target);
            proof {
                let q = self.lru_update_queue@;
                assert(queue_keys(q) =~= queue_keys(q0).push(key@));
                assert forall|a: int, b: int| 0 <= a < b < q.len() implies q[a]@ != q[b]@ by {
                    if b == q.len() - 1 {
                        assert(q[a] == q0[a]);
                    } else {
                        assert(q[a] == q0[a] && q[b] == q0[b]);
                    }
                }
            }
        }
        if self.lru_update_queue.len() >= self.lru_update_threshold {
            self.apply_touches();
        }
    }

    /// Reads `key` now; see [`get_at`](Self::get_at).
    pub fn get(&mut self, key: &str) -> (r: Result<Option<Vec<u8>>>)
        requires
            old(self).wf(),
        ensures
            final(self).wf(),
            final(self).capacity() == old(self).capacity(),
            !has_key(old(self).entries(), key@) ==> r == Ok::<Option<Vec<u8>>, BlazeCacheError>(None)
                && final(self).entries() == old(self).entries(),
            r matches Ok(Some(d)) ==> has_key(old(self).entries(), key@)
                && d@ == old(self).entries()[index_of_key(old(self).entries(), key@)].1.value.data@,
            exists|now: u64| #[trigger] read_effect(*old(self), *final(self), key@, now, r)
                && forall|k: Seq<char>| #[trigger] lookup(final(self).entries(), k, now) == lookup(old(self).entries(), k, now),
    {
        let now = current_timestamp();
        let r = self.get_at(key, now);
        assert(read_effect(*old(self), *self, key@, now, r));
        r
    }

    /// Stores `key` with `value`, expiring `ttl_secs` after `now` (0: never),
    /// at time `now`.
    ///
    /// An item charged more than the capacity is refused with `ItemTooLarge`.
    /// Otherwise the key's old entry, if any, is removed; least recently used
    /// entries are evicted while the running usage (the reported memory
    /// usage, reduced by each evicted entry's charged size) plus the new
    /// item's size exceeds the capacity; and the key becomes the most
    /// recently used, with the new value and expiry.
    #[verifier::spinoff_prover]
    #[verifier::rlimit(50)]
    pub fn put_at(&mut self, key: String, value: Vec<u8>, ttl_secs: u32, now: u64) -> (r: Result<()>)
        requires
            old(self).wf(),
            key_bytes(key@) + value@.len() + 64 <= usize::MAX,
        ensures
            final(self).wf(),
            final(self).capacity() == old(self).capacity(),
            final(self).pending_touches() == old(self).pending_touches(),
            put_effect(*old(self), *final(self), key@, value, ttl_secs, now, r),
    {
        let ghost s = self.entries();
        let ghost st = self.stats;
        let size = key.as_str().len() + value.len() + 64;
        if size > self.max_size {
            self.stats.rejected_items = self.stats.rejected_items.wrapping_add(1);
            proof { lemma_add_mod_step(st.rejected_items, 0); }
            return Err(BlazeCacheError::ItemTooLarge { item_size: size, max_size: self.max_size });
        }
        let expire: u64 = if ttl_secs > 0 { now.wrapping_add(ttl_secs as u64) } else { 0 };
        let v = Value::uncompressed_at(value, expire, now);
        let entry = CacheEntry { value: v, size: size };
        let is_new = !lru_contains(&self.data, key.as_str());
        if !is_new {
            let _ = lru_pop(&mut self.data, key.as_str());
            proof {
                let i = index_of_key(s, key@);
                lemma_distinct_remove(s, i);
                lemma_total_remove(s, i);
                lemma_entries_ok_remove(s, i);
            }
        }
        let ghost s0 = self.entries();
        proof {
            lemma_delete_shape(s, key@);
            assert(s0 == entries_after_delete(s, key@));
        }
        let mut current_size = self.calculate_size();
        proof {
            lemma_total_le_memory(s0);
            assert(s0.subrange(0, s0.len() as int) =~= s0);
        }
        let ghost k: nat = 0;
        while current_size > self.max_size - size && lru_len(&self.data) > 0
            invariant
                lru_cap(self.data) == usize::MAX,
                self.max_size == old(self).max_size,
                self.lru_update_queue == old(self).lru_update_queue,
                self.lru_update_threshold == old(self).lru_update_threshold,
                size == item_size(key@, value@),
                size <= self.max_size,
                !has_key(s0, key@),
                keys_distinct(s0),
                forall|i: int| 0 <= i < s0.len() ==> entry_ok(#[trigger] s0[i]),
                total_size(s0) <= self.max_size,
                self.max_size <= usize::MAX / 2,
                self.entries().len() <= s0.len(),
                self.entries() == s0.subrange(0, self.entries().len() as int),
                current_size >= total_size(self.entries()),
                after_evictions(self.entries(), current_size as int, size as int, self.max_size as int)
                    == after_evictions(s0, memory_of(s0) as int, size as int, self.max_size as int),
                eviction_count(s0, memory_of(s0) as int, size as int, self.max_size as int)
                    == k + eviction_count(self.entries(), current_size as int, size as int, self.max_size as int),
                self.stats == (CacheStats { evictions: add_mod(st.evictions, k), ..st }),
            decreases self.entries().len(),
        {
            let ghost e = self.entries();
            proof { lemma_total_le_memory(e); }
            let popped = lru_pop_lru(&mut self.data);
            match popped {
                Some((_, evicted)) => {
                    current_size = current_size - evicted.size;
                    proof { lemma_add_mod_step(st.evictions, k); }
                    self.stats.evictions = self.stats.evictions.wrapping_add(1);
                    proof {
                        k = k + 1;
                        assert(e.drop_last() =~= s0.subrange(0, e.len() - 1));
                    }
                },
                None => {},
            }
        }
        let ghost kept = self.entries();
        proof {
            lemma_total_le_memory(kept);
            assert forall|x: Seq<char>| has_key(kept, x) implies has_key(s0, x) by {
                let a = choose|a: int| 0 <= a < kept.len() && kept[a].0 == x;
                assert(kept[a] == s0[a]);
            }
            assert forall|a: int, b: int| 0 <= a < b < kept.len() implies kept[a].0 != kept[b].0 by {
                assert(kept[a] == s0[a] && kept[b] == s0[b]);
            }
            assert forall|i: int| 0 <= i < kept.len() implies entry_ok(#[trigger] kept[i]) by {
                assert(kept[i] == s0[i]);
            }
            lemma_len_le_total(kept);
        }
        let ghost new_entry = (key@, entry);
        let _ = lru_put(&mut self.data, key, entry);
        proof {
            lemma_distinct_prepend(kept, new_entry);
            lemma_total_prepend(kept, new_entry);
            let t = self.entries();
            assert forall|i: int| 0 <= i < t.len() implies entry_ok(#[trigger] t[i]) by {
                if i > 0 {
                    assert(t[i] == kept[i - 1]);
                }
            }
            lemma_add_mod_step(st.puts, 0);
        }
        self.stats.puts = self.stats.puts.wrapping_add(1);
        self.stats.entry_count = lru_len(&self.data);
        self.stats.memory_usage = self.calculate_size();
        Ok(())
    }

    /// Stores `key` with `value` now; see [`put_at`](Self::put_at).
    pub fn put(&mut self, key: String, value: Vec<u8>, ttl_secs: u32) -> (r: Result<()>)
        requires
            old(self).wf(),
            key_bytes(key@) + value@.len() + 64 <= usize::MAX,
        ensures
            final(self).wf(),
            final(self).capacity() == old(self).capacity(),
            (item_size(key@, value@) > old(self).capacity()) <==> r is Err,
            r is Err ==> r == Err::<(), BlazeCacheError>(BlazeCacheError::ItemTooLarge {
                item_size: item_size(key@, value@) as usize,
                max_size: old(self).capacity() as usize,
            }),
            r is Ok ==> has_key(final(self).entries(), key@),
            r is Ok ==> final(self).entries()[0].0 == key@
                && final(self).entries()[0].1.value.data == value,
            r is Err ==> final(self).entries() == old(self).entries()
                && final(self).counters() == (CacheStats { rejected_items: bump(old(self).counters().rejected_items), ..old(self).counters() }),
            exists|now: u64| #[trigger] put_effect(*old(self), *final(self), key@, value, ttl_secs, now, r),
    {
        let now = current_timestamp();
        let ghost s = self.entries();
        let ghost kv = key@;
        let ghost v = value;
        let ghost cap = self.capacity();
        let r = self.put_at(key, value, ttl_secs, now);
        proof {
            if r is Ok {
                assert(self.entries()[0].0 == kv);
            }
            assert(self.entries() == entries_after_put(s, kv, v, ttl_secs, now, cap));
            assert(put_effect(*old(self), *self, kv, v, ttl_secs, now, r));
        }
        r
    }

    /// Removes `key`; reports whether it was present.
    pub fn delete(&mut self, key: &str) -> (r: Result<bool>)
        requires
            old(self).wf(),
        ensures
            final(self).wf(),
            final(self).capacity() == old(self).capacity(),
            final(self).pending_touches() == old(self).pending_touches(),
            final(self).entries() == entries_after_delete(old(self).entries(), key@),
            ({
                let s = old(self).entries();
                let st = old(self).counters();
                if has_key(s, key@) {
                    let t = s.remove(index_of_key(s, key@));
                    &&& r == Ok::<bool, BlazeCacheError>(true)
                    &&& final(self).entries() == t
                    &&& final(self).counters() == (CacheStats {
                        deletes: bump(st.deletes),
                        entry_count: t.len() as usize,
                        memory_usage: memory_of(t) as usize,
                        ..st
                    })
                } else {
                    &&& r == Ok::<bool, BlazeCacheError>(false)
                    &&& final(self).entries() == s
                    &&& final(self).counters() == st
                }
            }),
    {
        let ghost s = self.entries();
        let ghost st = self.stats;
        let existed = match lru_pop(&mut self.data, key) {
            Some(_) => true,
            None => false,
        };
        if existed {
            proof {
                let i = index_of_key(s, key@);
                lemma_distinct_remove(s, i);
                lemma_total_remove(s, i);
                lemma_entries_ok_remove(s, i);
                lemma_add_mod_step(st.deletes, 0);
            }
            self.stats.deletes = self.stats.deletes.wrapping_add(1);
            self.stats.entry_count = lru_len(&self.data);
            self.stats.memory_usage = self.calculate_size();
        }
        Ok(existed)
    }

    /// Removes every entry that has expired at time `now`; returns how many
    /// were removed.
    ///
    /// The remaining entries keep their order. When some were removed, the
    /// TTL eviction counter grows by their number and the entry count and
    /// memory usage are brought up to date; otherwise the counters stay.
    pub fn cleanup_expired_at(&mut self, now: u64) -> (n: usize)
        requires
            old(self).wf(),
        ensures
            final(self).wf(),
            final(self).capacity() == old(self).capacity(),
            final(self).pending_touches() == old(self).pending_touches(),
            final(self).entries() == unexpired(old(self).entries(), now),
            n == expired_keys(old(self).entries(), now).len(),
            ({
                let st = old(self).counters();
                let t = unexpired(old(self).entries(), now);
                if n > 0 {
                    final(self).counters() == (CacheStats {
                        ttl_evictions: add_mod(st.ttl_evictions, n as nat),
                        entry_count: t.len() as usize,
                        memory_usage: memory_of(t) as usize,
                        ..st
                    })
                } else {
                    final(self).counters() == st
                }
            }),
    {
        let ghost s = self.entries();
        let ghost st = self.stats;
        let items = lru_summaries(&self.data);
        let mut keys: Vec<String> = Vec::new();
        let mut i: usize = 0;
        while i < items.len()
            invariant
                s == self.entries(),
                items@.len() == s.len(),
                forall|k: int| 0 <= k < items@.len() ==> {
                    &&& (#[trigger] items@[k]).key@ == s[k].0
                    &&& items@[k].expire == s[k].1.value.expire
                },
                i <= s.len(),
                queue_keys(keys@) == expired_keys(s.subrange(0, i as int), now),
            decreases s.len() - i,
        {
            let it = &items[i];
            proof {
                assert(s.subrange(0, i + 1).drop_last() =~= s.subrange(0, i as int));
                assert(s.subrange(0, i + 1).last() == s[i as int]);
            }
            if it.expire > 0 && now > it.expire {
                let ghost k0 = keys@;
                keys.push(it.key.clone());
                proof {
                    assert(queue_keys(keys@) =~= queue_keys(k0).push(it.key@));
                }
            }
            i = i + 1;
        }
        proof {
            assert(s.subrange(0, s.len() as int) =~= s);
        }
        let ghost ks = queue_keys(keys@);
        let removed = keys.len();
        let mut j: usize = 0;
        proof {
            assert(ks.subrange(0, 0) =~= Seq::<Seq<char>>::empty());
            assert(drop_keys(s, Seq::<Seq<char>>::empty()) == s) by {
                lemma_drop_none(s);
            }
        }
        while j < keys.len()
            invariant
                lru_cap(self.data) == usize::MAX,
                self.max_size == old(self).max_size,
                self.stats == st,
                self.lru_update_queue == old(self).lru_update_queue,
                self.lru_update_threshold == old(self).lru_update_threshold,
                ks == queue_keys(keys@),
                keys_distinct(s),
                j <= keys@.len(),
                self.entries() == drop_keys(s, ks.subrange(0, j as int)),
                keys_distinct(self.entries()),
                forall|k: int| 0 <= k < self.entries().len() ==> entry_ok(#[trigger] self.entries()[k]),
                total_size(self.entries()) <= self.max_size,
                self.max_size <= usize::MAX / 2,
            decreases keys@.len() - j,
        {
            let k = &keys[j];
            let ghost e = self.entries();
            let ghost done = ks.subrange(0, j as int);
            proof {
                assert(ks.subrange(0, j + 1) =~= done.push(k@));
                lemma_drop_one_more(s, done, k@);
                if has_key(e, k@) {
                    let x = index_of_key(e, k@);
                    lemma_distinct_remove(e, x);
                    lemma_total_remove(e, x);
                    lemma_entries_ok_remove(e, x);
                }
            }
            let _ = lru_pop(&mut self.data, k.as_str());
            j = j + 1;
        }
        proof {
            assert(ks.subrange(0, keys@.len() as int) =~= ks);
            lemma_unexpired_is_drop(s, now);
        }
        if removed > 0 {
            self.stats.ttl_evictions = add_wrapping_u64(self.stats.ttl_evictions, removed);
            self.stats.entry_count = lru_len(&self.data);
            self.stats.memory_usage = self.calculate_size();
        }
        removed
    }

    /// Removes every entry that has expired now; see
    /// [`cleanup_expired_at`](Self::cleanup_expired_at).
    pub fn cleanup_expired(&mut self) -> (n: usize)
        requires
            old(self).wf(),
        ensures
            final(self).wf(),
            final(self).capacity() == old(self).capacity(),
            final(self).entries().len() + n == old(self).entries().len(),
            final(self).pending_touches() == old(self).pending_touches(),
            exists|now: u64| final(self).entries() == unexpired(old(self).entries(), now)
                && n == expired_keys(old(self).entries(), now).len(),
    {
        let now = current_timestamp();
        let ghost s = self.entries();
        let n = self.cleanup_expired_at(now);
        proof {
            lemma_unexpired_count(s, now);
        }
        n
    }

    /// Removes every entry and every pending touch; the entry count and
    /// memory usage drop to zero, the other counters stay.
    pub fn clear(&mut self)
        requires
            old(self).wf(),
        ensures
            final(self).wf(),
            final(self).capacity() == old(self).capacity(),
            final(self).entries().len() == 0,
            final(self).pending_touches().len() == 0,
            final(self).counters() == (CacheStats { entry_count: 0, memory_usage: 0, ..old(self).counters() }),
    {
        self.data = lru_unbounded();
        self.lru_update_queue = Vec::new();
        self.stats.entry_count = 0;
        self.stats.memory_usage = 0;
        proof {
            assert(queue_keys(self.lru_update_queue@) =~= Seq::<Seq<char>>::empty());
        }
    }

    /// Moves the entry with key `key`, if any, to the front.
    fn touch_key(&mut self, key: &str)
        requires
            lru_cap(old(self).data) == usize::MAX,
            keys_distinct(old(self).entries()),
            forall|i: int| 0 <= i < old(self).entries().len() ==> entry_ok(#[trigger] old(self).entries()[i]),
            total_size(old(self).entries()) <= old(self).max_size,
            old(self).max_size <= usize::MAX / 2,
        ensures
            lru_cap(final(self).data) == usize::MAX,
            final(self).entries() == touch(old(self).entries(), key@),
            keys_distinct(final(self).entries()),
            forall|i: int| 0 <= i < final(self).entries().len() ==> entry_ok(#[trigger] final(self).entries()[i]),
            total_size(final(self).entries()) <= final(self).max_size,
            final(self).max_size == old(self).max_size,
            final(self).stats == old(self).stats,
            final(self).lru_update_threshold == old(self).lru_update_threshold,
            final(self).lru_update_queue == old(self).lru_update_queue,
    {
        let ghost s = self.entries();
        proof {
            lemma_touch_preserves(s, key@);
            lemma_total_le_memory(s);
        }
        if lru_contains(&self.data, key) {
            let popped = lru_pop(&mut self.data, key);
            match popped {
                Some(entry) => {
                    proof {
                        lemma_distinct_remove(s, index_of_key(s, key@));
                        lemma_len_le_total(s);
                    }
                    let _ = lru_put(&mut self.data, String::from_str(key), entry);
                },
                None => {},
            }
        }
    }

    /// Moves every queued key that is still present to the front, in queue
    /// order, and empties the queue.
    fn apply_touches(&mut self)
        requires
            lru_cap(old(self).data) == usize::MAX,
            keys_distinct(old(self).entries()),
            forall|i: int| 0 <= i < old(self).entries().len() ==> entry_ok(#[trigger] old(self).entries()[i]),
            total_size(old(self).entries()) <= old(self).max_size,
            old(self).max_size <= usize::MAX / 2,
            old(self).lru_update_threshold == LRU_UPDATE_THRESHOLD,
        ensures
            final(self).wf(),
            final(self).capacity() == old(self).capacity(),
            final(self).counters() == old(self).counters(),
            final(self).entries() == touch_all(old(self).entries(), old(self).pending_touches()),
            final(self).pending_touches().len() == 0,
    {
        let mut keys: Vec<String> = Vec::new();
        core::mem::swap(&mut keys, &mut self.lru_update_queue);
        let ghost s0 = self.entries();
        let mut i: usize = 0;
        while i < keys.len()
            invariant
                lru_cap(self.data) == usize::MAX,
                self.max_size == old(self).max_size,
                self.stats == old(self).stats,
                self.lru_update_threshold == old(self).lru_update_threshold,
                self.lru_update_queue@.len() == 0,
                old(self).pending_touches() == queue_keys(keys@),
                i <= keys@.len(),
                self.entries() == touch_all(s0, queue_keys(keys@).subrange(0, i as int)),
                keys_distinct(self.entries()),
                forall|j: int| 0 <= j < self.entries().len() ==> entry_ok(#[trigger] self.entries()[j]),
                total_size(self.entries()) <= self.max_size,
                self.max_size <= usize::MAX / 2,
            decreases keys@.len() - i,
        {
            let k = &keys[i];
            proof {
                assert(queue_keys(keys@).subrange(0, i + 1).drop_last() =~= queue_keys(keys@).subrange(0, i as int));
                assert(queue_keys(keys@).subrange(0, i + 1).last() == k@);
            }
            self.touch_key(k.as_str());
            i = i + 1;
        }
        assert(queue_keys(keys@).subrange(0, keys@.len() as int) =~= queue_keys(keys@));
        assert(self.pending_touches() =~= Seq::<Seq<char>>::empty());
    }
}

impl CacheStats {
    /// All counters zero.
    pub open spec fn default_spec() -> CacheStats {
        CacheStats {
            hits: 0,
            misses: 0,
            puts: 0,
            deletes: 0,
            evictions: 0,
            hot_items: 0,
            rejected_items: 0,
            ttl_evictions: 0,
            entry_count: 0,
            memory_usage: 0,
        }
    }

    /// All counters zero.
    pub fn new_zeroed() -> (s: CacheStats)
        ensures
            s == CacheStats::default_spec(),
    {
        CacheStats {
            hits: 0,
            misses: 0,
            puts: 0,
            deletes: 0,
            evictions: 0,
            hot_items: 0,
            rejected_items: 0,
            ttl_evictions: 0,
            entry_count: 0,
            memory_usage: 0,
        }
    }

    /// A copy of the counters.
    pub fn copy(&self) -> (s: CacheStats)
        ensures
            s == *self,
    {
        CacheStats { ..*self }
    }
}

/// Making room for an item evicts only what is needed. The entries kept are
/// the most recently used ones (a prefix of `s`); when entries remain, the
/// running usage (`cur` less the charged sizes of the evicted entries) plus
/// the item is within the capacity; and when anything was evicted, keeping
/// the last entry evicted as well would not have fit. In particular nothing
/// is evicted when `cur + item` already fits.
pub proof fn lemma_evictions_only_as_needed(s: Seq<(Seq<char>, CacheEntry)>, cur: int, item: int, max: int)
    ensures
        ({
            let k = after_evictions(s, cur, item, max);
            &&& k.len() <= s.len()
            &&& k == s.subrange(0, k.len() as int)
            &&& cur + item <= max ==> k == s
            &&& k.len() > 0 ==> cur - (total_size(s) - total_size(k)) + item <= max
            &&& k.len() < s.len() ==> cur - (total_size(s) - total_size(s.subrange(0, k.len() + 1 as int))) + item > max
        }),
    decreases s.len(),
{
    let k = after_evictions(s, cur, item, max);
    if cur + item <= max || s.len() == 0 {
        assert(s.subrange(0, s.len() as int) =~= s);
    } else {
        let s1 = s.drop_last();
        let c1 = cur - s.last().1.size;
        lemma_evictions_only_as_needed(s1, c1, item, max);
        assert(k == after_evictions(s1, c1, item, max));
        assert(total_size(s) == total_size(s1) + s.last().1.size);
        assert(k =~= s.subrange(0, k.len() as int));
        if k.len() < s1.len() {
            assert(s1.subrange(0, k.len() + 1 as int) =~= s.subrange(0, k.len() + 1 as int));
        } else {
            assert(s.subrange(0, k.len() + 1 as int) =~= s);
        }
    }
}

/// A touched key that is present becomes the most recently used entry; the
/// cache holds the same keys as before.
pub proof fn lemma_touch_makes_most_recent(s: Seq<(Seq<char>, CacheEntry)>, k: Seq<char>)
    requires
        has_key(s, k),
    ensures
        touch(s, k).len() == s.len(),
        touch(s, k)[0].0 == k,
        forall|x: Seq<char>| has_key(touch(s, k), x) <==> has_key(s, x),
{
    let i = index_of_key(s, k);
    let t = touch(s, k);
    let r = s.remove(i);
    assert(t == seq![s[i]] + r);
    assert forall|x: Seq<char>| has_key(t, x) <==> has_key(s, x) by {
        if has_key(t, x) {
            let a = choose|a: int| 0 <= a < t.len() && t[a].0 == x;
            if a > 0 {
                let a0 = if a - 1 < i { a - 1 } else { a };
                assert(t[a] == r[a - 1]);
                assert(r[a - 1] == s[a0]);
            }
        }
        if has_key(s, x) {
            let a = choose|a: int| 0 <= a < s.len() && s[a].0 == x;
            if a == i {
                assert(t[0].0 == x);
            } else {
                let p = if a < i { a } else { a - 1 };
                assert(r[p] == s[a]);
                assert(t[p + 1] == r[p]);
            }
        }
    }
}

/// After the batched update of the reads `ks`, every read key that is still
/// present ranks ahead of every present key that was not read.
pub proof fn lemma_touches_rank_read_keys_first(
    s: Seq<(Seq<char>, CacheEntry)>,
    ks: Seq<Seq<char>>,
    a: Seq<char>,
    b: Seq<char>,
)
    requires
        keys_distinct(s),
        forall|j: int| 0 <= j < s.len() ==> entry_ok(#[trigger] s[j]),
        ks.contains(a),
        !ks.contains(b),
        has_key(s, a),
        has_key(s, b),
    ensures
        has_key(touch_all(s, ks), a),
        has_key(touch_all(s, ks), b),
        index_of_key(touch_all(s, ks), a) < index_of_key(touch_all(s, ks), b),
    decreases ks.len(),
{
    let ks1 = ks.drop_last();
    let last = ks.last();
    let t1 = touch_all(s, ks1);
    let t = touch_all(s, ks);
    lemma_touch_all_keeps(s, ks1);
    lemma_touch_preserves(t1, last);
    assert(t == touch(t1, last));
    assert(!ks1.contains(b)) by {
        if ks1.contains(b) {
            let j = choose|j: int| 0 <= j < ks1.len() && ks1[j] == b;
            assert(ks[j] == b);
        }
    }
    assert(b != last) by {
        assert(ks[ks.len() - 1] == last);
    }
    if a == last {
        lemma_touch_makes_most_recent(t1, a);
        lemma_index_of_distinct(t, a, 0);
        let jb = index_of_key(t, b);
        assert(t[jb].0 == b);
    } else {
        assert(ks1.contains(a)) by {
            let j = choose|j: int| 0 <= j < ks.len() && ks[j] == a;
            assert(j != ks.len() - 1);
            assert(ks1[j] == a);
        }
        lemma_touches_rank_read_keys_first(s, ks1, a, b);
        let pa = index_of_key(t1, a);
        let pb = index_of_key(t1, b);
        if has_key(t1, last) {
            let i = index_of_key(t1, last);
            let r = t1.remove(i);
            assert(t == seq![t1[i]] + r);
            assert(pa != i && pb != i);
            let qa = if pa < i { pa + 1 } else { pa };
            let qb = if pb < i { pb + 1 } else { pb };
            if pa < i {
                assert(r[pa] == t1[pa]);
            } else {
                assert(r[pa - 1] == t1[pa]);
            }
            if pb < i {
                assert(r[pb] == t1[pb]);
            } else {
                assert(r[pb - 1] == t1[pb]);
            }
            assert(t[qa] == t1[pa]);
            assert(t[qb] == t1[pb]);
            lemma_index_of_distinct(t, a, qa);
            lemma_index_of_distinct(t, b, qb);
        }
    }
}

/// The batched update keeps the cache's entries well formed and holds the
/// same keys.
proof fn lemma_touch_all_keeps(s: Seq<(Seq<char>, CacheEntry)>, ks: Seq<Seq<char>>)
    requires
        keys_distinct(s),
        forall|j: int| 0 <= j < s.len() ==> entry_ok(#[trigger] s[j]),
    ensures
        keys_distinct(touch_all(s, ks)),
        forall|j: int| 0 <= j < touch_all(s, ks).len() ==> entry_ok(#[trigger] touch_all(s, ks)[j]),
        forall|x: Seq<char>| has_key(touch_all(s, ks), x) <==> has_key(s, x),
    decreases ks.len(),
{
    if ks.len() > 0 {
        lemma_touch_all_keeps(s, ks.drop_last());
        lemma_touch_preserves(touch_all(s, ks.drop_last()), ks.last());
    }
}

} // verus!
