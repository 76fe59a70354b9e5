//! Persistence: a write-ahead log of changes and snapshots of the entries.
//!
//! The log is a sequence of records, each a 4-byte little-endian length
//! followed by that many bytes of an encoded [`WalEntry`]. Recovery starts
//! from the snapshot's entries and replays the log over them. Files, and the
//! encoding of entries, are the caller's; this module frames and splits the
//! records, replays entries, and keeps the log's size accounting.
use vstd::prelude::*;
use crate::cache::cache::expiry_for;
use crate::cache::value::{stored_form, value_bytes, Value};
use crate::utils::time::current_timestamp;
use crate::transports::common::{Command, CommandView};
use crate::utils::config::PersistenceSection;
use crate::utils::error::{BlazeCacheError, Result};
use crate::utils::text::{decimal, format_decimal, parse_unsigned};
use crate::utils::config::parsed_u64;
use crate::networking::consistent_hash::string_views;
use vstd::string::StrSliceExecFns;

verus! {

/// Persistence settings.
#[derive(Debug, Clone)]
pub struct PersistenceConfig {
    /// Directory of the log and snapshot files.
    pub data_dir: String,
    /// Size beyond which the log is rotated.
    pub max_wal_size_bytes: usize,
    /// Seconds between snapshots (0: none).
    pub snapshot_interval_secs: u64,
    /// Whether persistence is on.
    pub enabled: bool,
    /// Whether changes are logged.
    pub wal_enabled: bool,
    /// Whether snapshots are compressed.
    pub compress_snapshots: bool,
}

impl Default for PersistenceConfig {
    /// Off; when turned on: `./data`, a 100 MiB log, a snapshot every five
    /// minutes, logging on, compressed snapshots.
    fn default() -> (c: Self)
        ensures
            !c.enabled,
            c.data_dir@ == "./data"@,
            c.max_wal_size_bytes == 100 * 1024 * 1024,
            c.snapshot_interval_secs == 300,
            c.wal_enabled,
            c.compress_snapshots,
    {
        PersistenceConfig {
            enabled: false,
            snapshot_interval_secs: 300,
            wal_enabled: true,
            data_dir: String::from_str("./data"),
            max_wal_size_bytes: 100 * 1024 * 1024,
            compress_snapshots: true,
        }
    }
}

/// A logged change.
#[derive(Debug, Clone)]
pub enum WalEntry {
    Put { key: String, value: Value },
    Delete { key: String },
    Clear,
}

/// `e` logs a write of `value` under `key` with `ttl_secs` at time `now`:
/// the value, made at `now` (see [`Value::new_at`]), expires `ttl_secs`
/// seconds after `now`, or never when `ttl_secs` is 0.
pub open spec fn logs_put(e: WalEntry, key: Seq<char>, value: Seq<u8>, ttl_secs: u32, now: u64) -> bool {
    e matches WalEntry::Put { key: k, value: v } && k@ == key
        && v.expire == expiry_for(ttl_secs, now)
        && (v.data@, v.compressed) == stored_form(value)
        && (value.len() < 0x1_0000_0000 ==> value_bytes(v.data@, v.compressed) == Some(value))
        && v.access_count == 1 && v.last_access == now
}

/// The log entry of a write of `value` under `key` with `ttl_secs` at time
/// `now`.
pub fn wal_put_entry_at(key: String, value: Vec<u8>, ttl_secs: u32, now: u64) -> (e: WalEntry)
    ensures
        logs_put(e, key@, value@, ttl_secs, now),
{
    let expire: u64 = if ttl_secs > 0 { now.wrapping_add(ttl_secs as u64) } else { 0 };
    WalEntry::Put { key, value: Value::new_at(value, expire, now) }
}

/// The log entry of a write of `value` under `key` with `ttl_secs` now; see
/// [`wal_put_entry_at`].
pub fn wal_put_entry(key: String, value: Vec<u8>, ttl_secs: u32) -> (e: WalEntry)
    ensures
        exists|now: u64| #[trigger] logs_put(e, key@, value@, ttl_secs, now),
{
    let now = current_timestamp();
    wal_put_entry_at(key, value, ttl_secs, now)
}

/// `r` is what a served command `cmd` leaves in the log at time `now`: a
/// write that `succeeded` logs the value (see [`logs_put`]), a delete that
/// `succeeded` logs the key, a clear is always logged; failed writes and
/// deletes, reads, and the other commands log nothing.
pub open spec fn logged_for(cmd: CommandView, succeeded: bool, now: u64, r: Option<WalEntry>) -> bool {
    match cmd {
        CommandView::Put(k, v, t) => if succeeded {
            r matches Some(e) && logs_put(e, k, v, t, now)
        } else {
            r is None
        },
        CommandView::Delete(k) => if succeeded {
            r matches Some(WalEntry::Delete { key }) && key@ == k
        } else {
            r is None
        },
        CommandView::Clear => r matches Some(WalEntry::Clear),
        _ => r is None,
    }
}

/// What a served command leaves in the log at time `now`.
pub fn wal_entry_for_at(cmd: Command, succeeded: bool, now: u64) -> (r: Option<WalEntry>)
    ensures
        logged_for(cmd@, succeeded, now, r),
{
    match cmd {
        Command::Put(key, value, ttl) => if succeeded {
            Some(wal_put_entry_at(key, value, ttl, now))
        } else {
            None
        },
        Command::Delete(key) => if succeeded {
            Some(WalEntry::Delete { key })
        } else {
            None
        },
        Command::Clear => Some(WalEntry::Clear),
        _ => None,
    }
}

/// What a served command leaves in the log now; see [`wal_entry_for_at`].
pub fn wal_entry_for(cmd: Command, succeeded: bool) -> (r: Option<WalEntry>)
    ensures
        exists|now: u64| #[trigger] logged_for(cmd@, succeeded, now, r),
{
    let now = current_timestamp();
    wal_entry_for_at(cmd, succeeded, now)
}

// ---------------------------------------------------------------------------
// Records.
// ---------------------------------------------------------------------------

/// Four bytes, least significant first, of `n mod 2^32`.
pub open spec fn le32(n: nat) -> Seq<u8> {
    seq![
        (n % 256) as u8,
        ((n / 256) % 256) as u8,
        ((n / 0x10000) % 256) as u8,
        ((n / 0x1000000) % 256) as u8,
    ]
}

/// The little-endian `u32` at `d[i..i+4]`.
pub open spec fn read_le32(d: Seq<u8>, i: int) -> int {
    (d[i] as int) + (d[i + 1] as int) * 256 + (d[i + 2] as int) * 0x10000 + (d[i + 3] as int) * 0x1000000
}

/// A record of the log: the payload's length (mod 2^32), then the payload.
pub open spec fn wal_record(payload: Seq<u8>) -> Seq<u8> {
    le32((payload.len() % 0x1_0000_0000) as nat) + payload
}

/// The records of a sequence of payloads, one after another.
pub open spec fn wal_records(payloads: Seq<Seq<u8>>) -> Seq<u8>
    decreases payloads.len(),
{
    if payloads.len() == 0 {
        Seq::empty()
    } else {
        wal_record(payloads[0]) + wal_records(payloads.drop_first())
    }
}

/// The payloads read from log bytes `d` from position `i` on: a length
/// prefix cut short ends the log; a payload cut short is an error.
pub open spec fn wal_payloads(d: Seq<u8>, i: int) -> Option<Seq<Seq<u8>>>
    decreases d.len() - i,
{
    if i < 0 || i + 4 > d.len() {
        Some(Seq::empty())
    } else {
        let n = read_le32(d, i);
        if i + 4 + n > d.len() {
            None
        } else {
            match wal_payloads(d, i + 4 + n) {
                Some(rest) => Some(seq![d.subrange(i + 4, i + 4 + n)] + rest),
                None => None,
            }
        }
    }
}

/// The record that logs `payload`.
pub fn frame_wal_record(payload: &[u8]) -> (r: Vec<u8>)
    ensures
        r@ == wal_record(payload@),
{
    let n: u64 = payload.len() as u64 % 0x1_0000_0000;
    let mut r: Vec<u8> = Vec::new();
    r.push((n % 256) as u8);
    r.push(((n / 256) % 256) as u8);
    r.push(((n / 0x10000) % 256) as u8);
    r.push(((n / 0x1000000) % 256) as u8);
    let mut i: usize = 0;
    let ghost head = r@;
    while i < payload.len()
        invariant
            i <= payload@.len(),
            head.len() == 4,
            r@ == head + payload@.subrange(0, i as int),
        decreases payload@.len() - i,
    {
        r.push(payload[i]);
        i = i + 1;
        proof {
            assert(r@ =~= head + payload@.subrange(0, i as int));
        }
    }
    proof {
        assert(payload@.subrange(0, payload@.len() as int) =~= payload@);
        assert(head =~= le32((payload@.len() % 0x1_0000_0000) as nat));
    }
    r
}

/// Splits log bytes into the payloads of their records; a payload cut
/// short is the error `WAL read failed: failed to fill whole buffer`.
pub fn split_wal_records(data: &[u8]) -> (r: Result<Vec<Vec<u8>>>)
    ensures
        match wal_payloads(data@, 0) {
            Some(p) => r matches Ok(v) && v@.len() == p.len() && forall|k: int| 0 <= k < p.len() ==> (#[trigger] v@[k])@ == p[k],
            None => r matches Err(BlazeCacheError::NetworkError(m)) && m@ == "WAL read failed: failed to fill whole buffer"@,
        },
{
    let mut out: Vec<Vec<u8>> = Vec::new();
    let _total = data.len();
    let mut i: usize = 0;
    let ghost mut got: Seq<Seq<u8>> = Seq::empty();
    while i <= data.len() && data.len() - i >= 4
        invariant
            i <= data@.len(),
            data@.len() <= usize::MAX,
            out@.len() == got.len(),
            forall|k: int| 0 <= k < got.len() ==> (#[trigger] out@[k])@ == got[k],
            wal_payloads(data@, 0) == match wal_payloads(data@, i as int) {
                Some(rest) => Some(got + rest),
                None => None::<Seq<Seq<u8>>>,
            },
        decreases data@.len() - i,
    {
        let n: usize = (data[i] as usize) + (data[i + 1] as usize) * 256 + (data[i + 2] as usize) * 0x10000
            + (data[i + 3] as usize) * 0x1000000;
        if data.len() - i - 4 < n {
            return Err(BlazeCacheError::NetworkError(String::from_str("WAL read failed: failed to fill whole buffer")));
        }
        let start = i + 4;
        let end = start + n;
        let mut payload: Vec<u8> = Vec::new();
        let mut j: usize = start;
        while j < end
            invariant
                start <= j <= end,
                end <= data@.len(),
                payload@ == data@.subrange(start as int, j as int),
            decreases end - j,
        {
            payload.push(data[j]);
            j = j + 1;
            proof {
                assert(payload@ =~= data@.subrange(start as int, j as int));
            }
        }
        proof {
            let rest = wal_payloads(data@, end as int);
            assert(wal_payloads(data@, i as int) == match rest {
                Some(r2) => Some(seq![data@.subrange(start as int, end as int)] + r2),
                None => None::<Seq<Seq<u8>>>,
            });
            let g2 = got.push(payload@);
            match rest {
                Some(r2) => {
                    assert(got + (seq![data@.subrange(start as int, end as int)] + r2) =~= g2 + r2);
                },
                None => {},
            }
            got = g2;
        }
        out.push(payload);
        i = end;
    }
    proof {
        assert(wal_payloads(data@, i as int) == Some(Seq::<Seq<u8>>::empty()));
        assert(got + Seq::<Seq<u8>>::empty() =~= got);
    }
    Ok(out)
}

proof fn lemma_le32(n: nat, d: Seq<u8>, i: int)
    requires
        n < 0x1_0000_0000,
        0 <= i,
        i + 4 <= d.len(),
        d.subrange(i, i + 4) == le32(n),
    ensures
        read_le32(d, i) == n,
{
    assert(d[i] == d.subrange(i, i + 4)[0]);
    assert(d[i + 1] == d.subrange(i, i + 4)[1]);
    assert(d[i + 2] == d.subrange(i, i + 4)[2]);
    assert(d[i + 3] == d.subrange(i, i + 4)[3]);
}

proof fn lemma_payloads_after(prefix: Seq<u8>, ps: Seq<Seq<u8>>)
    requires
        forall|k: int| 0 <= k < ps.len() ==> (#[trigger] ps[k]).len() < 0x1_0000_0000,
    ensures
        wal_payloads(prefix + wal_records(ps), prefix.len() as int) == Some(ps),
    decreases ps.len(),
{
    let d = prefix + wal_records(ps);
    let i = prefix.len() as int;
    if ps.len() == 0 {
        assert(d =~= prefix);
        assert(ps =~= Seq::<Seq<u8>>::empty());
    } else {
        let p0 = ps[0];
        let n = p0.len();
        let rest = ps.drop_first();
        assert forall|k: int| 0 <= k < rest.len() implies (#[trigger] rest[k]).len() < 0x1_0000_0000 by {
            assert(rest[k] == ps[k + 1]);
        }
        vstd::arithmetic::div_mod::lemma_small_mod(n, 0x1_0000_0000);
        let prefix2 = prefix + wal_record(p0);
        assert(d =~= prefix2 + wal_records(rest));
        assert(d.subrange(i, i + 4) =~= le32(n));
        lemma_le32(n, d, i);
        assert(d.subrange(i + 4, i + 4 + n) =~= p0);
        lemma_payloads_after(prefix2, rest);
        assert(prefix2.len() == i + 4 + n);
        assert(seq![p0] + rest =~= ps);
    }
}

/// What is logged is read back: the records of payloads, each shorter than
/// 2^32 bytes, split into those payloads.
pub proof fn lemma_wal_round_trip(ps: Seq<Seq<u8>>)
    requires
        forall|k: int| 0 <= k < ps.len() ==> (#[trigger] ps[k]).len() < 0x1_0000_0000,
    ensures
        wal_payloads(wal_records(ps), 0) == Some(ps),
{
    lemma_payloads_after(Seq::empty(), ps);
    assert(Seq::<u8>::empty() + wal_records(ps) =~= wal_records(ps));
}

// ---------------------------------------------------------------------------
// Replay.
// ---------------------------------------------------------------------------

/// No two entries share a key.
pub open spec fn entry_keys_distinct(s: Seq<(String, Value)>) -> bool {
    forall|i: int, j: int| 0 <= i < j < s.len() ==> s[i].0@ != s[j].0@
}

/// Some entry has key `k`.
pub open spec fn has_entry(s: Seq<(String, Value)>, k: Seq<char>) -> bool {
    exists|i: int| 0 <= i < s.len() && s[i].0@ == k
}

/// The position of the entry with key `k` (meaningful when there is one).
pub open spec fn entry_index(s: Seq<(String, Value)>, k: Seq<char>) -> int {
    choose|i: int| 0 <= i < s.len() && s[i].0@ == k
}

/// The value stored under `k`, if any.
pub open spec fn value_of(s: Seq<(String, Value)>, k: Seq<char>) -> Option<Value> {
    if has_entry(s, k) { Some(s[entry_index(s, k)].1) } else { None }
}

/// The entries after one logged change: a write replaces or adds its key,
/// a delete removes it, a clear removes everything.
pub open spec fn replayed_one(s: Seq<(String, Value)>, e: WalEntry) -> Seq<(String, Value)> {
    match e {
        WalEntry::Put { key, value } => if has_entry(s, key@) {
            s.update(entry_index(s, key@), (s[entry_index(s, key@)].0, value))
        } else {
            s.push((key, value))
        },
        WalEntry::Delete { key } => if has_entry(s, key@) { s.remove(entry_index(s, key@)) } else { s },
        WalEntry::Clear => Seq::empty(),
    }
}

/// The entries after a sequence of logged changes, in order.
pub open spec fn replayed(s: Seq<(String, Value)>, log: Seq<WalEntry>) -> Seq<(String, Value)>
    decreases log.len(),
{
    if log.len() == 0 {
        s
    } else {
        replayed_one(replayed(s, log.drop_last()), log.last())
    }
}

/// Entries by key, each key once: what a snapshot holds and a log replays over.
pub struct EntryMap {
    entries: Vec<(String, Value)>,
}

impl EntryMap {
    /// The entries, in the order their keys first came.
    pub closed spec fn pairs(&self) -> Seq<(String, Value)> {
        self.entries@
    }

    /// Keys are distinct.
    pub closed spec fn wf(&self) -> bool {
        entry_keys_distinct(self.entries@)
    }

    /// No entry.
    pub fn new() -> (m: EntryMap)
        ensures
            m.wf(),
            m.pairs() == Seq::<(String, Value)>::empty(),
    {
        EntryMap { entries: Vec::new() }
    }

    /// The number of entries.
    pub fn len(&self) -> (n: usize)
        ensures
            n == self.pairs().len(),
    {
        self.entries.len()
    }

    fn position(&self, key: &str) -> (r: Option<usize>)
        requires
            self.wf(),
        ensures
            r matches Some(i) ==> i < self.pairs().len() && has_entry(self.pairs(), key@)
                && entry_index(self.pairs(), key@) == i,
            r is None ==> !has_entry(self.pairs(), key@),
    {
        let mut i: usize = 0;
        while i < self.entries.len()
            invariant
                entry_keys_distinct(self.entries@),
                i <= self.entries@.len(),
                forall|j: int| 0 <= j < i ==> self.entries@[j].0@ != key@,
            decreases self.entries@.len() - i,
        {
            if crate::utils::text::same_text(self.entries[i].0.as_str(), key) {
                proof {
                    let k = entry_index(self.entries@, key@);
                    assert(self.entries@[k].0@ == key@);
                }
                return Some(i);
            }
            i = i + 1;
        }
        None
    }

    /// The value under `key`, if any.
    pub fn get(&self, key: &str) -> (r: Option<&Value>)
        requires
            self.wf(),
        ensures
            r matches Some(v) ==> value_of(self.pairs(), key@) == Some(*v),
            r is None ==> value_of(self.pairs(), key@) is None,
    {
        match self.position(key) {
            Some(i) => Some(&self.entries[i].1),
            None => None,
        }
    }

    /// The entries, in the order their keys first came.
    pub fn into_pairs(self) -> (r: Vec<(String, Value)>)
        ensures
            r@ == self.pairs(),
    {
        self.entries
    }

    /// Applies one logged change.
    pub fn apply(&mut self, e: WalEntry)
        requires
            old(self).wf(),
        ensures
            final(self).wf(),
            final(self).pairs() == replayed_one(old(self).pairs(), e),
    {
        let ghost s = self.entries@;
        let ghost e0 = e;
        match e {
            WalEntry::Put { key, value } => {
                match self.position(key.as_str()) {
                    Some(i) => {
                        let k = self.entries[i].0.clone();
                        self.entries.set(i, (k, value));
                        proof {
                            let t = self.entries@;
                            assert forall|a: int, b: int| 0 <= a < b < t.len() implies t[a].0@ != t[b].0@ by {
                                assert(t[a].0 == s[a].0 && t[b].0 == s[b].0);
                            }
                        }
                    },
                    None => {
                        let ghost kk = key;
                        let ghost vv = value;
                        self.entries.push((key, value));
                        proof {
                            let t = self.entries@;
                            assert(t == s.push((kk, vv)));
                            assert forall|a: int, b: int| 0 <= a < b < t.len() implies t[a].0@ != t[b].0@ by {
                                if b == t.len() - 1 {
                                    assert(t[a] == s[a]);
                                } else {
                                    assert(t[a] == s[a] && t[b] == s[b]);
                                }
                            }
                        }
                    },
                }
            },
            WalEntry::Delete { key } => {
                match self.position(key.as_str()) {
                    Some(i) => {
                        let _ = self.entries.remove(i);
                        proof {
                            let t = self.entries@;
                            assert(t == s.remove(i as int));
                            assert forall|a: int, b: int| 0 <= a < b < t.len() implies t[a].0@ != t[b].0@ by {
                                let a0 = if a < i { a } else { a + 1 };
                                let b0 = if b < i { b } else { b + 1 };
                                assert(t[a] == s[a0] && t[b] == s[b0]);
                            }
                        }
                    },
                    None => {},
                }
            },
            WalEntry::Clear => {
                self.entries = Vec::new();
            },
        }
    }

    /// Replays logged changes in order.
    pub fn replay(&mut self, log: Vec<WalEntry>)
        requires
            old(self).wf(),
        ensures
            final(self).wf(),
            final(self).pairs() == replayed(old(self).pairs(), log@),
    {
        let ghost s = self.entries@;
        let ghost l = log@;
        let mut log = log;
        let _total = log.len();
        let mut done: usize = 0;
        proof {
            assert(l.subrange(0, 0) =~= Seq::<WalEntry>::empty());
            assert(log@ =~= l.subrange(0, l.len() as int));
        }
        while log.len() > 0
            invariant
                self.wf(),
                l.len() <= usize::MAX,
                done + log@.len() == l.len(),
                log@ == l.subrange(done as int, l.len() as int),
                self.entries@ == replayed(s, l.subrange(0, done as int)),
            decreases log@.len(),
        {
            let ghost before = log@;
            let e = log.remove(0);
            proof {
                assert(e == l[done as int]);
                assert(l.subrange(0, done + 1).drop_last() =~= l.subrange(0, done as int));
                assert(l.subrange(0, done + 1).last() == l[done as int]);
                assert(log@ =~= l.subrange(done + 1, l.len() as int));
            }
            self.apply(e);
            done = done + 1;
        }
        proof {
            assert(l.subrange(0, l.len() as int) =~= l);
        }
    }
}

/// After a logged write, the key holds the value written; after a logged
/// delete, it holds nothing; after a clear, nothing is held.
pub proof fn lemma_replay_last_change(s: Seq<(String, Value)>, e: WalEntry, k: Seq<char>)
    requires
        entry_keys_distinct(s),
    ensures
        e matches WalEntry::Put { key, value } ==> (key@ == k ==> value_of(replayed_one(s, e), k) == Some(value)),
        e matches WalEntry::Delete { key } ==> (key@ == k ==> value_of(replayed_one(s, e), k) is None),
        e is Clear ==> value_of(replayed_one(s, e), k) is None,
{
    match e {
        WalEntry::Put { key, value } => {
            if key@ == k {
                let t = replayed_one(s, e);
                if has_entry(s, k) {
                    let i = entry_index(s, k);
                    assert(t[i].0@ == k);
                    assert(has_entry(t, k));
                    let j = entry_index(t, k);
                    if j != i {
                        assert(t[j] == s[j]);
                        assert(false);
                    }
                } else {
                    let n = s.len() as int;
                    assert(t[n].0@ == k);
                    assert(has_entry(t, k));
                    let j = entry_index(t, k);
                    if j != n {
                        assert(t[j] == s[j]);
                        assert(false);
                    }
                }
            }
        },
        WalEntry::Delete { key } => {
            if key@ == k && has_entry(s, k) {
                let i = entry_index(s, k);
                let t = s.remove(i);
                if has_entry(t, k) {
                    let j = choose|j: int| 0 <= j < t.len() && t[j].0@ == k;
                    let j0 = if j < i { j } else { j + 1 };
                    assert(t[j] == s[j0]);
                }
            }
        },
        WalEntry::Clear => {},
    }
}

/// A logged change touches only its own key: after a write or a delete of
/// one key, every other key holds what it held before.
pub proof fn lemma_replay_keeps_other_keys(s: Seq<(String, Value)>, e: WalEntry, x: Seq<char>)
    requires
        entry_keys_distinct(s),
    ensures
        e matches WalEntry::Put { key, value } ==> (key@ != x ==> value_of(replayed_one(s, e), x) == value_of(s, x)),
        e matches WalEntry::Delete { key } ==> (key@ != x ==> value_of(replayed_one(s, e), x) == value_of(s, x)),
{
    match e {
        WalEntry::Put { key, value } => {
            if key@ != x {
                let t = replayed_one(s, e);
                if has_entry(s, key@) {
                    let i = entry_index(s, key@);
                    assert forall|m: int| 0 <= m < t.len() implies #[trigger] t[m].0 == s[m].0 && (m != i ==> t[m] == s[m]) by {}
                    if has_entry(s, x) {
                        let j = entry_index(s, x);
                        assert(j != i);
                        assert(t[j].0@ == x);
                        assert(has_entry(t, x));
                        let q = entry_index(t, x);
                        assert(s[q].0@ == x);
                        assert(q == j);
                    } else if has_entry(t, x) {
                        let q = entry_index(t, x);
                        assert(s[q].0@ == x);
                    }
                } else {
                    let n = s.len() as int;
                    assert(t == s.push((key, value)));
                    if has_entry(s, x) {
                        let j = entry_index(s, x);
                        assert(t[j] == s[j]);
                        assert(has_entry(t, x));
                        let q = entry_index(t, x);
                        assert(q != n);
                        assert(t[q] == s[q]);
                        assert(q == j);
                    } else if has_entry(t, x) {
                        let q = entry_index(t, x);
                        assert(q != n);
                        assert(t[q] == s[q]);
                    }
                }
            }
        },
        WalEntry::Delete { key } => {
            if key@ != x && has_entry(s, key@) {
                let i = entry_index(s, key@);
                let t = s.remove(i);
                assert(replayed_one(s, e) == t);
                if has_entry(s, x) {
                    let j = entry_index(s, x);
                    assert(j != i);
                    let p = if j < i { j } else { j - 1 };
                    assert(t[p] == s[j]);
                    assert(has_entry(t, x));
                    let q = entry_index(t, x);
                    let q0 = if q < i { q } else { q + 1 };
                    assert(t[q] == s[q0]);
                    assert(q0 == j);
                } else if has_entry(t, x) {
                    let q = entry_index(t, x);
                    let q0 = if q < i { q } else { q + 1 };
                    assert(t[q] == s[q0]);
                }
            }
        },
        WalEntry::Clear => {},
    }
}

// ---------------------------------------------------------------------------
// The log's accounting.
// ---------------------------------------------------------------------------

/// The size accounting of the open log.
pub struct WalAccounting {
    /// Whether persistence is on.
    pub enabled: bool,
    /// Whether changes are logged.
    pub wal_enabled: bool,
    /// The size beyond which the log is rotated.
    pub max_wal_size_bytes: usize,
    /// The bytes in the open log.
    pub wal_size: usize,
}

impl WalAccounting {
    /// The accounting of a log of `current_size` bytes under `config`.
    pub fn new(config: &PersistenceConfig, current_size: usize) -> (a: WalAccounting)
        ensures
            a.enabled == config.enabled,
            a.wal_enabled == config.wal_enabled,
            a.max_wal_size_bytes == config.max_wal_size_bytes,
            a.wal_size == current_size,
    {
        WalAccounting {
            enabled: config.enabled,
            wal_enabled: config.wal_enabled,
            max_wal_size_bytes: config.max_wal_size_bytes,
            wal_size: current_size,
        }
    }

    /// Whether a change is written to the log: only when persistence and
    /// logging are both on.
    pub fn logs(&self) -> (b: bool)
        ensures
            b == (self.enabled && self.wal_enabled),
    {
        self.enabled && self.wal_enabled
    }

    /// Counts a record with a payload of `payload_len` bytes (4 more for its
    /// length); returns whether the log has grown past its limit and must be
    /// rotated.
    pub fn record_written(&mut self, payload_len: usize) -> (rotate: bool)
        requires
            old(self).wal_size + 4 + payload_len <= usize::MAX,
        ensures
            final(self).wal_size == old(self).wal_size + 4 + payload_len,
            final(self).enabled == old(self).enabled,
            final(self).wal_enabled == old(self).wal_enabled,
            final(self).max_wal_size_bytes == old(self).max_wal_size_bytes,
            rotate == (final(self).wal_size > final(self).max_wal_size_bytes),
    {
        self.wal_size = self.wal_size + 4 + payload_len;
        self.wal_size > self.max_wal_size_bytes
    }

    /// The log was rotated or removed: the open log is empty.
    pub fn reset(&mut self)
        ensures
            final(self).wal_size == 0,
            final(self).enabled == old(self).enabled,
            final(self).wal_enabled == old(self).wal_enabled,
            final(self).max_wal_size_bytes == old(self).max_wal_size_bytes,
    {
        self.wal_size = 0;
    }
}

/// The name a rotated log takes: `cache.wal.` and the time of rotation.
pub fn wal_backup_name(now: u64) -> (s: String)
    ensures
        s@ == "cache.wal."@ + decimal(now as nat),
{
    let mut s = String::from_str("cache.wal.");
    let d = format_decimal(now);
    s.append(d.as_str());
    s
}

/// Whether a file name is that of a rotated log: it starts with `cache.wal.`.
pub fn is_wal_backup(name: &str) -> (b: bool)
    ensures
        b == (name@.len() >= 10 && name@.subrange(0, 10) == "cache.wal."@),
{
    proof {
        reveal_strlit("cache.wal.");
    }
    let prefix = "cache.wal.";
    let n = name.unicode_len();
    if n < 10 {
        return false;
    }
    let mut i: usize = 0;
    while i < 10
        invariant
            n == name@.len(),
            n >= 10,
            prefix@ == "cache.wal."@,
            prefix@.len() == 10,
            i <= 10,
            forall|j: int| 0 <= j < i ==> name@[j] == prefix@[j],
        decreases 10 - i,
    {
        if name.get_char(i) != prefix.get_char(i) {
            return false;
        }
        i = i + 1;
    }
    assert(name@.subrange(0, 10) =~= prefix@);
    true
}


/// The time in the name of a rotated log, `cache.wal.` followed by a
/// decimal `u64`; `None` for any other name.
pub open spec fn backup_time(name: Seq<char>) -> Option<u64> {
    if name.len() >= 10 && name.subrange(0, 10) == "cache.wal."@ {
        parsed_u64(name.subrange(10, name.len() as int))
    } else {
        None
    }
}

/// The names of rotated logs among `names`, in order.
pub open spec fn backup_names(names: Seq<Seq<char>>) -> Seq<Seq<char>>
    decreases names.len(),
{
    if names.len() == 0 {
        names
    } else if backup_time(names.last()) is Some {
        backup_names(names.drop_last()).push(names.last())
    } else {
        backup_names(names.drop_last())
    }
}

/// The time in the name of a rotated log; see [`backup_time`].
pub fn backup_time_of(name: &str) -> (r: Option<u64>)
    ensures
        r == backup_time(name@),
{
    if !is_wal_backup(name) {
        return None;
    }
    let suffix = name.substring_char(10, name.unicode_len());
    match parse_unsigned(suffix, 0xFFFF_FFFF_FFFF_FFFF) {
        Some(t) => Some(t),
        None => None,
    }
}

/// The rotated logs among the file names `names`, oldest first, as recovery
/// replays them before the current log: the names `cache.wal.T` whose `T`
/// is a decimal time, ordered by `T`.
pub fn rotated_logs_oldest_first(names: &Vec<String>) -> (r: Vec<String>)
    ensures
        string_views(r@).to_multiset() == backup_names(string_views(names@)).to_multiset(),
        forall|i: int| 0 <= i < r@.len() ==> backup_time(#[trigger] r@[i]@) is Some,
        forall|i: int, j: int| 0 <= i < j < r@.len() ==> backup_time(r@[i]@)->0 <= backup_time(r@[j]@)->0,
{
    let ghost ns = string_views(names@);
    let mut out: Vec<String> = Vec::new();
    let mut times: Vec<u64> = Vec::new();
    let mut i: usize = 0;
    proof {
        assert(backup_names(ns.subrange(0, 0)) =~= Seq::<Seq<char>>::empty());
        assert(string_views(out@) =~= Seq::<Seq<char>>::empty());
    }
    while i < names.len()
        invariant
            ns == string_views(names@),
            i <= names@.len(),
            out@.len() == times@.len(),
            string_views(out@).to_multiset() == backup_names(ns.subrange(0, i as int)).to_multiset(),
            forall|k: int| 0 <= k < out@.len() ==> backup_time(#[trigger] out@[k]@) == Some(times@[k]),
            forall|a: int, b: int| 0 <= a < b < times@.len() ==> times@[a] <= times@[b],
        decreases names@.len() - i,
    {
        proof {
            assert(ns.subrange(0, i + 1).drop_last() =~= ns.subrange(0, i as int));
            assert(ns.subrange(0, i + 1).last() == names@[i as int]@);
        }
        match backup_time_of(names[i].as_str()) {
            Some(t) => {
                let mut p: usize = 0;
                while p < times.len() && times[p] <= t
                    invariant
                        p <= times@.len(),
                        forall|k: int| 0 <= k < p ==> times@[k] <= t,
                    decreases times@.len() - p,
                {
                    p = p + 1;
                }
                let ghost o = out@;
                let ghost tm = times@;
                out.insert(p, names[i].clone());
                times.insert(p, t);
                proof {
                    broadcast use vstd::seq_lib::group_to_multiset_ensures;
                    assert(string_views(out@) =~= string_views(o).insert(p as int, names@[i as int]@));
                    assert forall|k: int| 0 <= k < out@.len() implies backup_time(#[trigger] out@[k]@) == Some(times@[k]) by {
                        if k < p {
                            assert(out@[k] == o[k] && times@[k] == tm[k]);
                        } else if k > p {
                            assert(out@[k] == o[k - 1] && times@[k] == tm[k - 1]);
                        }
                    }
                    assert forall|a: int, b: int| 0 <= a < b < times@.len() implies times@[a] <= times@[b] by {
                        if b < p {
                        } else if b == p {
                            assert(times@[a] == tm[a]);
                        } else if a < p {
                            assert(times@[b] == tm[b - 1]);
                            if b - 1 >= p {
                                assert(tm[p as int] > t);
                            }
                        } else if a == p {
                            assert(times@[b] == tm[b - 1]);
                            assert(tm[p as int] > t);
                            assert(tm[p as int] <= tm[b - 1]);
                        } else {
                            assert(times@[a] == tm[a - 1] && times@[b] == tm[b - 1]);
                        }
                    }
                }
            },
            None => {},
        }
        i = i + 1;
    }
    proof {
        assert(ns.subrange(0, names@.len() as int) =~= ns);
    }
    out
}

/// The persistence settings a server runs with, from its configuration:
/// on, in the configured directory (`./cache_data` by default), with the
/// configured snapshot interval and log limit (in MiB, the product taken
/// modulo the word size). `wal_disabled = true` turns the log off and
/// `no_compress_snapshots = true` turns snapshot compression off; either
/// left unset keeps it on.
pub fn persistence_config_from(section: &PersistenceSection) -> (c: PersistenceConfig)
    ensures
        c.enabled,
        section.data_dir matches Some(d) ==> c.data_dir@ == d@,
        section.data_dir is None ==> c.data_dir@ == "./cache_data"@,
        c.snapshot_interval_secs == match section.snapshot_interval { Some(i) => i, None => 300 },
        c.wal_enabled == match section.wal_disabled { Some(w) => !w, None => true },
        c.max_wal_size_bytes == match section.wal_max_mb {
            Some(m) => ((m as int * 0x10_0000) % (usize::MAX as int + 1)) as usize,
            None => 104857600usize,
        },
        c.compress_snapshots == match section.no_compress_snapshots { Some(n) => !n, None => true },
{
    let mut cfg = PersistenceConfig::default();
    cfg.enabled = true;
    cfg.data_dir = match &section.data_dir {
        Some(d) => d.clone(),
        None => String::from_str("./cache_data"),
    };
    if let Some(interval) = section.snapshot_interval {
        cfg.snapshot_interval_secs = interval;
    }
    if let Some(disabled) = section.wal_disabled {
        cfg.wal_enabled = !disabled;
    }
    if let Some(max_mb) = section.wal_max_mb {
        cfg.max_wal_size_bytes = max_mb.wrapping_mul(0x10_0000);
    }
    if let Some(no_compress) = section.no_compress_snapshots {
        cfg.compress_snapshots = !no_compress;
    }
    cfg
}

} // verus!
