//! A cached value with its expiry time and access statistics.
use vstd::prelude::*;
use crate::cache::compression::{compress, decompress, packed, unpacked};
use crate::utils::error::{BlazeCacheError, Result};
use crate::utils::time::current_timestamp;

verus! {

/// Values longer than this many bytes are compressed on demand.
pub const COMPRESSION_THRESHOLD: usize = 1024;

/// A cached value: its bytes (LZ4-compressed when `compressed`), its
/// absolute expiry time in seconds (0: never), and access statistics.
#[derive(Debug, Clone)]
pub struct Value {
    pub data: Vec<u8>,
    pub expire: u64,
    pub last_access: u64,
    pub access_count: u32,
    pub compressed: bool,
}

/// Whether a value with expiry `expire` has expired at time `now`.
pub open spec fn expired_at(expire: u64, now: u64) -> bool {
    expire > 0 && now > expire
}

/// Whether a value with these statistics is hot at time `now`: accessed at
/// least `threshold_count` times, the last time no more than
/// `threshold_age_secs` ago (the difference taken modulo 2^64).
pub open spec fn hot_at(access_count: u32, last_access: u64, threshold_count: u32, threshold_age_secs: u64, now: u64) -> bool {
    access_count >= threshold_count && (now as int - last_access as int) % 0x1_0000_0000_0000_0000 <= threshold_age_secs
}

/// The bytes a value holds once decompressed: its data when uncompressed,
/// and what decompressing the data gives when compressed.
pub open spec fn value_bytes(data: Seq<u8>, compressed: bool) -> Option<Seq<u8>> {
    if compressed { unpacked(data) } else { Some(data) }
}

/// How a new value keeps `data`: compressed (and flagged so) when it is
/// longer than 1 KiB and compression makes it shorter, as given otherwise.
pub open spec fn stored_form(data: Seq<u8>) -> (Seq<u8>, bool) {
    if data.len() > COMPRESSION_THRESHOLD && packed(data).len() < data.len() {
        (packed(data), true)
    } else {
        (data, false)
    }
}

impl Value {
    /// A fresh value accessed once at time `now`, expiring at `ttl` (an
    /// absolute time; 0 never expires), holding `data` as given.
    pub fn uncompressed_at(data: Vec<u8>, ttl: u64, now: u64) -> (v: Self)
        ensures
            v.data == data,
            v.expire == ttl,
            v.access_count == 1,
            v.last_access == now,
            !v.compressed,
    {
        Value { data, expire: ttl, access_count: 1, last_access: now, compressed: false }
    }

    /// A fresh value accessed once at time `now`, expiring at `ttl` (an
    /// absolute time; 0 never expires). Data larger than 1 KiB is compressed
    /// when that makes it shorter; [`Value::get_data`] gives it back.
    pub fn new_at(data: Vec<u8>, ttl: u64, now: u64) -> (v: Self)
        ensures
            (v.data@, v.compressed) == stored_form(data@),
            data@.len() < 0x1_0000_0000 ==> value_bytes(v.data@, v.compressed) == Some(data@),
            v.expire == ttl,
            v.access_count == 1,
            v.last_access == now,
    {
        let mut v = Self::uncompressed_at(data, ttl, now);
        let _ = v.compress_if_needed();
        v
    }

    /// A fresh value accessed once now; see [`new_at`](Self::new_at).
    pub fn new(data: Vec<u8>, ttl: u64) -> (v: Self)
        ensures
            (v.data@, v.compressed) == stored_form(data@),
            data@.len() < 0x1_0000_0000 ==> value_bytes(v.data@, v.compressed) == Some(data@),
            v.expire == ttl,
            v.access_count == 1,
    {
        let now = current_timestamp();
        Self::new_at(data, ttl, now)
    }

    /// Compresses the bytes when they are longer than 1 KiB, not yet
    /// compressed, and compression makes them shorter; [`Value::get_data`]
    /// then gives the uncompressed bytes back.
    pub fn compress_if_needed(&mut self) -> (r: Result<()>)
        ensures
            r is Ok,
            final(self).expire == old(self).expire,
            final(self).last_access == old(self).last_access,
            final(self).access_count == old(self).access_count,
            if !old(self).compressed && old(self).data@.len() > COMPRESSION_THRESHOLD
                && packed(old(self).data@).len() < old(self).data@.len() {
                &&& final(self).compressed
                &&& final(self).data@ == packed(old(self).data@)
                &&& old(self).data@.len() < 0x1_0000_0000 ==> unpacked(final(self).data@) == Some(old(self).data@)
            } else {
                &&& final(self).compressed == old(self).compressed
                &&& final(self).data == old(self).data
            },
    {
        if !self.compressed && self.data.len() > COMPRESSION_THRESHOLD {
            let compressed_data = match compress(self.data.as_slice()) {
                Ok(c) => c,
                Err(_) => { return Ok(()); },
            };
            if compressed_data.len() < self.data.len() {
                self.data = compressed_data;
                self.compressed = true;
            }
        }
        Ok(())
    }

    /// Whether the value has expired at time `now`.
    pub fn is_expired_at(&self, now: u64) -> (r: bool)
        ensures
            r == expired_at(self.expire, now),
    {
        if self.expire > 0 {
            now > self.expire
        } else {
            false
        }
    }

    /// Whether the value has expired now (see [`is_expired_at`](Self::is_expired_at)
    /// for the time the clock reads); a value without expiry never has.
    pub fn is_expired(&self) -> (r: bool)
        ensures
            self.expire == 0 ==> !r,
            exists|now: u64| r == #[trigger] expired_at(self.expire, now),
    {
        if self.expire > 0 {
            let now = current_timestamp();
            let r = now > self.expire;
            assert(r == expired_at(self.expire, now));
            r
        } else {
            assert(!expired_at(self.expire, 0));
            false
        }
    }

    /// The uncompressed bytes: decompressed when the value is compressed (a
    /// malformed block gives a `CompressionError`), a copy otherwise.
    pub fn get_data(&self) -> (r: Result<Vec<u8>>)
        ensures
            match value_bytes(self.data@, self.compressed) {
                Some(d) => r matches Ok(v) && v@ == d,
                None => r matches Err(BlazeCacheError::CompressionError(_)),
            },
    {
        if self.compressed {
            decompress(self.data.as_slice())
        } else {
            Ok(self.data.clone())
        }
    }

    /// Records an access at time `now`: the count goes up by one (wrapping)
    /// and the last access becomes `now`.
    pub fn access_at(&mut self, now: u64)
        ensures
            final(self).access_count == old(self).access_count.wrapping_add(1),
            final(self).last_access == now,
            final(self).data == old(self).data,
            final(self).expire == old(self).expire,
            final(self).compressed == old(self).compressed,
    {
        self.access_count = self.access_count.wrapping_add(1);
        self.last_access = now;
    }

    /// Records an access now.
    pub fn access(&mut self)
        ensures
            final(self).access_count == old(self).access_count.wrapping_add(1),
            final(self).data == old(self).data,
            final(self).expire == old(self).expire,
            final(self).compressed == old(self).compressed,
    {
        let now = current_timestamp();
        self.access_at(now);
    }

    /// Whether the value is hot at time `now`.
    pub fn is_hot_at(&self, threshold_count: u32, threshold_age_secs: u64, now: u64) -> (r: bool)
        ensures
            r == hot_at(self.access_count, self.last_access, threshold_count, threshold_age_secs, now),
    {
        self.access_count >= threshold_count && now.wrapping_sub(self.last_access) <= threshold_age_secs
    }

    /// Whether the value is hot now: accessed at least `threshold_count`
    /// times, the last time within `threshold_age_secs` of the time the
    /// clock reads (see [`is_hot_at`](Self::is_hot_at)).
    pub fn is_hot(&self, threshold_count: u32, threshold_age_secs: u64) -> (r: bool)
        ensures
            self.access_count < threshold_count ==> !r,
            exists|now: u64| r == #[trigger] hot_at(self.access_count, self.last_access, threshold_count, threshold_age_secs, now),
    {
        let now = current_timestamp();
        self.is_hot_at(threshold_count, threshold_age_secs, now)
    }
}

} // verus!
