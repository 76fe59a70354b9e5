//! The compact binary encoding of commands and replies.
//!
//! Command layout: one tag byte (0 ping, 1 get, 2 put, 3 delete, 4 peer,
//! 5 stats, 6 clear); keys are a big-endian `u16` byte length followed by the
//! UTF-8 bytes; a put then carries a big-endian `u32` value length, the value,
//! and a big-endian `u32` TTL in seconds (0 when absent).
//!
//! Reply layout: tag 0 with a big-endian `u32` length and the payload; tag 1
//! with a big-endian `u16` length and the UTF-8 error text; tag 2 for pong.
use vstd::prelude::*;
use crate::transports::common::{Command, CommandView, Response, ResponseView};
use crate::transports::tcp::Serializer;
use crate::utils::text::{decimal, format_decimal, string_from_utf8};
use vstd::utf8::{decode_utf8, encode_utf8, valid_utf8};
use vstd::slice::{slice_subrange, slice_to_vec};

verus! {

broadcast use vstd::utf8::encode_utf8_valid_utf8, vstd::utf8::encode_utf8_decode_utf8;

/// Two bytes, most significant first, of `n mod 2^16`.
pub open spec fn be16(n: nat) -> Seq<u8> {
    seq![((n / 256) % 256) as u8, (n % 256) as u8]
}

/// Four bytes, most significant first, of `n mod 2^32`.
pub open spec fn be32(n: nat) -> Seq<u8> {
    seq![
        ((n / 0x1000000) % 256) as u8,
        ((n / 0x10000) % 256) as u8,
        ((n / 256) % 256) as u8,
        (n % 256) as u8,
    ]
}

/// The big-endian `u16` at `d[i..i+2]`.
pub open spec fn read_be16(d: Seq<u8>, i: int) -> int {
    (d[i] as int) * 256 + (d[i + 1] as int)
}

/// The big-endian `u32` at `d[i..i+4]`.
pub open spec fn read_be32(d: Seq<u8>, i: int) -> int {
    (d[i] as int) * 0x1000000 + (d[i + 1] as int) * 0x10000 + (d[i + 2] as int) * 256 + (d[i + 3] as int)
}

/// A tag byte followed by a length-prefixed UTF-8 key (length taken mod 2^16).
pub open spec fn encode_keyed(tag: u8, key: Seq<char>) -> Seq<u8> {
    seq![tag] + be16((encode_utf8(key).len() % 0x10000) as nat) + encode_utf8(key)
}

/// The bytes that [`BinarySerializer::serialize_command`] writes for a command.
pub open spec fn encode_command(c: CommandView) -> Seq<u8> {
    match c {
        CommandView::Get(k) => encode_keyed(1, k),
        CommandView::Put(k, v, t) => encode_keyed(2, k) + be32((v.len() % 0x1_0000_0000) as nat) + v
            + be32(t as nat),
        CommandView::Delete(k) => encode_keyed(3, k),
        CommandView::Peer => seq![4u8],
        CommandView::Ping => seq![0u8],
        CommandView::Stats => seq![5u8],
        CommandView::Clear => seq![6u8],
    }
}

/// The bytes that [`BinarySerializer::serialize_response`] writes for a reply.
pub open spec fn encode_response(r: ResponseView) -> Seq<u8> {
    match r {
        ResponseView::Data(d) => seq![0u8] + be32((d.len() % 0x1_0000_0000) as nat) + d,
        ResponseView::Error(m) => seq![1u8] + be16((encode_utf8(m).len() % 0x10000) as nat)
            + encode_utf8(m),
        ResponseView::Pong => seq![2u8],
    }
}

/// Why a byte sequence does not decode: a message of this library, or a
/// string field that is not valid UTF-8 (whose text the standard library gives).
pub enum DecodeError {
    Message(Seq<char>),
    InvalidUtf8,
}

/// "`prefix`N bytes, got M".
pub open spec fn incomplete(prefix: Seq<char>, need: int, got: int) -> Seq<char> {
    prefix + decimal(need as nat) + " bytes, got "@ + decimal(got as nat)
}

/// Decoding of a get or delete command (`name` is "GET" or "DELETE").
pub open spec fn decode_keyed(d: Seq<u8>, too_short: Seq<char>, incomplete_prefix: Seq<char>)
    -> Result<Seq<char>, DecodeError>
{
    if d.len() < 3 {
        Err(DecodeError::Message(too_short))
    } else if d.len() < 3 + read_be16(d, 1) {
        Err(DecodeError::Message(incomplete(incomplete_prefix, 3 + read_be16(d, 1), d.len() as int)))
    } else if !valid_utf8(d.subrange(3, 3 + read_be16(d, 1))) {
        Err(DecodeError::InvalidUtf8)
    } else {
        Ok(decode_utf8(d.subrange(3, 3 + read_be16(d, 1))))
    }
}

/// Decoding of a put command.
pub open spec fn decode_put(d: Seq<u8>) -> Result<CommandView, DecodeError> {
    let key_end = 3 + read_be16(d, 1);
    if d.len() < 3 {
        Err(DecodeError::Message("PUT command too short"@))
    } else if d.len() < key_end {
        Err(DecodeError::Message(incomplete("PUT command incomplete at key: need "@, key_end, d.len() as int)))
    } else if !valid_utf8(d.subrange(3, key_end)) {
        Err(DecodeError::InvalidUtf8)
    } else if d.len() < key_end + 4 {
        Err(DecodeError::Message(incomplete("PUT command incomplete at value_len: need "@, key_end + 4, d.len() as int)))
    } else {
        let value_end = key_end + 4 + read_be32(d, key_end);
        if d.len() < value_end {
            Err(DecodeError::Message(incomplete("PUT command incomplete at value: need "@, value_end, d.len() as int)))
        } else {
            let ttl: u32 = if d.len() >= value_end + 4 { read_be32(d, value_end) as u32 } else { 0 };
            Ok(CommandView::Put(
                decode_utf8(d.subrange(3, key_end)),
                d.subrange(key_end + 4, value_end as int),
                ttl,
            ))
        }
    }
}

/// What [`BinarySerializer::deserialize_command`] makes of a byte sequence.
pub open spec fn decode_command(d: Seq<u8>) -> Result<CommandView, DecodeError> {
    if d.len() == 0 {
        Err(DecodeError::Message("Empty data"@))
    } else if d[0] == 0 {
        Ok(CommandView::Ping)
    } else if d[0] == 1 {
        match decode_keyed(d, "GET command too short"@, "GET command incomplete: need "@) {
            Ok(k) => Ok(CommandView::Get(k)),
            Err(e) => Err(e),
        }
    } else if d[0] == 2 {
        decode_put(d)
    } else if d[0] == 3 {
        match decode_keyed(d, "DELETE command too short"@, "DELETE command incomplete: need "@) {
            Ok(k) => Ok(CommandView::Delete(k)),
            Err(e) => Err(e),
        }
    } else if d[0] == 4 {
        Ok(CommandView::Peer)
    } else if d[0] == 5 {
        Ok(CommandView::Stats)
    } else if d[0] == 6 {
        Ok(CommandView::Clear)
    } else {
        Err(DecodeError::Message("Unknown command"@))
    }
}

/// What [`BinarySerializer::deserialize_response`] makes of a byte sequence.
pub open spec fn decode_response(d: Seq<u8>) -> Result<ResponseView, DecodeError> {
    if d.len() == 0 {
        Err(DecodeError::Message("Empty response"@))
    } else if d[0] == 0 {
        if d.len() < 5 {
            Err(DecodeError::Message("OK response too short"@))
        } else if d.len() < 5 + read_be32(d, 1) {
            Err(DecodeError::Message(incomplete("OK response incomplete: need "@, 5 + read_be32(d, 1), d.len() as int)))
        } else {
            Ok(ResponseView::Data(d.subrange(5, 5 + read_be32(d, 1))))
        }
    } else if d[0] == 1 {
        match decode_keyed(d, "ERROR response too short"@, "ERROR response incomplete: need "@) {
            Ok(m) => Ok(ResponseView::Error(m)),
            Err(e) => Err(e),
        }
    } else if d[0] == 2 {
        Ok(ResponseView::Pong)
    } else {
        Err(DecodeError::Message("Unknown response"@))
    }
}

/// The relation between an executable decoding result and its specification.
pub open spec fn decoded_as<T, V>(r: Result<T, String>, s: Result<V, DecodeError>, view: spec_fn(T) -> V) -> bool {
    match (r, s) {
        (Ok(x), Ok(v)) => view(x) == v,
        (Err(e), Err(DecodeError::Message(m))) => e@ == m,
        (Err(_), Err(DecodeError::InvalidUtf8)) => true,
        _ => false,
    }
}

fn push_be16(buf: &mut Vec<u8>, n: usize)
    ensures
        final(buf)@ == old(buf)@ + be16((n % 0x10000) as nat),
{
    let m: usize = n % 0x10000;
    buf.push((m / 256) as u8);
    buf.push((m % 256) as u8);
}

pub(crate) fn push_be32(buf: &mut Vec<u8>, n: u64)
    ensures
        final(buf)@ == old(buf)@ + be32((n % 0x1_0000_0000) as nat),
{
    let m: u64 = n % 0x1_0000_0000;
    buf.push(((m / 0x1000000) % 256) as u8);
    buf.push(((m / 0x10000) % 256) as u8);
    buf.push(((m / 256) % 256) as u8);
    buf.push((m % 256) as u8);
}

pub(crate) fn push_all(buf: &mut Vec<u8>, src: &[u8])
    ensures
        final(buf)@ == old(buf)@ + src@,
{
    let mut i: usize = 0;
    while i < src.len()
        invariant
            i <= src@.len(),
            buf@ == old(buf)@ + src@.subrange(0, i as int),
        decreases src@.len() - i,
    {
        buf.push(src[i]);
        i = i + 1;
        assert(src@.subrange(0, i as int) =~= src@.subrange(0, i - 1) .push(src@[i - 1]));
    }
    assert(src@.subrange(0, src@.len() as int) =~= src@);
}

fn keyed(tag: u8, key: &str) -> (buf: Vec<u8>)
    ensures
        buf@ == encode_keyed(tag, key@),
{
    let bytes = key.as_bytes();
    let mut buf: Vec<u8> = Vec::new();
    buf.push(tag);
    push_be16(&mut buf, bytes.len());
    push_all(&mut buf, bytes);
    buf
}

fn get_be16(d: &[u8], i: usize) -> (n: usize)
    requires
        i + 2 <= d@.len(),
    ensures
        n == read_be16(d@, i as int),
{
    (d[i] as usize) * 256 + (d[i + 1] as usize)
}

pub(crate) fn get_be32(d: &[u8], i: usize) -> (n: u64)
    requires
        i + 4 <= d@.len(),
    ensures
        n == read_be32(d@, i as int),
{
    (d[i] as u64) * 0x1000000 + (d[i + 1] as u64) * 0x10000 + (d[i + 2] as u64) * 256 + (d[i + 3] as u64)
}

fn incomplete_message(prefix: &str, need: u64, got: usize) -> (m: String)
    ensures
        m@ == incomplete(prefix@, need as int, got as int),
{
    let mut m = String::from_str(prefix);
    let a = format_decimal(need);
    m.append(a.as_str());
    m.append(" bytes, got ");
    let b = format_decimal(got as u64);
    m.append(b.as_str());
    m
}

fn decode_key_at(d: &[u8], too_short: &str, prefix: &str) -> (r: Result<String, String>)
    ensures
        decoded_as(r, decode_keyed(d@, too_short@, prefix@), |s: String| s@),
{
    if d.len() < 3 {
        return Err(String::from_str(too_short));
    }
    let key_len = get_be16(d, 1);
    if d.len() < 3 + key_len {
        return Err(incomplete_message(prefix, (3 + key_len) as u64, d.len()));
    }
    let bytes = slice_to_vec(slice_subrange(d, 3, 3 + key_len));
    string_from_utf8(bytes)
}

/// The binary encoding of commands and replies.
pub struct BinarySerializer;

impl BinarySerializer {
    /// Encodes a command. Lengths are written modulo their field widths.
    pub fn serialize_command(cmd: &Command) -> (buf: Vec<u8>)
        ensures
            buf@ == encode_command(cmd@),
    {
        match cmd {
            Command::Get(key) => keyed(1, key.as_str()),
            Command::Put(key, value, ttl) => {
                let mut buf = keyed(2, key.as_str());
                push_be32(&mut buf, value.len() as u64);
                push_all(&mut buf, value.as_slice());
                push_be32(&mut buf, *ttl as u64);
                proof {
                    assert(((*ttl as nat) % 0x1_0000_0000) == *ttl as nat);
                }
                buf
            },
            Command::Delete(key) => keyed(3, key.as_str()),
            Command::Peer => vec![4u8],
            Command::Ping => vec![0u8],
            Command::Stats => vec![5u8],
            Command::Clear => vec![6u8],
        }
    }

    /// Decodes a command; the error is the reason as text.
    pub fn deserialize_command(data: &[u8]) -> (r: Result<Command, String>)
        ensures
            decoded_as(r, decode_command(data@), |c: Command| c@),
    {
        if data.len() == 0 {
            return Err(String::from_str("Empty data"));
        }
        let tag = data[0];
        if tag == 0 {
            Ok(Command::Ping)
        } else if tag == 1 {
            match decode_key_at(data, "GET command too short", "GET command incomplete: need ") {
                Ok(k) => Ok(Command::Get(k)),
                Err(e) => Err(e),
            }
        } else if tag == 2 {
            Self::deserialize_put(data)
        } else if tag == 3 {
            match decode_key_at(data, "DELETE command too short", "DELETE command incomplete: need ") {
                Ok(k) => Ok(Command::Delete(k)),
                Err(e) => Err(e),
            }
        } else if tag == 4 {
            Ok(Command::Peer)
        } else if tag == 5 {
            Ok(Command::Stats)
        } else if tag == 6 {
            Ok(Command::Clear)
        } else {
            Err(String::from_str("Unknown command"))
        }
    }

    fn deserialize_put(data: &[u8]) -> (r: Result<Command, String>)
        requires
            data@.len() > 0,
            data@[0] == 2,
        ensures
            decoded_as(r, decode_put(data@), |c: Command| c@),
    {
        if data.len() < 3 {
            return Err(String::from_str("PUT command too short"));
        }
        let key_len = get_be16(data, 1);
        let key_end = 3 + key_len;
        if data.len() < key_end {
            return Err(incomplete_message("PUT command incomplete at key: need ", key_end as u64, data.len()));
        }
        let key_bytes = slice_to_vec(slice_subrange(data, 3, key_end));
        let key = match string_from_utf8(key_bytes) {
            Ok(k) => k,
            Err(e) => return Err(e),
        };
        if data.len() < key_end + 4 {
            return Err(incomplete_message("PUT command incomplete at value_len: need ", (key_end + 4) as u64, data.len()));
        }
        let value_len = get_be32(data, key_end);
        let value_start = key_end + 4;
        if (data.len() as u64) < value_start as u64 + value_len {
            return Err(incomplete_message("PUT command incomplete at value: need ", value_start as u64 + value_len, data.len()));
        }
        let value_end = value_start + value_len as usize;
        let value = slice_to_vec(slice_subrange(data, value_start, value_end));
        let ttl: u32 = if data.len() - value_end >= 4 {
            get_be32(data, value_end) as u32
        } else {
            0
        };
        Ok(Command::Put(key, value, ttl))
    }

    /// Encodes a reply. Lengths are written modulo their field widths.
    pub fn serialize_response(resp: &Response) -> (buf: Vec<u8>)
        ensures
            buf@ == encode_response(resp@),
    {
        match resp {
            Response::Data(data) => {
                let mut buf: Vec<u8> = Vec::new();
                buf.push(0u8);
                push_be32(&mut buf, data.len() as u64);
                push_all(&mut buf, data.as_slice());
                buf
            },
            Response::Error(msg) => keyed(1, msg.as_str()),
            Response::Pong => vec![2u8],
        }
    }

    /// Decodes a reply; the error is the reason as text.
    pub fn deserialize_response(data: &[u8]) -> (r: Result<Response, String>)
        ensures
            decoded_as(r, decode_response(data@), |x: Response| x@),
    {
        if data.len() == 0 {
            return Err(String::from_str("Empty response"));
        }
        let tag = data[0];
        if tag == 0 {
            if data.len() < 5 {
                return Err(String::from_str("OK response too short"));
            }
            let len = get_be32(data, 1);
            if (data.len() as u64) < 5 + len {
                return Err(incomplete_message("OK response incomplete: need ", 5 + len, data.len()));
            }
            let payload = slice_to_vec(slice_subrange(data, 5, 5 + len as usize));
            Ok(Response::Data(payload))
        } else if tag == 1 {
            match decode_key_at(data, "ERROR response too short", "ERROR response incomplete: need ") {
                Ok(m) => Ok(Response::Error(m)),
                Err(e) => Err(e),
            }
        } else if tag == 2 {
            Ok(Response::Pong)
        } else {
            Err(String::from_str("Unknown response"))
        }
    }
}


/// A command whose key and value lengths fit their length fields.
pub open spec fn command_fits(c: CommandView) -> bool {
    match c {
        CommandView::Get(k) => encode_utf8(k).len() < 0x10000,
        CommandView::Put(k, v, _) => encode_utf8(k).len() < 0x10000 && v.len() < 0x1_0000_0000,
        CommandView::Delete(k) => encode_utf8(k).len() < 0x10000,
        _ => true,
    }
}

/// A reply whose payload and message lengths fit their length fields.
pub open spec fn response_fits(r: ResponseView) -> bool {
    match r {
        ResponseView::Data(d) => d.len() < 0x1_0000_0000,
        ResponseView::Error(m) => encode_utf8(m).len() < 0x10000,
        ResponseView::Pong => true,
    }
}

pub(crate) proof fn lemma_be16(n: nat, d: Seq<u8>, i: int)
    requires
        n < 0x10000,
        0 <= i,
        i + 2 <= d.len(),
        d.subrange(i, i + 2) == be16(n),
    ensures
        read_be16(d, i) == n,
{
    assert(d[i] == d.subrange(i, i + 2)[0]);
    assert(d[i + 1] == d.subrange(i, i + 2)[1]);
}

pub(crate) proof fn lemma_be32(n: nat, d: Seq<u8>, i: int)
    requires
        n < 0x1_0000_0000,
        0 <= i,
        i + 4 <= d.len(),
        d.subrange(i, i + 4) == be32(n),
    ensures
        read_be32(d, i) == n,
{
    assert(d[i] == d.subrange(i, i + 4)[0]);
    assert(d[i + 1] == d.subrange(i, i + 4)[1]);
    assert(d[i + 2] == d.subrange(i, i + 4)[2]);
    assert(d[i + 3] == d.subrange(i, i + 4)[3]);
}

proof fn lemma_keyed_round_trip(tag: u8, k: Seq<char>, rest: Seq<u8>, too_short: Seq<char>, prefix: Seq<char>)
    requires
        encode_utf8(k).len() < 0x10000,
    ensures
        (encode_keyed(tag, k) + rest)[0] == tag,
        decode_keyed(encode_keyed(tag, k) + rest, too_short, prefix) == Ok::<Seq<char>, DecodeError>(k),
{
    let b = encode_utf8(k);
    let d = encode_keyed(tag, k) + rest;
    assert(d.subrange(1, 3) =~= be16(b.len()));
    lemma_be16(b.len(), d, 1);
    assert(d.subrange(3, 3 + b.len() as int) =~= b);
}

#[verifier::spinoff_prover]
#[verifier::rlimit(40)]
proof fn lemma_put_fields(k: Seq<char>, v: Seq<u8>, t: u32)
    requires
        encode_utf8(k).len() < 0x10000,
        v.len() < 0x1_0000_0000,
    ensures
        ({
            let b = encode_utf8(k);
            let d = encode_command(CommandView::Put(k, v, t));
            let key_end: int = 3 + b.len() as int;
            let value_end: int = key_end + 4 + v.len() as int;
            &&& d.len() == value_end + 4
            &&& d[0] == 2
            &&& read_be16(d, 1) == b.len()
            &&& d.subrange(3, key_end) == b
            &&& read_be32(d, key_end) == v.len()
            &&& d.subrange(key_end + 4, value_end) == v
            &&& read_be32(d, value_end) == t
        }),
{
    let b = encode_utf8(k);
    let d = encode_command(CommandView::Put(k, v, t));
    let key_end: int = 3 + b.len() as int;
    let value_end: int = key_end + 4 + v.len() as int;
    let p1 = seq![2u8] + be16(b.len());
    let p2 = be32(v.len());
    let p3 = be32(t as nat);
    assert(d =~= p1 + b + p2 + v + p3);
    assert(d.subrange(1, 3) =~= be16(b.len()));
    lemma_be16(b.len(), d, 1);
    assert(d.subrange(3, key_end) =~= b);
    assert(d.subrange(key_end, key_end + 4) =~= p2);
    lemma_be32(v.len(), d, key_end);
    assert(d.subrange(key_end + 4, value_end) =~= v);
    assert(d.subrange(value_end, value_end + 4) =~= p3);
    lemma_be32(t as nat, d, value_end);
}

proof fn lemma_put_round_trip(k: Seq<char>, v: Seq<u8>, t: u32)
    requires
        encode_utf8(k).len() < 0x10000,
        v.len() < 0x1_0000_0000,
    ensures
        decode_put(encode_command(CommandView::Put(k, v, t)))
            == Ok::<CommandView, DecodeError>(CommandView::Put(k, v, t)),
{
    lemma_put_fields(k, v, t);
}

/// Decoding an encoded command gives the command back, when its lengths fit
/// their fields.
pub proof fn lemma_command_round_trip(c: CommandView)
    requires
        command_fits(c),
    ensures
        decode_command(encode_command(c)) == Ok::<CommandView, DecodeError>(c),
{
    match c {
        CommandView::Get(k) => {
            lemma_keyed_round_trip(1, k, Seq::empty(), "GET command too short"@, "GET command incomplete: need "@);
            assert(encode_keyed(1, k) + Seq::<u8>::empty() =~= encode_keyed(1, k));
        },
        CommandView::Delete(k) => {
            lemma_keyed_round_trip(3, k, Seq::empty(), "DELETE command too short"@, "DELETE command incomplete: need "@);
            assert(encode_keyed(3, k) + Seq::<u8>::empty() =~= encode_keyed(3, k));
        },
        CommandView::Put(k, v, t) => {
            lemma_put_round_trip(k, v, t);
        },
        _ => {},
    }
}

/// Decoding an encoded reply gives the reply back, when its lengths fit
/// their fields.
pub proof fn lemma_response_round_trip(r: ResponseView)
    requires
        response_fits(r),
    ensures
        decode_response(encode_response(r)) == Ok::<ResponseView, DecodeError>(r),
{
    match r {
        ResponseView::Data(p) => {
            let d = encode_response(r);
            assert(d.subrange(1, 5) =~= be32(p.len()));
            lemma_be32(p.len(), d, 1);
            assert(d.subrange(5, 5 + p.len() as int) =~= p);
        },
        ResponseView::Error(m) => {
            lemma_keyed_round_trip(1, m, Seq::empty(), "ERROR response too short"@, "ERROR response incomplete: need "@);
            assert(encode_keyed(1, m) + Seq::<u8>::empty() =~= encode_keyed(1, m));
            assert(encode_response(r) =~= encode_keyed(1, m));
        },
        ResponseView::Pong => {},
    }
}

impl Serializer for BinarySerializer {
    fn serialize_command(cmd: &Command) -> (buf: Vec<u8>)
        ensures
            buf@ == encode_command(cmd@),
    {
        BinarySerializer::serialize_command(cmd)
    }

    fn deserialize_command(data: &[u8]) -> (r: Result<Command, String>)
        ensures
            decoded_as(r, decode_command(data@), |c: Command| c@),
    {
        BinarySerializer::deserialize_command(data)
    }

    fn serialize_response(resp: &Response) -> (buf: Vec<u8>)
        ensures
            buf@ == encode_response(resp@),
    {
        BinarySerializer::serialize_response(resp)
    }

    fn deserialize_response(data: &[u8]) -> (r: Result<Response, String>)
        ensures
            decoded_as(r, decode_response(data@), |x: Response| x@),
    {
        BinarySerializer::deserialize_response(data)
    }
}

} // verus!
