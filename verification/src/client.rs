//! Client-side logic: server selection (round robin or consistent hashing
//! over the cluster's servers) and the reading of a server's binary replies.
//!
//! A reply starts with a status byte: `0` is followed by a 4-byte big-endian
//! length and that many bytes of data, `1` by a 2-byte big-endian length and
//! that many bytes of error message; any other status is refused and the
//! connection is dropped. The caller reads the bytes that these functions
//! ask for and hands them back.
use vstd::prelude::*;
use crate::serializers::binary::{
    be32, decode_response, encode_response, lemma_be16, lemma_be32, read_be16, read_be32, BinarySerializer, DecodeError,
};
use crate::transports::common::ResponseView;
use crate::utils::text::{decimal, format_decimal, trim, trimmed};
use crate::transports::common::Response;
use vstd::string::StrSliceExecFns;
use vstd::utf8::valid_utf8;
use vstd::utf8::decode_utf8;
use crate::networking::consistent_hash::{
    fnv_hash, sorted_by_hash, string_views, successor_owner, vnodes, ConsistentHash,
};

verus! {

/// Errors reported by a cache client.
#[derive(Debug)]
pub enum ClientError {
    /// A transport failure, with its text.
    Io(String),
    Protocol(String),
    NotFound,
    Timeout,
}

/// The text of a client error.
pub open spec fn client_error_message(e: ClientError) -> Seq<char> {
    match e {
        ClientError::Io(m) => "IO error: "@ + m@,
        ClientError::Protocol(m) => "Protocol error: "@ + m@,
        ClientError::NotFound => "Key not found"@,
        ClientError::Timeout => "Operation timeout"@,
    }
}

impl ClientError {
    /// The error's text, as its display form.
    pub fn to_string(&self) -> (s: String)
        ensures
            s@ == client_error_message(*self),
    {
        match self {
            ClientError::Io(m) => {
                let mut s = String::from_str("IO error: ");
                s.append(m.as_str());
                s
            },
            ClientError::Protocol(m) => {
                let mut s = String::from_str("Protocol error: ");
                s.append(m.as_str());
                s
            },
            ClientError::NotFound => String::from_str("Key not found"),
            ClientError::Timeout => String::from_str("Operation timeout"),
        }
    }
}

/// How a client picks the server for a request.
#[derive(Clone, Copy, Debug, PartialEq, Eq)]
pub enum SelectionStrategy {
    RoundRobin,
    ConsistentHashing,
}

/// A consistent-hash ring over server addresses.
pub struct ClientConsistentHash {
    inner: ConsistentHash<String>,
}

impl ClientConsistentHash {
    /// The underlying ring, whose peers are the server addresses.
    pub closed spec fn ring(&self) -> ConsistentHash<String> {
        self.inner
    }

    /// Well-formedness: the ring is well formed and each peer is the address
    /// it was added under.
    pub closed spec fn wf(&self) -> bool {
        &&& self.inner.wf()
        &&& string_views(self.inner.peer_values()) == self.inner.peer_list()
    }

    /// An empty ring where each server will take `replicas` positions.
    pub fn new(replicas: usize) -> (h: Self)
        ensures
            h.wf(),
            h.ring().replica_count() == replicas,
            h.ring().positions().len() == 0,
            h.ring().peer_list().len() == 0,
    {
        let h = ClientConsistentHash { inner: ConsistentHash::new(replicas) };
        assert(string_views(h.inner.peer_values()) =~= h.inner.peer_list());
        h
    }

    /// Adds a server, appending its positions.
    pub fn add_server(&mut self, server: &str)
        requires
            old(self).wf(),
        ensures
            final(self).wf(),
            final(self).ring().replica_count() == old(self).ring().replica_count(),
            final(self).ring().peer_list() == old(self).ring().peer_list().push(server@),
            final(self).ring().positions() == old(self).ring().positions()
                + vnodes(server@, old(self).ring().peer_list().len() as usize, old(self).ring().replica_count()),
    {
        let s = String::from_str(server);
        self.inner.add_peer(s, server);
        assert(string_views(self.inner.peer_values()) =~= self.inner.peer_list());
    }

    /// Orders the ring by hash.
    pub fn finalize(&mut self)
        requires
            old(self).wf(),
        ensures
            final(self).wf(),
            final(self).ring().replica_count() == old(self).ring().replica_count(),
            final(self).ring().peer_list() == old(self).ring().peer_list(),
            final(self).ring().positions().to_multiset() == old(self).ring().positions().to_multiset(),
            sorted_by_hash(final(self).ring().positions()),
    {
        self.inner.finalize();
    }

    /// The server a key belongs to; `None` exactly when the ring is empty.
    pub fn pick_server(&self, key: &str) -> (r: Option<&str>)
        requires
            self.wf(),
        ensures
            self.ring().positions().len() == 0 <==> r is None,
            sorted_by_hash(self.ring().positions()) && self.ring().positions().len() > 0 ==> (r matches Some(s)
                && s@ == self.ring().peer_list()[successor_owner(self.ring().positions(), fnv_hash(key@)) as int]),
    {
        match self.inner.pick_peer(key) {
            Some(s) => {
                proof {
                    if sorted_by_hash(self.inner.positions()) && self.inner.positions().len() > 0 {
                        let o = successor_owner(self.inner.positions(), fnv_hash(key@)) as int;
                        assert(string_views(self.inner.peer_values())[o] == self.inner.peer_values()[o]@);
                    }
                }
                Some(s.as_str())
            },
            None => None,
        }
    }
}

/// The ring a client builds for a server list: for consistent hashing, 150
/// positions per server in list order, finalized; no ring for round robin.
pub fn build_ring(servers: &[String], strategy: &SelectionStrategy) -> (r: Option<ClientConsistentHash>)
    ensures
        (*strategy == SelectionStrategy::ConsistentHashing) <==> r is Some,
        r matches Some(h) ==> {
            &&& h.wf()
            &&& h.ring().replica_count() == 150
            &&& h.ring().peer_list() == string_views(servers@)
            &&& sorted_by_hash(h.ring().positions())
        },
{
    match strategy {
        SelectionStrategy::ConsistentHashing => {},
        _ => { return None; },
    }
    let mut ring = ClientConsistentHash::new(150);
    let mut i: usize = 0;
    while i < servers.len()
        invariant
            i <= servers@.len(),
            ring.wf(),
            ring.ring().replica_count() == 150,
            ring.ring().peer_list() == string_views(servers@.subrange(0, i as int)),
        decreases servers@.len() - i,
    {
        ring.add_server(servers[i].as_str());
        i = i + 1;
        assert(string_views(servers@.subrange(0, i as int)) =~= string_views(servers@.subrange(0, i - 1)).push(servers@[i - 1]@));
    }
    assert(servers@.subrange(0, servers@.len() as int) =~= servers@);
    ring.finalize();
    Some(ring)
}

/// The server a round-robin pick takes: the server at `counter mod n`.
pub open spec fn round_robin_pick(servers: Seq<Seq<char>>, counter: usize) -> Seq<char> {
    servers[(counter as nat % servers.len()) as int]
}

/// Picks the server for `key`. Round robin takes the server at the counter
/// (mod the number of servers) and advances the counter, wrapping; consistent
/// hashing asks the ring and falls back to round robin when it has no answer.
/// `None` exactly when no server can be picked.
pub fn select_server(
    strategy: &SelectionStrategy,
    servers: &Vec<String>,
    ring: &Option<ClientConsistentHash>,
    key: &str,
    counter: &mut usize,
) -> (r: Option<String>)
    requires
        ring matches Some(h) ==> h.wf(),
    ensures
        ({
            let from_ring = *strategy == SelectionStrategy::ConsistentHashing && (match ring {
                Some(h) => h.ring().positions().len() > 0,
                None => false,
            });
            if from_ring {
                &&& *final(counter) == *old(counter)
                &&& r is Some
                &&& match ring {
                    Some(h) => sorted_by_hash(h.ring().positions()) ==> (r matches Some(s)
                        && s@ == h.ring().peer_list()[successor_owner(h.ring().positions(), fnv_hash(key@)) as int]),
                    None => true,
                }
            } else if servers@.len() == 0 {
                r is None && *final(counter) == *old(counter)
            } else {
                &&& r matches Some(s) && s@ == round_robin_pick(string_views(servers@), *old(counter))
                &&& *final(counter) == old(counter).wrapping_add(1)
            }
        }),
{
    if let SelectionStrategy::ConsistentHashing = strategy {
        if let Some(h) = ring {
            if let Some(s) = h.pick_server(key) {
                return Some(String::from_str(s));
            }
        }
    }
    if servers.len() == 0 {
        return None;
    }
    let index = *counter % servers.len();
    *counter = counter.wrapping_add(1);
    assert(string_views(servers@)[index as int] == servers@[index as int]@);
    Some(servers[index].clone())
}

// ---------------------------------------------------------------------------
// Reading replies.
// ---------------------------------------------------------------------------

/// What `String::from_utf8_lossy` makes of some bytes.
pub uninterp spec fn lossy_text(bytes: Seq<u8>) -> Seq<char>;

/// `String::from_utf8_lossy`, as an owned string.
///
/// Trusted: the result is [`lossy_text`] of the bytes, which for valid UTF-8
/// is the decoded text. How invalid sequences are replaced is not stated.
#[verifier::external_body]
pub(crate) fn utf8_lossy(bytes: &[u8]) -> (s: String)
    ensures
        s@ == lossy_text(bytes@),
        valid_utf8(bytes@) ==> s@ == decode_utf8(bytes@),
{
    String::from_utf8_lossy(bytes).into_owned()
}

/// `b` with ASCII upper-case letters made lower case.
pub open spec fn ascii_lower(b: u8) -> u8 {
    if 65 <= b && b <= 90 { (b + 32) as u8 } else { b }
}

/// The bytes of `not found`.
pub open spec fn not_found_bytes() -> Seq<u8> {
    seq![110u8, 111u8, 116u8, 32u8, 102u8, 111u8, 117u8, 110u8, 100u8]
}

/// `not found`, ignoring ASCII case, stands at position `i` of `msg`.
pub open spec fn not_found_at(msg: Seq<u8>, i: int) -> bool {
    forall|j: int| 0 <= j < 9 ==> ascii_lower(#[trigger] msg[i + j]) == not_found_bytes()[j]
}

/// `msg` says `not found` somewhere, ignoring ASCII case.
pub open spec fn says_not_found(msg: Seq<u8>) -> bool {
    exists|i: int| 0 <= i && i + 9 <= msg.len() && #[trigger] not_found_at(msg, i)
}

/// Whether an error message says `not found`, ignoring ASCII case.
pub fn contains_not_found(msg: &[u8]) -> (b: bool)
    ensures
        b == says_not_found(msg@),
{
    let pattern: [u8; 9] = [110, 111, 116, 32, 102, 111, 117, 110, 100];
    proof {
        assert(pattern@ =~= not_found_bytes());
    }
    if msg.len() < 9 {
        return false;
    }
    let mut i: usize = 0;
    let last = msg.len() - 9;
    while i <= last
        invariant
            pattern@ == not_found_bytes(),
            msg@.len() >= 9,
            msg@.len() <= usize::MAX,
            last == msg@.len() - 9,
            i <= msg@.len() - 8,
            forall|k: int| 0 <= k < i ==> !#[trigger] not_found_at(msg@, k),
        decreases msg@.len() - i,
    {
        let mut j: usize = 0;
        let mut same = true;
        while j < 9
            invariant
                pattern@ == not_found_bytes(),
                i <= last,
                last == msg@.len() - 9,
                msg@.len() >= 9,
                msg@.len() <= usize::MAX,
                forall|k: int| 0 <= k < i ==> !#[trigger] not_found_at(msg@, k),
                j <= 9,
                same <==> forall|m: int| 0 <= m < j ==> ascii_lower(#[trigger] msg@[i + m]) == not_found_bytes()[m],
            decreases 9 - j,
        {
            let b = msg[i + j];
            let lower: u8 = if 65 <= b && b <= 90 { b + 32 } else { b };
            if lower != pattern[j] {
                same = false;
            }
            j = j + 1;
        }
        if same {
            proof {
                assert(not_found_at(msg@, i as int));
            }
            return true;
        }
        i = i + 1;
    }
    proof {
        assert forall|k: int| 0 <= k && k + 9 <= msg@.len() implies !#[trigger] not_found_at(msg@, k) by {
            assert(k < i);
        }
    }
    false
}

/// How many length bytes follow a reply's status byte: 4 for data, 2 for
/// an error, none (the status is refused) otherwise.
pub fn reply_header_len(status: u8) -> (n: Option<usize>)
    ensures
        n == (if status == 0 { Some(4usize) } else if status == 1 { Some(2usize) } else { None }),
{
    if status == 0 {
        Some(4)
    } else if status == 1 {
        Some(2)
    } else {
        None
    }
}

/// How many bytes of data or message follow the length bytes `header`.
pub fn reply_body_len(status: u8, header: &[u8]) -> (n: usize)
    requires
        status == 0 ==> header@.len() == 4,
        status != 0 ==> header@.len() == 2,
    ensures
        status == 0 ==> n == read_be32(header@, 0),
        status != 0 ==> n == read_be16(header@, 0),
{
    if status == 0 {
        let v: u64 = (header[0] as u64) * 0x1000000 + (header[1] as u64) * 0x10000 + (header[2] as u64) * 256
            + (header[3] as u64);
        v as usize
    } else {
        (header[0] as usize) * 256 + (header[1] as usize)
    }
}

fn status_error(prefix: &str, status: u8) -> (e: ClientError)
    ensures
        e matches ClientError::Protocol(m) && m@ == prefix@ + decimal(status as nat),
{
    let mut m = String::from_str(prefix);
    let d = format_decimal(status as u64);
    m.append(d.as_str());
    ClientError::Protocol(m)
}

/// The result of a read from the status and the bytes that followed the
/// length: data is the value; an error saying `not found` (or empty) is no
/// value; another error is a protocol error with its text; another status
/// is a protocol error `Unknown status: N`.
pub fn finish_get(status: u8, body: Vec<u8>) -> (r: Result<Option<Vec<u8>>, ClientError>)
    ensures
        status == 0 ==> (r matches Ok(Some(d)) && d@ == body@),
        status == 1 && (body@.len() == 0 || says_not_found(body@)) ==> r matches Ok(None),
        status == 1 && body@.len() > 0 && !says_not_found(body@) ==> (r matches Err(ClientError::Protocol(m))
            && m@ == lossy_text(body@)),
        status > 1 ==> (r matches Err(ClientError::Protocol(m)) && m@ == "Unknown status: "@ + decimal(status as nat)),
{
    if status == 0 {
        Ok(Some(body))
    } else if status == 1 {
        if body.len() == 0 || contains_not_found(body.as_slice()) {
            Ok(None)
        } else {
            Err(ClientError::Protocol(utf8_lossy(body.as_slice())))
        }
    } else {
        Err(status_error("Unknown status: ", status))
    }
}

/// The result of a write from the status and the bytes that followed the
/// length: data means stored; an empty error is `set failed`; another error
/// is a protocol error with its text; another status is a protocol error
/// `Unexpected status: N`.
pub fn finish_set(status: u8, body: Vec<u8>) -> (r: Result<(), ClientError>)
    ensures
        status == 0 ==> r is Ok,
        status == 1 && body@.len() == 0 ==> (r matches Err(ClientError::Protocol(m)) && m@ == "set failed"@),
        status == 1 && body@.len() > 0 ==> (r matches Err(ClientError::Protocol(m)) && m@ == lossy_text(body@)),
        status > 1 ==> (r matches Err(ClientError::Protocol(m)) && m@ == "Unexpected status: "@ + decimal(status as nat)),
{
    if status == 0 {
        Ok(())
    } else if status == 1 {
        if body.len() > 0 {
            Err(ClientError::Protocol(utf8_lossy(body.as_slice())))
        } else {
            Err(ClientError::Protocol(String::from_str("set failed")))
        }
    } else {
        Err(status_error("Unexpected status: ", status))
    }
}

/// The result of a delete from the status and the bytes that followed the
/// length: data means deleted; an error saying `not found` (or empty) means
/// nothing was there; another error is a protocol error with its text;
/// another status is a protocol error `Unexpected status: N`.
pub fn finish_delete(status: u8, body: Vec<u8>) -> (r: Result<bool, ClientError>)
    ensures
        status == 0 ==> r matches Ok(true),
        status == 1 && (body@.len() == 0 || says_not_found(body@)) ==> r matches Ok(false),
        status == 1 && body@.len() > 0 && !says_not_found(body@) ==> (r matches Err(ClientError::Protocol(m))
            && m@ == lossy_text(body@)),
        status > 1 ==> (r matches Err(ClientError::Protocol(m)) && m@ == "Unexpected status: "@ + decimal(status as nat)),
{
    if status == 0 {
        Ok(true)
    } else if status == 1 {
        if body.len() == 0 || contains_not_found(body.as_slice()) {
            Ok(false)
        } else {
            Err(ClientError::Protocol(utf8_lossy(body.as_slice())))
        }
    } else {
        Err(status_error("Unexpected status: ", status))
    }
}

/// Whether the connection may go back to the pool after a reply with this
/// status: only after a status the protocol knows.
pub fn keeps_connection(status: u8) -> (b: bool)
    ensures
        b == (status <= 1),
{
    status <= 1
}

/// What a server sends for a value is read back by a client as that value:
/// the status is 0, the four length bytes give the value's length, and the
/// bytes after them are the value.
pub proof fn lemma_value_reply_read_back(d: Seq<u8>)
    requires
        d.len() < 0x1_0000_0000,
    ensures
        encode_response(ResponseView::Data(d))[0] == 0,
        read_be32(encode_response(ResponseView::Data(d)).subrange(1, 5), 0) == d.len(),
        encode_response(ResponseView::Data(d)).subrange(5, 5 + d.len() as int) == d,
{
    let e = encode_response(ResponseView::Data(d));
    vstd::arithmetic::div_mod::lemma_small_mod(d.len(), 0x1_0000_0000);
    assert(e.subrange(1, 5) =~= be32(d.len()));
    assert(e.subrange(1, 5).subrange(0, 4) =~= be32(d.len()));
    lemma_be32(d.len(), e.subrange(1, 5), 0);
    assert(e.subrange(5, 5 + d.len() as int) =~= d);
}

// ---------------------------------------------------------------------------
// Peer discovery.
// ---------------------------------------------------------------------------

/// The comma-separated fields of `s`, as `str::split(',')` gives them (an
/// empty text is one empty field).
pub open spec fn comma_fields(s: Seq<char>) -> Seq<Seq<char>>
    decreases s.len(),
{
    if s.len() == 0 {
        seq![Seq::<char>::empty()]
    } else {
        let p = comma_fields(s.drop_last());
        if s.last() == ',' {
            p.push(Seq::<char>::empty())
        } else {
            p.update(p.len() - 1, p.last().push(s.last()))
        }
    }
}

/// The fields, each trimmed, without those left empty.
pub open spec fn nonblank_trimmed(fields: Seq<Seq<char>>) -> Seq<Seq<char>>
    decreases fields.len(),
{
    if fields.len() == 0 {
        Seq::empty()
    } else if trimmed(fields.last()).len() > 0 {
        nonblank_trimmed(fields.drop_last()).push(trimmed(fields.last()))
    } else {
        nonblank_trimmed(fields.drop_last())
    }
}

/// The servers a peer list names: its comma-separated entries, trimmed,
/// without empty ones.
pub open spec fn peer_list_of(text: Seq<char>) -> Seq<Seq<char>> {
    nonblank_trimmed(comma_fields(text))
}

/// The servers named in the text of a peer list.
pub fn parse_peer_list(text: &str) -> (r: Vec<String>)
    ensures
        string_views(r@) == peer_list_of(text@),
{
    let n = text.unicode_len();
    let mut out: Vec<String> = Vec::new();
    let mut start: usize = 0;
    let mut i: usize = 0;
    let ghost mut done: Seq<Seq<char>> = Seq::empty();
    proof {
        assert(text@.subrange(0, 0) =~= Seq::<char>::empty());
        assert(text@.subrange(0, 0) =~= text@.subrange(0, 0));
        assert(comma_fields(text@.subrange(0, 0)) =~= done + seq![text@.subrange(0, 0)]);
    }
    while i < n
        invariant
            n == text@.len(),
            start <= i <= n,
            comma_fields(text@.subrange(0, i as int)) == done + seq![text@.subrange(start as int, i as int)],
            string_views(out@) == nonblank_trimmed(done),
        decreases n - i,
    {
        let c = text.get_char(i);
        proof {
            let pre = text@.subrange(0, i + 1);
            assert(pre.drop_last() =~= text@.subrange(0, i as int));
            assert(pre.last() == c);
        }
        if c == ',' {
            let field = text.substring_char(start, i);
            let t = trim(field);
            proof {
                let d2 = done.push(field@);
                assert(d2.drop_last() =~= done);
                assert(d2.last() == field@);
            }
            if t.unicode_len() > 0 {
                let ghost before = out@;
                out.push(String::from_str(t));
                proof {
                    assert(string_views(out@) =~= string_views(before).push(t@));
                }
            }
            proof {
                done = done.push(field@);
                assert(text@.subrange(i + 1, i + 1) =~= Seq::<char>::empty());
                assert(comma_fields(text@.subrange(0, i + 1)) =~= done + seq![text@.subrange(i + 1, i + 1)]);
            }
            start = i + 1;
        } else {
            proof {
                assert(text@.subrange(start as int, i + 1) =~= text@.subrange(start as int, i as int).push(c));
                assert(comma_fields(text@.subrange(0, i + 1)) =~= done + seq![text@.subrange(start as int, i + 1)]);
            }
        }
        i = i + 1;
    }
    let field = text.substring_char(start, n);
    let t = trim(field);
    proof {
        assert(text@.subrange(0, n as int) =~= text@);
        let d2 = done.push(field@);
        assert(d2.drop_last() =~= done);
        assert(d2.last() == field@);
        assert(comma_fields(text@) =~= d2);
    }
    if t.unicode_len() > 0 {
        let ghost before = out@;
        out.push(String::from_str(t));
        proof {
            assert(string_views(out@) =~= string_views(before).push(t@));
        }
    }
    out
}

/// The servers a reply to a peer request names: the entries of its data
/// read as text; an error reply is a protocol error with its message, and
/// any other reply the protocol error `Invalid PEER response`.
pub fn discovered_peers(resp: Response) -> (r: Result<Vec<String>, ClientError>)
    ensures
        resp matches Response::Data(d) ==> (r matches Ok(v) && string_views(v@) == peer_list_of(lossy_text(d@))),
        resp matches Response::Error(m) ==> (r matches Err(ClientError::Protocol(e)) && e@ == m@),
        resp is Pong ==> (r matches Err(ClientError::Protocol(e)) && e@ == "Invalid PEER response"@),
{
    match resp {
        Response::Data(d) => {
            let text = utf8_lossy(d.as_slice());
            Ok(parse_peer_list(text.as_str()))
        },
        Response::Error(m) => Err(ClientError::Protocol(m)),
        Response::Pong => Err(ClientError::Protocol(String::from_str("Invalid PEER response"))),
    }
}

/// The result of reading `reply` from the server: an empty read means the
/// connection closed; bytes that do not decode are a protocol error with the
/// decoder's text; otherwise the decoded reply.
fn read_reply(reply: &[u8]) -> (r: Result<Response, ClientError>)
    ensures
        reply@.len() == 0 ==> (r matches Err(ClientError::Io(m)) && m@ == "Connection closed"@),
        reply@.len() > 0 ==> match decode_response(reply@) {
            Ok(v) => r matches Ok(x) && x@ == v,
            Err(DecodeError::Message(m)) => r matches Err(ClientError::Protocol(e)) && e@ == m,
            Err(DecodeError::InvalidUtf8) => r matches Err(ClientError::Protocol(_)),
        },
{
    if reply.len() == 0 {
        return Err(ClientError::Io(String::from_str("Connection closed")));
    }
    match BinarySerializer::deserialize_response(reply) {
        Ok(x) => Ok(x),
        Err(e) => Err(ClientError::Protocol(e)),
    }
}

/// The result of a ping from the bytes the server sent back: an empty read
/// means the connection closed; bytes that do not decode are a protocol
/// error with the decoder's text; `Pong` succeeds; an error reply is a
/// protocol error with its message; a data reply is the protocol error
/// `Ping failed`.
pub fn finish_ping(reply: &[u8]) -> (r: Result<(), ClientError>)
    ensures
        reply@.len() == 0 ==> (r matches Err(ClientError::Io(m)) && m@ == "Connection closed"@),
        reply@.len() > 0 ==> match decode_response(reply@) {
            Ok(ResponseView::Pong) => r is Ok,
            Ok(ResponseView::Error(m)) => r matches Err(ClientError::Protocol(e)) && e@ == m,
            Ok(ResponseView::Data(_)) => r matches Err(ClientError::Protocol(e)) && e@ == "Ping failed"@,
            Err(DecodeError::Message(m)) => r matches Err(ClientError::Protocol(e)) && e@ == m,
            Err(DecodeError::InvalidUtf8) => r matches Err(ClientError::Protocol(_)),
        },
{
    match read_reply(reply) {
        Ok(Response::Pong) => Ok(()),
        Ok(Response::Error(m)) => Err(ClientError::Protocol(m)),
        Ok(Response::Data(_)) => Err(ClientError::Protocol(String::from_str("Ping failed"))),
        Err(e) => Err(e),
    }
}

/// The servers named by the bytes a seed server sent back for a peer
/// request: an empty read means the connection closed; bytes that do not
/// decode are a protocol error with the decoder's text; otherwise see
/// [`discovered_peers`].
pub fn peers_from_reply(reply: &[u8]) -> (r: Result<Vec<String>, ClientError>)
    ensures
        reply@.len() == 0 ==> (r matches Err(ClientError::Io(m)) && m@ == "Connection closed"@),
        reply@.len() > 0 ==> match decode_response(reply@) {
            Ok(ResponseView::Data(d)) => r matches Ok(v) && string_views(v@) == peer_list_of(lossy_text(d)),
            Ok(ResponseView::Error(m)) => r matches Err(ClientError::Protocol(e)) && e@ == m,
            Ok(ResponseView::Pong) => r matches Err(ClientError::Protocol(e)) && e@ == "Invalid PEER response"@,
            Err(DecodeError::Message(m)) => r matches Err(ClientError::Protocol(e)) && e@ == m,
            Err(DecodeError::InvalidUtf8) => r matches Err(ClientError::Protocol(_)),
        },
{
    match read_reply(reply) {
        Ok(resp) => discovered_peers(resp),
        Err(e) => Err(e),
    }
}

} // verus!
