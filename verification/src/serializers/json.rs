//! A JSON encoding of commands and replies, for debugging and tools.
//!
//! A command is an object with a `type` field (`get`, `put`, `delete`,
//! `peer`, `ping`, `stats`, `clear`) and, as the type needs, `key`, `value`
//! (base64) and `ttl`; a reply is an object with a `status` field (`ok`,
//! `error`, `pong`) and `data` (base64) or `message`. Objects are written
//! compactly with their keys in order, as `serde_json` writes them. Parsing
//! JSON, quoting strings and base64 are `serde_json`'s and `base64`'s.
use vstd::prelude::*;
use base64::Engine;
use crate::transports::common::{Command, CommandView, Response, ResponseView};
use crate::transports::tcp::Serializer;
use crate::utils::text::{decimal, format_decimal, same_text};
use vstd::string::StrSliceExecFns;
use vstd::utf8::encode_utf8;

verus! {

/// Whether `serde_json` parses some bytes as a JSON document.
pub uninterp spec fn json_valid(data: Seq<u8>) -> bool;

/// The string held by field `key` of a JSON object document, as
/// `serde_json` reads it (`None` when the document is no object, the field
/// is missing, or it is not a string).
pub uninterp spec fn json_text_at(data: Seq<u8>, key: Seq<char>) -> Option<Seq<char>>;

/// The number held by field `key` of a JSON object document when it is an
/// unsigned integer that fits in a `u64`, as `serde_json` reads it.
pub uninterp spec fn json_u64_at(data: Seq<u8>, key: Seq<char>) -> Option<u64>;

/// A lowercase hexadecimal digit.
pub open spec fn hex_digit(d: int) -> char {
    if d < 10 { (48 + d) as char } else { (87 + d) as char }
}

/// How `serde_json` writes a character inside a string literal: a quote and
/// a backslash are escaped with a backslash; backspace, form feed, line
/// feed, carriage return and tab as `\b`, `\f`, `\n`, `\r`, `\t`; the
/// other characters below U+0020 as `\u00` and two lowercase hexadecimal
/// digits; every other character as itself.
pub open spec fn json_escape(c: char) -> Seq<char> {
    let n = c as int;
    if c == '"' || c == '\\' {
        seq!['\\', c]
    } else if n == 8 {
        seq!['\\', 'b']
    } else if n == 12 {
        seq!['\\', 'f']
    } else if n == 10 {
        seq!['\\', 'n']
    } else if n == 13 {
        seq!['\\', 'r']
    } else if n == 9 {
        seq!['\\', 't']
    } else if n < 32 {
        seq!['\\', 'u', '0', '0', hex_digit(n / 16), hex_digit(n % 16)]
    } else {
        seq![c]
    }
}

/// The characters of a text, each escaped as in a JSON string literal.
pub open spec fn json_escaped(s: Seq<char>) -> Seq<char>
    decreases s.len(),
{
    if s.len() == 0 {
        Seq::empty()
    } else {
        json_escaped(s.drop_last()) + json_escape(s.last())
    }
}

/// The JSON string literal `serde_json` writes for a text, quotes included.
pub open spec fn json_quoted(s: Seq<char>) -> Seq<char> {
    seq!['"'] + json_escaped(s) + seq!['"']
}

/// Character `n` (below 64) of the standard base64 alphabet: `A`-`Z`,
/// `a`-`z`, `0`-`9`, `+`, `/`.
pub open spec fn base64_char(n: int) -> char {
    if n < 26 {
        (65 + n) as char
    } else if n < 52 {
        (71 + n) as char
    } else if n < 62 {
        (n - 4) as char
    } else if n == 62 {
        '+'
    } else {
        '/'
    }
}

/// The standard, padded base64 text of some bytes: each group of three
/// bytes gives four characters of six bits each, most significant first; a
/// last group of one or two bytes is filled with zero bits and the text
/// padded with `=` to four characters.
pub open spec fn base64_encoded(data: Seq<u8>) -> Seq<char>
    decreases data.len(),
{
    if data.len() == 0 {
        Seq::empty()
    } else if data.len() == 1 {
        let a = data[0] as int;
        seq![base64_char(a / 4), base64_char((a % 4) * 16), '=', '=']
    } else if data.len() == 2 {
        let a = data[0] as int;
        let b = data[1] as int;
        seq![base64_char(a / 4), base64_char((a % 4) * 16 + b / 16), base64_char((b % 16) * 4), '=']
    } else {
        let a = data[0] as int;
        let b = data[1] as int;
        let c = data[2] as int;
        seq![base64_char(a / 4), base64_char((a % 4) * 16 + b / 16), base64_char((b % 16) * 4 + c / 64), base64_char(c % 64)]
            + base64_encoded(data.subrange(3, data.len() as int))
    }
}

/// The bytes a standard, padded base64 text decodes to, if it is valid.
pub uninterp spec fn base64_decoded(text: Seq<char>) -> Option<Seq<u8>>;

/// `serde_json::from_slice::<serde_json::Value>`, kept for its outcome.
///
/// Trusted: the parse succeeds exactly on [`json_valid`] documents; on
/// failure the parser's error text is returned, which is not stated.
#[verifier::external_body]
fn json_check(data: &[u8]) -> (r: Option<String>)
    ensures
        r is None <==> json_valid(data@),
{
    match serde_json::from_slice::<serde_json::Value>(data) {
        Ok(_) => None,
        Err(e) => Some(e.to_string()),
    }
}

/// `serde_json::Value::get` on the parsed document, then `as_str`.
///
/// Trusted: the result is [`json_text_at`] of the document and key.
#[verifier::external_body]
fn json_text_field(data: &[u8], key: &str) -> (r: Option<String>)
    ensures
        r matches Some(s) ==> json_text_at(data@, key@) == Some(s@),
        r is None ==> json_text_at(data@, key@) is None,
{
    match serde_json::from_slice::<serde_json::Value>(data) {
        Ok(v) => v.get(key).and_then(|x| x.as_str()).map(|s| s.to_string()),
        Err(_) => None,
    }
}

/// `serde_json::Value::get` on the parsed document, then `as_u64`.
///
/// Trusted: the result is [`json_u64_at`] of the document and key.
#[verifier::external_body]
fn json_u64_field(data: &[u8], key: &str) -> (r: Option<u64>)
    ensures
        r == json_u64_at(data@, key@),
{
    match serde_json::from_slice::<serde_json::Value>(data) {
        Ok(v) => v.get(key).and_then(|x| x.as_u64()),
        Err(_) => None,
    }
}

/// `serde_json::to_string` of a text.
///
/// Trusted: the result is [`json_quoted`] of the text (`format_escaped_str`
/// and its `ESCAPE` table in `serde_json`'s `ser.rs`; writing a `&str` never
/// fails).
#[verifier::external_body]
fn json_quote(s: &str) -> (r: String)
    ensures
        r@ == json_quoted(s@),
{
    serde_json::to_string(s).unwrap_or_default()
}

/// `base64::engine::general_purpose::STANDARD.encode`.
///
/// Trusted: the result is [`base64_encoded`] of the bytes (RFC 4648, the
/// standard alphabet with padding), and it decodes back to them.
#[verifier::external_body]
fn base64_encode(data: &[u8]) -> (r: String)
    requires
        data@.len() <= usize::MAX / 2,
    ensures
        r@ == base64_encoded(data@),
        base64_decoded(r@) == Some(data@),
{
    base64::engine::general_purpose::STANDARD.encode(data)
}

/// `base64::engine::general_purpose::STANDARD.decode`.
///
/// Trusted: the bytes are [`base64_decoded`] of the text; on failure the
/// decoder's error text is returned, which is not stated.
#[verifier::external_body]
fn base64_decode(text: &str) -> (r: Result<Vec<u8>, String>)
    ensures
        r matches Ok(d) ==> base64_decoded(text@) == Some(d@),
        r is Err ==> base64_decoded(text@) is None,
{
    base64::engine::general_purpose::STANDARD.decode(text).map_err(|e| e.to_string())
}

/// The JSON text of a command.
pub open spec fn command_json(c: CommandView) -> Seq<char> {
    match c {
        CommandView::Get(k) => "{\"key\":"@ + json_quoted(k) + ",\"type\":\"get\"}"@,
        CommandView::Put(k, v, t) => "{\"key\":"@ + json_quoted(k) + ",\"ttl\":"@ + decimal(t as nat)
            + ",\"type\":\"put\",\"value\":\""@ + base64_encoded(v) + "\"}"@,
        CommandView::Delete(k) => "{\"key\":"@ + json_quoted(k) + ",\"type\":\"delete\"}"@,
        CommandView::Peer => "{\"type\":\"peer\"}"@,
        CommandView::Ping => "{\"type\":\"ping\"}"@,
        CommandView::Stats => "{\"type\":\"stats\"}"@,
        CommandView::Clear => "{\"type\":\"clear\"}"@,
    }
}

/// The JSON text of a reply.
pub open spec fn response_json(r: ResponseView) -> Seq<char> {
    match r {
        ResponseView::Data(d) => "{\"data\":\""@ + base64_encoded(d) + "\",\"status\":\"ok\"}"@,
        ResponseView::Error(m) => "{\"message\":"@ + json_quoted(m) + ",\"status\":\"error\"}"@,
        ResponseView::Pong => "{\"status\":\"pong\"}"@,
    }
}

/// The JSON encoding.
pub struct JsonSerializer;

fn text_bytes(s: String) -> (b: Vec<u8>)
    ensures
        b@ == encode_utf8(s@),
{
    s.as_str().as_bytes_vec()
}

fn keyed_json(key: &str, tail: &str) -> (s: String)
    ensures
        s@ == "{\"key\":"@ + json_quoted(key@) + tail@,
{
    let mut s = String::from_str("{\"key\":");
    let q = json_quote(key);
    s.append(q.as_str());
    s.append(tail);
    s
}

/// What decoding the JSON command `data` gives: a document that does not
/// parse is an error; then the `type` decides, as [`JsonSerializer::deserialize_command`]
/// describes.
pub open spec fn json_command_result(data: Seq<u8>, r: Result<Command, String>) -> bool {
    &&& !json_valid(data) ==> r is Err
    &&& json_valid(data) ==> ({
        let ty = json_text_at(data, "type"@);
        let key = json_text_at(data, "key"@);
        if ty == Some("ping"@) {
            r matches Ok(c) && c@ == CommandView::Ping
        } else if ty == Some("peer"@) {
            r matches Ok(c) && c@ == CommandView::Peer
        } else if ty == Some("stats"@) {
            r matches Ok(c) && c@ == CommandView::Stats
        } else if ty == Some("clear"@) {
            r matches Ok(c) && c@ == CommandView::Clear
        } else if ty == Some("get"@) || ty == Some("delete"@) {
            match key {
                Some(k) => r matches Ok(c) && c@ == if ty == Some("get"@) {
                    CommandView::Get(k)
                } else {
                    CommandView::Delete(k)
                },
                None => r matches Err(e) && e@ == "Missing key"@,
            }
        } else if ty == Some("put"@) {
            match (key, json_text_at(data, "value"@)) {
                (None, _) => r matches Err(e) && e@ == "Missing key"@,
                (Some(_), None) => r matches Err(e) && e@ == "Missing value"@,
                (Some(k), Some(b)) => match base64_decoded(b) {
                    None => r is Err,
                    Some(v) => r matches Ok(c) && c@ == CommandView::Put(k, v, match json_u64_at(data, "ttl"@) {
                        Some(t) => t as u32,
                        None => 0u32,
                    }),
                },
            }
        } else {
            r matches Err(e) && e@ == "Unknown command type"@
        }
    })
}

/// What decoding the JSON reply `data` gives: a document that does not parse
/// is an error; then the `status` decides, as [`JsonSerializer::deserialize_response`]
/// describes.
pub open spec fn json_response_result(data: Seq<u8>, r: Result<Response, String>) -> bool {
    &&& !json_valid(data) ==> r is Err
    &&& json_valid(data) ==> ({
        let st = json_text_at(data, "status"@);
        if st == Some("ok"@) {
            match json_text_at(data, "data"@) {
                None => r matches Err(e) && e@ == "Missing data"@,
                Some(b) => match base64_decoded(b) {
                    None => r is Err,
                    Some(d) => r matches Ok(x) && x@ == ResponseView::Data(d),
                },
            }
        } else if st == Some("error"@) {
            match json_text_at(data, "message"@) {
                None => r matches Err(e) && e@ == "Missing message"@,
                Some(m) => r matches Ok(x) && x@ == ResponseView::Error(m),
            }
        } else if st == Some("pong"@) {
            r matches Ok(x) && x@ == ResponseView::Pong
        } else {
            r matches Err(e) && e@ == "Unknown response status"@
        }
    })
}

impl JsonSerializer {
    /// Encodes a command as JSON text.
    pub fn serialize_command(cmd: &Command) -> (buf: Vec<u8>)
        requires
            cmd matches Command::Put(_, v, _) ==> v@.len() <= usize::MAX / 2,
        ensures
            buf@ == encode_utf8(command_json(cmd@)),
    {
        let text = match cmd {
            Command::Get(key) => keyed_json(key.as_str(), ",\"type\":\"get\"}"),
            Command::Put(key, value, ttl) => {
                let mut s = keyed_json(key.as_str(), ",\"ttl\":");
                let t = format_decimal(*ttl as u64);
                s.append(t.as_str());
                s.append(",\"type\":\"put\",\"value\":\"");
                let b = base64_encode(value.as_slice());
                s.append(b.as_str());
                s.append("\"}");
                s
            },
            Command::Delete(key) => keyed_json(key.as_str(), ",\"type\":\"delete\"}"),
            Command::Peer => String::from_str("{\"type\":\"peer\"}"),
            Command::Ping => String::from_str("{\"type\":\"ping\"}"),
            Command::Stats => String::from_str("{\"type\":\"stats\"}"),
            Command::Clear => String::from_str("{\"type\":\"clear\"}"),
        };
        proof {
            assert(text@ =~= command_json(cmd@));
        }
        text_bytes(text)
    }

    /// Encodes a reply as JSON text.
    pub fn serialize_response(resp: &Response) -> (buf: Vec<u8>)
        requires
            resp matches Response::Data(d) ==> d@.len() <= usize::MAX / 2,
        ensures
            buf@ == encode_utf8(response_json(resp@)),
    {
        let text = match resp {
            Response::Data(d) => {
                let mut s = String::from_str("{\"data\":\"");
                let b = base64_encode(d.as_slice());
                s.append(b.as_str());
                s.append("\",\"status\":\"ok\"}");
                s
            },
            Response::Error(m) => {
                let mut s = String::from_str("{\"message\":");
                let q = json_quote(m.as_str());
                s.append(q.as_str());
                s.append(",\"status\":\"error\"}");
                s
            },
            Response::Pong => String::from_str("{\"status\":\"pong\"}"),
        };
        proof {
            assert(text@ =~= response_json(resp@));
        }
        text_bytes(text)
    }

    /// Decodes a JSON command: a document that does not parse is the
    /// parser's error; then the `type` decides, with `Missing key` and
    /// `Missing value` for absent string fields, the base64 decoder's error
    /// for a bad value, a `ttl` that is no `u64` taken as 0 (a larger one
    /// keeps its low 32 bits), and `Unknown command type` for any other type.
    pub fn deserialize_command(data: &[u8]) -> (r: Result<Command, String>)
        ensures
            json_command_result(data@, r),
    {
        if let Some(e) = json_check(data) {
            return Err(e);
        }
        let ty = json_text_field(data, "type");
        let ty = match ty {
            Some(t) => t,
            None => { return Err(String::from_str("Unknown command type")); },
        };
        let t = ty.as_str();
        if same_text(t, "ping") {
            return Ok(Command::Ping);
        }
        if same_text(t, "peer") {
            return Ok(Command::Peer);
        }
        if same_text(t, "stats") {
            return Ok(Command::Stats);
        }
        if same_text(t, "clear") {
            return Ok(Command::Clear);
        }
        let is_get = same_text(t, "get");
        let is_delete = same_text(t, "delete");
        let is_put = same_text(t, "put");
        if !is_get && !is_delete && !is_put {
            return Err(String::from_str("Unknown command type"));
        }
        let key = match json_text_field(data, "key") {
            Some(k) => k,
            None => { return Err(String::from_str("Missing key")); },
        };
        if is_get {
            return Ok(Command::Get(key));
        }
        if is_delete {
            return Ok(Command::Delete(key));
        }
        let value_b64 = match json_text_field(data, "value") {
            Some(v) => v,
            None => { return Err(String::from_str("Missing value")); },
        };
        let value = match base64_decode(value_b64.as_str()) {
            Ok(v) => v,
            Err(e) => { return Err(e); },
        };
        let ttl: u32 = match json_u64_field(data, "ttl") {
            Some(t) => t as u32,
            None => 0,
        };
        Ok(Command::Put(key, value, ttl))
    }

    /// Decodes a JSON reply: a document that does not parse is the parser's
    /// error; then the `status` decides, with `Missing data` and `Missing
    /// message` for absent fields, the base64 decoder's error for bad data,
    /// and `Unknown response status` for any other status.
    pub fn deserialize_response(data: &[u8]) -> (r: Result<Response, String>)
        ensures
            json_response_result(data@, r),
    {
        if let Some(e) = json_check(data) {
            return Err(e);
        }
        let st = match json_text_field(data, "status") {
            Some(s) => s,
            None => { return Err(String::from_str("Unknown response status")); },
        };
        let s = st.as_str();
        if same_text(s, "ok") {
            let b = match json_text_field(data, "data") {
                Some(b) => b,
                None => { return Err(String::from_str("Missing data")); },
            };
            match base64_decode(b.as_str()) {
                Ok(d) => Ok(Response::Data(d)),
                Err(e) => Err(e),
            }
        } else if same_text(s, "error") {
            match json_text_field(data, "message") {
                Some(m) => Ok(Response::Error(m)),
                None => Err(String::from_str("Missing message")),
            }
        } else if same_text(s, "pong") {
            Ok(Response::Pong)
        } else {
            Err(String::from_str("Unknown response status"))
        }
    }
}

impl Serializer for JsonSerializer {
    fn serialize_command(cmd: &Command) -> (buf: Vec<u8>)
        ensures
            buf@ == encode_utf8(command_json(cmd@)),
    {
        JsonSerializer::serialize_command(cmd)
    }

    fn deserialize_command(data: &[u8]) -> (r: Result<Command, String>)
        ensures
            json_command_result(data@, r),
    {
        JsonSerializer::deserialize_command(data)
    }

    fn serialize_response(resp: &Response) -> (buf: Vec<u8>)
        ensures
            buf@ == encode_utf8(response_json(resp@)),
    {
        JsonSerializer::serialize_response(resp)
    }

    fn deserialize_response(data: &[u8]) -> (r: Result<Response, String>)
        ensures
            json_response_result(data@, r),
    {
        JsonSerializer::deserialize_response(data)
    }
}

} // verus!
