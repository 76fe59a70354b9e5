//! Protocol types and the client-side interpretation of replies.
pub mod common;
pub mod tcp;

use vstd::prelude::*;
pub use self::common::{Command, CommandView, Response, ResponseView};
pub use self::tcp::Serializer;
use crate::utils::text::{decimal, format_decimal, string_from_utf8};
use crate::utils::error::{error_message, BlazeCacheError, Result};
use crate::cache::cache::CacheStats;
use vstd::string::StrSliceExecFns;
use vstd::utf8::encode_utf8;
use vstd::utf8::{decode_utf8, valid_utf8};

verus! {

/// A transport-level error: its text.
pub type TransportError = String;

/// A ping is answered by `Pong`; anything else is an error.
pub fn handle_ping_response(response: Response) -> (r: core::result::Result<(), TransportError>)
    ensures
        r is Ok <==> response is Pong,
        r matches Err(m) ==> m@ == "Invalid ping response"@,
{
    match response {
        Response::Pong => Ok(()),
        _ => Err(String::from_str("Invalid ping response")),
    }
}

/// A get reply: the data for `Ok`, an empty value for the error "Not found",
/// the server's text for any other error, and an error for `Pong`.
pub fn handle_get_response(response: Response) -> (r: core::result::Result<Vec<u8>, TransportError>)
    ensures
        match response@ {
            ResponseView::Data(d) => r matches Ok(v) && v@ == d,
            ResponseView::Error(m) => if m == "Not found"@ {
                r matches Ok(v) && v@.len() == 0
            } else {
                r matches Err(e) && e@ == m
            },
            ResponseView::Pong => r matches Err(e) && e@ == "Invalid get response"@,
        },
{
    match response {
        Response::Data(data) => Ok(data),
        Response::Error(msg) => {
            let not_found = String::from_str("Not found");
            if msg == not_found {
                Ok(Vec::new())
            } else {
                Err(msg)
            }
        },
        _ => Err(String::from_str("Invalid get response")),
    }
}

/// A put reply: success for any `Ok`, the server's text for an error,
/// and an error for `Pong`.
pub fn handle_put_response(response: Response) -> (r: core::result::Result<(), TransportError>)
    ensures
        match response@ {
            ResponseView::Data(_) => r is Ok,
            ResponseView::Error(m) => r matches Err(e) && e@ == m,
            ResponseView::Pong => r matches Err(e) && e@ == "Invalid put response"@,
        },
{
    match response {
        Response::Data(_) => Ok(()),
        Response::Error(msg) => Err(msg),
        _ => Err(String::from_str("Invalid put response")),
    }
}

/// A peer-list reply: the UTF-8 text of an `Ok` payload, the server's text
/// for an error, and an error for `Pong` or a payload that is not UTF-8.
pub fn handle_peer_response(response: Response) -> (r: core::result::Result<String, TransportError>)
    ensures
        match response@ {
            ResponseView::Data(d) => if valid_utf8(d) {
                r matches Ok(s) && s@ == decode_utf8(d)
            } else {
                r matches Err(e) && "Invalid UTF-8 in peer response: "@.is_prefix_of(e@)
            },
            ResponseView::Error(m) => r matches Err(e) && e@ == m,
            ResponseView::Pong => r matches Err(e) && e@ == "Invalid peer response"@,
        },
{
    match response {
        Response::Data(data) => match string_from_utf8(data) {
            Ok(s) => Ok(s),
            Err(e) => {
                let mut m = String::from_str("Invalid UTF-8 in peer response: ");
                m.append(e.as_str());
                Err(m)
            },
        },
        Response::Error(msg) => Err(msg),
        _ => Err(String::from_str("Invalid peer response")),
    }
}

/// A delete reply: `true` for `Ok`, `false` for the error "Not found", the
/// server's text for any other error, and an error for `Pong`.
pub fn handle_delete_response(response: Response) -> (r: core::result::Result<bool, TransportError>)
    ensures
        match response@ {
            ResponseView::Data(_) => r == Ok::<bool, TransportError>(true),
            ResponseView::Error(m) => if m == "Not found"@ {
                r == Ok::<bool, TransportError>(false)
            } else {
                r matches Err(e) && e@ == m
            },
            ResponseView::Pong => r matches Err(e) && e@ == "Invalid delete response"@,
        },
{
    match response {
        Response::Data(_) => Ok(true),
        Response::Error(msg) => {
            let not_found = String::from_str("Not found");
            if msg == not_found {
                Ok(false)
            } else {
                Err(msg)
            }
        },
        _ => Err(String::from_str("Invalid delete response")),
    }
}

/// A stats reply: the UTF-8 text of an `Ok` payload, the server's text for
/// an error, and an error for `Pong` or a payload that is not UTF-8.
pub fn handle_stats_response(response: Response) -> (r: core::result::Result<String, TransportError>)
    ensures
        match response@ {
            ResponseView::Data(d) => if valid_utf8(d) {
                r matches Ok(s) && s@ == decode_utf8(d)
            } else {
                r matches Err(e) && "Invalid UTF-8 in stats response: "@.is_prefix_of(e@)
            },
            ResponseView::Error(m) => r matches Err(e) && e@ == m,
            ResponseView::Pong => r matches Err(e) && e@ == "Invalid stats response"@,
        },
{
    match response {
        Response::Data(data) => match string_from_utf8(data) {
            Ok(s) => Ok(s),
            Err(e) => {
                let mut m = String::from_str("Invalid UTF-8 in stats response: ");
                m.append(e.as_str());
                Err(m)
            },
        },
        Response::Error(msg) => Err(msg),
        _ => Err(String::from_str("Invalid stats response")),
    }
}

/// A clear reply: success for any `Ok`, the server's text for an error, and
/// an error for `Pong`.
pub fn handle_clear_response(response: Response) -> (r: core::result::Result<(), TransportError>)
    ensures
        match response@ {
            ResponseView::Data(_) => r is Ok,
            ResponseView::Error(m) => r matches Err(e) && e@ == m,
            ResponseView::Pong => r matches Err(e) && e@ == "Invalid clear response"@,
        },
{
    match response {
        Response::Data(_) => Ok(()),
        Response::Error(msg) => Err(msg),
        _ => Err(String::from_str("Invalid clear response")),
    }
}

// ---------------------------------------------------------------------------
// The server's replies.
// ---------------------------------------------------------------------------

/// The reply to a read: the value, or an error whose text is `Not found`
/// and `Key empty` for those two errors and the error's own text otherwise.
pub fn get_reply(result: Result<Vec<u8>>) -> (resp: Response)
    ensures
        match result {
            Ok(v) => resp@ == ResponseView::Data(v@),
            Err(BlazeCacheError::KeyNotFound) => resp@ == ResponseView::Error("Not found"@),
            Err(BlazeCacheError::KeyEmpty) => resp@ == ResponseView::Error("Key empty"@),
            Err(e) => resp@ == ResponseView::Error(error_message(e)),
        },
{
    match result {
        Ok(v) => Response::Data(v),
        Err(BlazeCacheError::KeyNotFound) => Response::Error(String::from_str("Not found")),
        Err(BlazeCacheError::KeyEmpty) => Response::Error(String::from_str("Key empty")),
        Err(e) => Response::Error(e.to_string()),
    }
}

/// The reply to a write: empty data, or an error whose text is
/// `Item too large` and `Not found` for those two errors and the error's own
/// text otherwise.
pub fn put_reply(result: Result<()>) -> (resp: Response)
    ensures
        match result {
            Ok(_) => resp@ == ResponseView::Data(Seq::empty()),
            Err(BlazeCacheError::ItemTooLarge { .. }) => resp@ == ResponseView::Error("Item too large"@),
            Err(BlazeCacheError::KeyNotFound) => resp@ == ResponseView::Error("Not found"@),
            Err(e) => resp@ == ResponseView::Error(error_message(e)),
        },
{
    match result {
        Ok(_) => Response::Data(Vec::new()),
        Err(BlazeCacheError::ItemTooLarge { .. }) => Response::Error(String::from_str("Item too large")),
        Err(BlazeCacheError::KeyNotFound) => Response::Error(String::from_str("Not found")),
        Err(e) => Response::Error(e.to_string()),
    }
}

/// The reply to a delete: empty data when something was removed, the error
/// `Not found` when nothing was there, the error's own text on failure.
pub fn delete_reply(result: Result<bool>) -> (resp: Response)
    ensures
        match result {
            Ok(true) => resp@ == ResponseView::Data(Seq::empty()),
            Ok(false) => resp@ == ResponseView::Error("Not found"@),
            Err(e) => resp@ == ResponseView::Error(error_message(e)),
        },
{
    match result {
        Ok(true) => Response::Data(Vec::new()),
        Ok(false) => Response::Error(String::from_str("Not found")),
        Err(e) => Response::Error(e.to_string()),
    }
}

/// The texts joined with commas.
pub open spec fn comma_joined(s: Seq<Seq<char>>) -> Seq<char>
    decreases s.len(),
{
    if s.len() == 0 {
        Seq::empty()
    } else if s.len() == 1 {
        s[0]
    } else {
        comma_joined(s.drop_last()) + ","@ + s.last()
    }
}

/// The reply to a peer request: the peers' addresses joined with commas,
/// as UTF-8.
pub fn peers_reply(peers: &Vec<String>) -> (resp: Response)
    ensures
        resp@ == ResponseView::Data(encode_utf8(comma_joined(peers@.map_values(|p: String| p@)))),
{
    let ghost views = peers@.map_values(|p: String| p@);
    let mut text = String::new();
    let mut i: usize = 0;
    while i < peers.len()
        invariant
            i <= peers@.len(),
            views == peers@.map_values(|p: String| p@),
            text@ == comma_joined(views.subrange(0, i as int)),
        decreases peers@.len() - i,
    {
        proof {
            assert(views.subrange(0, i + 1).drop_last() =~= views.subrange(0, i as int));
            assert(views.subrange(0, i + 1).last() == peers@[i as int]@);
            if i == 0 {
                assert(views.subrange(0, 1)[0] == peers@[0]@);
            }
        }
        if i > 0 {
            text.append(",");
        }
        text.append(peers[i].as_str());
        i = i + 1;
    }
    proof {
        assert(views.subrange(0, peers@.len() as int) =~= views);
    }
    Response::Data(text.as_str().as_bytes_vec())
}

/// The statistics as the server reports them: a JSON object of the ten
/// counters, in a fixed order.
pub open spec fn stats_json(s: CacheStats) -> Seq<char> {
    "{\"hits\":"@ + decimal(s.hits as nat) + ",\"misses\":"@ + decimal(s.misses as nat) + ",\"puts\":"@
        + decimal(s.puts as nat) + ",\"deletes\":"@ + decimal(s.deletes as nat) + ",\"evictions\":"@
        + decimal(s.evictions as nat) + ",\"hot_items\":"@ + decimal(s.hot_items as nat) + ",\"rejected_items\":"@
        + decimal(s.rejected_items as nat) + ",\"ttl_evictions\":"@ + decimal(s.ttl_evictions as nat)
        + ",\"entry_count\":"@ + decimal(s.entry_count as nat) + ",\"memory_usage\":"@
        + decimal(s.memory_usage as nat) + "}"@
}

fn append_field(text: &mut String, name: &str, value: u64)
    ensures
        final(text)@ == old(text)@ + name@ + decimal(value as nat),
{
    text.append(name);
    let d = format_decimal(value);
    text.append(d.as_str());
}

/// The reply to a statistics request: [`stats_json`] as UTF-8.
pub fn stats_reply(stats: &CacheStats) -> (resp: Response)
    ensures
        resp@ == ResponseView::Data(encode_utf8(stats_json(*stats))),
{
    let mut text = String::new();
    append_field(&mut text, "{\"hits\":", stats.hits);
    append_field(&mut text, ",\"misses\":", stats.misses);
    append_field(&mut text, ",\"puts\":", stats.puts);
    append_field(&mut text, ",\"deletes\":", stats.deletes);
    append_field(&mut text, ",\"evictions\":", stats.evictions);
    append_field(&mut text, ",\"hot_items\":", stats.hot_items);
    append_field(&mut text, ",\"rejected_items\":", stats.rejected_items);
    append_field(&mut text, ",\"ttl_evictions\":", stats.ttl_evictions);
    append_field(&mut text, ",\"entry_count\":", stats.entry_count as u64);
    append_field(&mut text, ",\"memory_usage\":", stats.memory_usage as u64);
    text.append("}");
    proof {
        assert(text@ =~= stats_json(*stats));
    }
    Response::Data(text.as_str().as_bytes_vec())
}

/// The reply to a ping.
pub fn ping_reply() -> (resp: Response)
    ensures
        resp@ == ResponseView::Pong,
{
    Response::Pong
}

/// The reply to a clear: empty data.
pub fn clear_reply() -> (resp: Response)
    ensures
        resp@ == ResponseView::Data(Seq::empty()),
{
    Response::Data(Vec::new())
}

} // verus!
