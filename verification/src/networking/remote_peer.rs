//! How a node talks to the peer that owns a key: the retry decisions of a
//! request and the reading of the peer's replies.
use vstd::prelude::*;
use crate::serializers::binary::{decode_response, BinarySerializer, DecodeError};
use crate::transports::common::{Response, ResponseView};
use crate::utils::error::{BlazeCacheError, Result};

verus! {

/// A peer's reply to a read: the data, or its error text as a peer error.
pub fn peer_get_result(resp: Response) -> (r: Result<Vec<u8>>)
    ensures
        match resp@ {
            ResponseView::Data(d) => r matches Ok(v) && v@ == d,
            ResponseView::Error(m) => r matches Err(BlazeCacheError::PeerError(e)) && e@ == m,
            ResponseView::Pong => r matches Err(BlazeCacheError::PeerError(e)) && e@ == "Invalid get response"@,
        },
{
    match resp {
        Response::Data(d) => Ok(d),
        Response::Error(m) => Err(BlazeCacheError::PeerError(m)),
        Response::Pong => Err(BlazeCacheError::PeerError(String::from_str("Invalid get response"))),
    }
}

/// A peer's reply to a delete: success, `KeyNotFound` for the error
/// `Not found`, and any other error text as a peer error.
pub fn peer_delete_result(resp: Response) -> (r: Result<()>)
    ensures
        match resp@ {
            ResponseView::Data(_) => r is Ok,
            ResponseView::Error(m) => if m == "Not found"@ {
                r == Err::<(), BlazeCacheError>(BlazeCacheError::KeyNotFound)
            } else {
                r matches Err(BlazeCacheError::PeerError(e)) && e@ == m
            },
            ResponseView::Pong => r matches Err(BlazeCacheError::PeerError(e)) && e@ == "Invalid get response"@,
        },
{
    match resp {
        Response::Data(_) => Ok(()),
        Response::Error(m) => {
            if crate::utils::text::same_text(m.as_str(), "Not found") {
                Err(BlazeCacheError::KeyNotFound)
            } else {
                Err(BlazeCacheError::PeerError(m))
            }
        },
        Response::Pong => Err(BlazeCacheError::PeerError(String::from_str("Invalid get response"))),
    }
}

/// A peer's reply to a write or a clear: success, or its error text as a
/// peer error; `invalid` names the error for any other reply.
pub fn peer_ack_result(resp: Response, invalid: &str) -> (r: Result<()>)
    ensures
        match resp@ {
            ResponseView::Data(_) => r is Ok,
            ResponseView::Error(m) => r matches Err(BlazeCacheError::PeerError(e)) && e@ == m,
            ResponseView::Pong => r matches Err(BlazeCacheError::PeerError(e)) && e@ == invalid@,
        },
{
    match resp {
        Response::Data(_) => Ok(()),
        Response::Error(m) => Err(BlazeCacheError::PeerError(m)),
        Response::Pong => Err(BlazeCacheError::PeerError(String::from_str(invalid))),
    }
}

/// How many times a request to a peer is tried over a connection that
/// breaks.
pub const SEND_ATTEMPTS: u32 = 2;

/// What one attempt to send a request to a peer came to, once connected.
pub enum SendEvent {
    /// The peer answered with these bytes.
    Replied(Vec<u8>),
    /// The peer closed the connection without answering.
    Closed,
    /// Writing or reading failed, with the I/O error's text.
    Failed(String),
}

/// What to do after an attempt.
pub enum SendStep {
    /// The request is over, with this result; the connection is dropped
    /// unless the peer answered.
    Done(Result<Response>),
    /// Drop the connection and try again.
    Retry,
}

/// Decides what follows attempt number `attempt` (from 0): an answer is
/// decoded (a malformed one is a peer error with the decoder's text); a
/// broken connection is tried again once, and the second failure is the
/// result: `connection closed` as a peer error, or the I/O error.
pub fn after_attempt(attempt: u32, event: SendEvent) -> (step: SendStep)
    requires
        attempt < SEND_ATTEMPTS,
    ensures
        match event {
            SendEvent::Replied(d) => match decode_response(d@) {
                Ok(v) => step matches SendStep::Done(Ok(x)) && x@ == v,
                Err(DecodeError::Message(m)) => step matches SendStep::Done(Err(BlazeCacheError::PeerError(e))) && e@ == m,
                Err(DecodeError::InvalidUtf8) => step matches SendStep::Done(Err(BlazeCacheError::PeerError(_))),
            },
            SendEvent::Closed => if attempt + 1 < SEND_ATTEMPTS {
                step is Retry
            } else {
                step matches SendStep::Done(Err(BlazeCacheError::PeerError(e))) && e@ == "connection closed"@
            },
            SendEvent::Failed(m) => if attempt + 1 < SEND_ATTEMPTS {
                step is Retry
            } else {
                step matches SendStep::Done(Err(BlazeCacheError::IoError(e))) && e == m
            },
        },
{
    match event {
        SendEvent::Replied(d) => match BinarySerializer::deserialize_response(d.as_slice()) {
            Ok(x) => SendStep::Done(Ok(x)),
            Err(e) => SendStep::Done(Err(BlazeCacheError::PeerError(e))),
        },
        SendEvent::Closed => if attempt + 1 < SEND_ATTEMPTS {
            SendStep::Retry
        } else {
            SendStep::Done(Err(BlazeCacheError::PeerError(String::from_str("connection closed"))))
        },
        SendEvent::Failed(m) => if attempt + 1 < SEND_ATTEMPTS {
            SendStep::Retry
        } else {
            SendStep::Done(Err(BlazeCacheError::IoError(m)))
        },
    }
}

} // verus!
