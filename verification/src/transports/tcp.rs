//! The encoding a stream transport uses for its messages.
use vstd::prelude::*;
use crate::transports::common::{Command, Response};

verus! {

/// An encoding of commands and replies; a decoding failure is its text.
/// A value to encode is at most half the address space, as every value
/// held in memory is.
pub trait Serializer {
    /// Encodes a command.
    fn serialize_command(cmd: &Command) -> Vec<u8>
        requires
            cmd matches Command::Put(_, v, _) ==> v@.len() <= usize::MAX / 2,
    ;

    /// Decodes a command.
    fn deserialize_command(data: &[u8]) -> Result<Command, String>;

    /// Encodes a reply.
    fn serialize_response(resp: &Response) -> Vec<u8>
        requires
            resp matches Response::Data(d) ==> d@.len() <= usize::MAX / 2,
    ;

    /// Decodes a reply.
    fn deserialize_response(data: &[u8]) -> Result<Response, String>;
}

} // verus!
