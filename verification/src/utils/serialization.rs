//! Messages of value replication between nodes. Their CBOR encoding is
//! done where they are sent.
use vstd::prelude::*;

verus! {

/// A value read for another node.
#[derive(Debug, Clone)]
pub struct BinaryGetResponse {
    pub value: Vec<u8>,
}

/// A value another node asks to replicate.
#[derive(Debug, Clone)]
pub struct BinaryReplicateRequest {
    pub group: String,
    pub key: String,
    pub value: Vec<u8>,
}

} // verus!
