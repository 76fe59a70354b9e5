//! The library's error type.
use vstd::prelude::*;
use crate::utils::text::{decimal, format_decimal};

verus! {

/// Errors reported by the cache, the protocol and the cluster layer.
///
/// Where an error carries text from an outside layer (I/O, serialisation),
/// it is held as a `String`.
#[derive(Debug, Clone, PartialEq, Eq)]
pub enum BlazeCacheError {
    GetterFailed(String),
    NetworkError(String),
    SerializationError(String),
    CompressionError(String),
    ItemTooLarge { item_size: usize, max_size: usize },
    KeyEmpty,
    KeyNotFound,
    CacheFull,
    Timeout,
    InvalidConfig,
    PeerError(String),
    IoError(String),
}

/// Result type used throughout the library.
pub type Result<T> = core::result::Result<T, BlazeCacheError>;

/// The human-readable text of an error.
pub open spec fn error_message(e: BlazeCacheError) -> Seq<char> {
    match e {
        BlazeCacheError::GetterFailed(m) => "Getter failed: "@ + m@,
        BlazeCacheError::NetworkError(m) => "Network error: "@ + m@,
        BlazeCacheError::SerializationError(m) => "Serialization error: "@ + m@,
        BlazeCacheError::CompressionError(m) => "Compression error: "@ + m@,
        BlazeCacheError::ItemTooLarge { item_size, max_size } =>
            "Item too large: "@ + decimal(item_size as nat) + " bytes exceeds cache limit of "@
                + decimal(max_size as nat) + " bytes"@,
        BlazeCacheError::KeyEmpty => "Key is empty"@,
        BlazeCacheError::KeyNotFound => "Key not found"@,
        BlazeCacheError::CacheFull => "Cache is full"@,
        BlazeCacheError::Timeout => "Operation timed out"@,
        BlazeCacheError::InvalidConfig => "Invalid configuration"@,
        BlazeCacheError::PeerError(m) => "Peer error: "@ + m@,
        BlazeCacheError::IoError(m) => "I/O error: "@ + m@,
    }
}

fn prefixed(prefix: &str, m: &String) -> (s: String)
    ensures
        s@ == prefix@ + m@,
{
    let mut s = String::from_str(prefix);
    s.append(m.as_str());
    s
}

impl BlazeCacheError {
    /// The error's text, as the error's display form.
    pub fn to_string(&self) -> (s: String)
        ensures
            s@ == error_message(*self),
    {
        match self {
            BlazeCacheError::GetterFailed(m) => prefixed("Getter failed: ", m),
            BlazeCacheError::NetworkError(m) => prefixed("Network error: ", m),
            BlazeCacheError::SerializationError(m) => prefixed("Serialization error: ", m),
            BlazeCacheError::CompressionError(m) => prefixed("Compression error: ", m),
            BlazeCacheError::ItemTooLarge { item_size, max_size } => {
                let mut s = String::from_str("Item too large: ");
                let a = format_decimal(*item_size as u64);
                s.append(a.as_str());
                s.append(" bytes exceeds cache limit of ");
                let b = format_decimal(*max_size as u64);
                s.append(b.as_str());
                s.append(" bytes");
                s
            },
            BlazeCacheError::KeyEmpty => String::from_str("Key is empty"),
            BlazeCacheError::KeyNotFound => String::from_str("Key not found"),
            BlazeCacheError::CacheFull => String::from_str("Cache is full"),
            BlazeCacheError::Timeout => String::from_str("Operation timed out"),
            BlazeCacheError::InvalidConfig => String::from_str("Invalid configuration"),
            BlazeCacheError::PeerError(m) => prefixed("Peer error: ", m),
            BlazeCacheError::IoError(m) => prefixed("I/O error: ", m),
        }
    }

    /// The underlying cause: the I/O error's text for `IoError`, nothing otherwise.
    pub fn source(&self) -> (r: Option<&String>)
        ensures
            r matches Some(m) <==> self is IoError,
            r matches Some(m) ==> *self == BlazeCacheError::IoError(*m),
    {
        match self {
            BlazeCacheError::IoError(m) => Some(m),
            _ => None,
        }
    }
}

#[verifier::external_type_specification]
#[verifier::external_body]
pub struct ExIoError(std::io::Error);

/// The display text of an I/O error.
///
/// Trusted, with nothing stated of the text.
#[verifier::external_body]
fn io_error_text(e: &std::io::Error) -> String {
    e.to_string()
}

impl From<std::io::Error> for BlazeCacheError {
    /// An I/O error becomes `IoError` with its text.
    fn from(e: std::io::Error) -> (r: Self)
        ensures
            r is IoError,
    {
        BlazeCacheError::IoError(io_error_text(&e))
    }
}

impl vstd::std_specs::convert::FromSpecImpl<std::io::Error> for BlazeCacheError {
    open spec fn obeys_from_spec() -> bool {
        false
    }

    open spec fn from_spec(v: std::io::Error) -> Self {
        BlazeCacheError::IoError(vstd::pervasive::arbitrary())
    }
}

#[verifier::external_type_specification]
#[verifier::external_body]
pub struct ExJsonError(serde_json::Error);

#[verifier::external_type_specification]
#[verifier::external_body]
#[verifier::reject_recursive_types(T)]
pub struct ExCborDecodeError<T>(ciborium::de::Error<T>);

#[verifier::external_type_specification]
#[verifier::external_body]
#[verifier::reject_recursive_types(T)]
pub struct ExCborEncodeError<T>(ciborium::ser::Error<T>);

/// The display text of a `serde_json` error.
///
/// Trusted, with nothing stated of the text.
#[verifier::external_body]
fn json_error_text(e: &serde_json::Error) -> String {
    e.to_string()
}

/// The display text of a `ciborium` decoding error.
///
/// Trusted, with nothing stated of the text.
#[verifier::external_body]
fn cbor_decode_error_text(e: &ciborium::de::Error<std::io::Error>) -> String {
    e.to_string()
}

/// The display text of a `ciborium` encoding error.
///
/// Trusted, with nothing stated of the text.
#[verifier::external_body]
fn cbor_encode_error_text(e: &ciborium::ser::Error<std::io::Error>) -> String {
    e.to_string()
}

impl From<serde_json::Error> for BlazeCacheError {
    /// A JSON error becomes `SerializationError` with its text.
    fn from(e: serde_json::Error) -> (r: Self)
        ensures
            r is SerializationError,
    {
        BlazeCacheError::SerializationError(json_error_text(&e))
    }
}

impl vstd::std_specs::convert::FromSpecImpl<serde_json::Error> for BlazeCacheError {
    open spec fn obeys_from_spec() -> bool {
        false
    }

    open spec fn from_spec(v: serde_json::Error) -> Self {
        BlazeCacheError::SerializationError(vstd::pervasive::arbitrary())
    }
}

impl From<ciborium::de::Error<std::io::Error>> for BlazeCacheError {
    /// A CBOR decoding error becomes `SerializationError` with its text.
    fn from(e: ciborium::de::Error<std::io::Error>) -> (r: Self)
        ensures
            r is SerializationError,
    {
        BlazeCacheError::SerializationError(cbor_decode_error_text(&e))
    }
}

impl vstd::std_specs::convert::FromSpecImpl<ciborium::de::Error<std::io::Error>> for BlazeCacheError {
    open spec fn obeys_from_spec() -> bool {
        false
    }

    open spec fn from_spec(v: ciborium::de::Error<std::io::Error>) -> Self {
        BlazeCacheError::SerializationError(vstd::pervasive::arbitrary())
    }
}

impl From<ciborium::ser::Error<std::io::Error>> for BlazeCacheError {
    /// A CBOR encoding error becomes `SerializationError` with its text.
    fn from(e: ciborium::ser::Error<std::io::Error>) -> (r: Self)
        ensures
            r is SerializationError,
    {
        BlazeCacheError::SerializationError(cbor_encode_error_text(&e))
    }
}

impl vstd::std_specs::convert::FromSpecImpl<ciborium::ser::Error<std::io::Error>> for BlazeCacheError {
    open spec fn obeys_from_spec() -> bool {
        false
    }

    open spec fn from_spec(v: ciborium::ser::Error<std::io::Error>) -> Self {
        BlazeCacheError::SerializationError(vstd::pervasive::arbitrary())
    }
}

} // verus!
