//! Wire encodings of the protocol.
pub mod binary;
pub mod json;

pub use self::binary::BinarySerializer;
pub use self::json::JsonSerializer;
