//! BlazeCache: a size-bounded LRU cache with a compact binary wire protocol,
//! consistent hashing for peer selection and gossip-based membership.
pub mod utils;
pub mod cache;
pub mod transports;
pub mod serializers;
pub mod networking;
pub mod client;
pub mod perf;

