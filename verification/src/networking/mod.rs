//! Peer selection and cluster membership.
pub mod consistent_hash;
pub mod discovery;
pub mod gossip;
pub mod remote_peer;

pub use self::consistent_hash::{hash_key, ConsistentHash};
pub use self::discovery::{PeerInfo, PeerRegistry, PeerStatus};
pub use self::gossip::{GossipConfig, GossipMessage, GossipMetrics, GossipState};
