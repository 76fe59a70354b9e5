use blazecache::networking::remote_peer::{after_attempt, SendEvent, SendStep};
use blazecache::transports::common::Response;
use blazecache::utils::error::BlazeCacheError;
use blazecache::networking::consistent_hash::ConsistentHash;
use blazecache::networking::discovery::{PeerInfo, PeerRegistry, PeerStatus};
use blazecache::networking::gossip::{
    broadcast_targets, text_lt, GossipConfig, GossipMessage, GossipMetrics, GossipState, RoundPlan,
};
use blazecache::networking::hash_key;
use std::time::Duration;

fn peer(id: &str, status: PeerStatus) -> PeerInfo {
    PeerInfo {
        id: id.to_string(),
        address: "127.0.0.1".to_string(),
        port: 6784,
        protocol: "tcp".to_string(),
        status,
        last_seen: 0,
    }
}

#[test]
fn test_consistent_hash_new() {
    let hash = ConsistentHash::<String>::new(50);
    assert_eq!(hash.replicas(), 50);
    assert_eq!(hash.peer_count(), 0);
    assert_eq!(hash.ring_size(), 0);
}

#[test]
fn test_consistent_hash_add_peer() {
    let mut hash = ConsistentHash::new(3);
    hash.add_peer("peer1".to_string(), "peer1");
    hash.finalize();
    assert_eq!(hash.peer_count(), 1);
    assert_eq!(hash.ring_size(), 3);
}

#[test]
fn test_consistent_hash_multiple_peers() {
    let mut hash = ConsistentHash::new(2);
    hash.add_peer("peer1".to_string(), "peer1");
    hash.add_peer("peer2".to_string(), "peer2");
    hash.finalize();
    assert_eq!(hash.peer_count(), 2);
    assert_eq!(hash.ring_size(), 4);
}

#[test]
fn test_consistent_hash_pick_peer_empty() {
    let hash = ConsistentHash::<String>::new(50);
    assert!(hash.pick_peer("any-key").is_none());
}

#[test]
fn test_consistent_hash_pick_peer_single() {
    let mut hash = ConsistentHash::new(3);
    hash.add_peer("peer1".to_string(), "peer1");
    hash.finalize();
    let picked = hash.pick_peer("test-key");
    assert!(picked.is_some());
}

#[test]
fn test_consistent_hash_same_key_same_peer() {
    let mut hash = ConsistentHash::new(50);
    hash.add_peer("peer1".to_string(), "peer1");
    hash.add_peer("peer2".to_string(), "peer2");
    hash.finalize();
    let peer_first = hash.pick_peer("consistent-key");
    let peer_second = hash.pick_peer("consistent-key");
    assert!(peer_first.is_some());
    assert!(peer_second.is_some());
    assert_eq!(peer_first, peer_second);
}

#[test]
fn test_consistent_hash_remove_peer() {
    let mut hash = ConsistentHash::new(3);
    hash.add_peer("peer1".to_string(), "peer1");
    hash.finalize();
    assert_eq!(hash.ring_size(), 3);
    hash.remove_peer("peer1");
    assert_eq!(hash.ring_size(), 0);
}

#[test]
fn test_consistent_hash_hash_function() {
    let hash = ConsistentHash::<String>::new(1);
    let hash1 = hash.hash("test-key");
    let hash2 = hash.hash("test-key");
    assert_eq!(hash1, hash2);
    let hash3 = hash.hash("different-key");
    assert_ne!(hash1, hash3);
}

#[test]
fn test_consistent_hash_zero_replicas() {
    let mut hash = ConsistentHash::new(0);
    hash.add_peer("peer1".to_string(), "peer1");
    hash.finalize();
    assert_eq!(hash.peer_count(), 1);
    assert_eq!(hash.ring_size(), 0);
    assert!(hash.pick_peer("any-key").is_none());
}

#[test]
fn consistent_hash_peers_are_listed_in_order() {
    let mut hash = ConsistentHash::new(4);
    hash.add_peer("a".to_string(), "a");
    hash.add_peer("b".to_string(), "b");
    hash.finalize();
    assert_eq!(hash.get_all_peers(), vec!["a".to_string(), "b".to_string()]);
    hash.remove_peer("a");
    assert_eq!(hash.get_all_peers(), vec!["b".to_string()]);
    assert_eq!(hash.ring_size(), 4);
    assert_eq!(hash.pick_peer("anything"), Some(&"b".to_string()));
}

#[test]
fn hash_key_is_deterministic() {
    assert_eq!(hash_key("abc"), hash_key("abc"));
    assert_ne!(hash_key("abc"), hash_key("abd"));
}

#[test]
fn hash_key_is_the_ring_fnv_hash() {
    assert_eq!(hash_key(""), 12638352127299873646);
    assert_eq!(hash_key("a"), 620310408636712809);
    assert_eq!(hash_key("user:123"), 4030698300335698309);
    let ring = ConsistentHash::<String>::new(3);
    assert_eq!(hash_key("user:123"), ring.hash("user:123"));
}

#[test]
fn test_peer_registry_operations() {
    let mut registry = PeerRegistry::new();
    registry.add_peer(peer("peer1", PeerStatus::Active)).unwrap();
    let peers = registry.list_peers();
    assert_eq!(peers.len(), 1);
    assert_eq!(peers[0].id, "peer1");
    let removed = registry.remove_peer("peer1").unwrap();
    assert!(removed);
    assert_eq!(registry.list_peers().len(), 0);
    assert!(!registry.remove_peer("peer1").unwrap());
}

#[test]
fn registry_replaces_peer_of_a_known_identifier() {
    let mut registry = PeerRegistry::new();
    registry.add_peer(peer("p", PeerStatus::Active)).unwrap();
    registry.add_peer(peer("q", PeerStatus::Active)).unwrap();
    let mut other = peer("p", PeerStatus::Inactive);
    other.port = 1;
    other.last_seen = 42;
    registry.add_peer(other).unwrap();
    let peers = registry.list_peers();
    assert_eq!(peers.len(), 2);
    assert_eq!(peers[0].id, "p");
    assert_eq!(peers[0].port, 1);
    assert_eq!(peers[0].status, PeerStatus::Inactive);
    assert_eq!(peers[0].last_seen, 42);
    assert_eq!(peers[1].id, "q");
}

#[test]
fn registry_status_updates_and_active_filter() {
    let mut registry = PeerRegistry::new();
    registry.add_peer(peer("a", PeerStatus::Active)).unwrap();
    registry.add_peer(peer("b", PeerStatus::Active)).unwrap();
    registry.update_peer_status_at("a", PeerStatus::Unreachable, 42).unwrap();
    let active = registry.get_active_peers();
    assert_eq!(active.len(), 1);
    assert_eq!(active[0].id, "b");
    let all = registry.list_peers();
    assert_eq!(all[0].status, PeerStatus::Unreachable);
    assert_eq!(all[0].last_seen, 42);
    assert!(registry.contains("a"));
    assert!(!registry.contains("c"));
    assert_eq!(registry.health_check_interval(), Duration::from_secs(30));
}

#[test]
fn registry_health_helpers() {
    assert_eq!(PeerRegistry::health_url(&peer("x", PeerStatus::Active)), "http://127.0.0.1:6784/health");
    assert_eq!(PeerRegistry::health_status(true), PeerStatus::Active);
    assert_eq!(PeerRegistry::health_status(false), PeerStatus::Unreachable);
}

#[test]
fn test_gossip_config_default() {
    let config = GossipConfig::default();
    assert_eq!(config.gossip_interval, Duration::from_secs(1));
    assert_eq!(config.fanout, 3);
    assert_eq!(config.failure_timeout, Duration::from_secs(30));
    assert_eq!(config.suspicion_timeout, Duration::from_secs(15));
    assert_eq!(config.failure_check_interval, Duration::from_secs(5));
    assert_eq!(config.gossip_port, 6785);
}

#[test]
fn test_gossip_metrics() {
    let metrics = GossipMetrics::default();
    assert_eq!(metrics.membership_sent, 0);
    assert_eq!(metrics.membership_received, 0);
    assert_eq!(metrics.peers_discovered, 0);
    assert_eq!(metrics.peers_failed, 0);
    assert_eq!(metrics.gossip_rounds, 0);
}

#[test]
fn gossip_state_registers_itself() {
    let state = GossipState::new(peer("local", PeerStatus::Active), PeerRegistry::new(), GossipConfig::default());
    let peers = state.registry().list_peers();
    assert_eq!(peers.len(), 1);
    assert_eq!(peers[0].id, "local");
}

#[test]
fn gossip_membership_merges_new_members() {
    let mut state = GossipState::new(peer("local", PeerStatus::Active), PeerRegistry::new(), GossipConfig::default());
    let members = vec![peer("local", PeerStatus::Active), peer("a", PeerStatus::Active), peer("b", PeerStatus::Active)];
    state.on_membership(peer("s", PeerStatus::Active), members.clone(), 100);
    let ids: Vec<String> = state.registry().list_peers().into_iter().map(|p| p.id).collect();
    assert_eq!(ids, vec!["local", "a", "b", "s"]);
    let m = state.get_metrics();
    assert_eq!(m.membership_received, 1);
    assert_eq!(m.peers_discovered, 3);
    state.on_membership(peer("s", PeerStatus::Active), members, 101);
    let m = state.get_metrics();
    assert_eq!(m.membership_received, 2);
    assert_eq!(m.peers_discovered, 3);
}

#[test]
fn gossip_membership_replaces_known_members() {
    let mut state = GossipState::new(peer("local", PeerStatus::Active), PeerRegistry::new(), GossipConfig::default());
    state.on_membership(peer("s", PeerStatus::Active), vec![peer("a", PeerStatus::Active)], 100);
    let mut a = peer("a", PeerStatus::Inactive);
    a.port = 7000;
    state.on_membership(peer("s", PeerStatus::Active), vec![a], 101);
    let peers = state.registry().list_peers();
    let ids: Vec<String> = peers.iter().map(|p| p.id.clone()).collect();
    assert_eq!(ids, vec!["local", "a", "s"]);
    assert_eq!(peers[1].port, 7000);
    assert_eq!(peers[1].status, PeerStatus::Inactive);
    assert_eq!(state.get_metrics().peers_discovered, 2);
}

#[test]
fn gossip_ping_is_answered_with_pong() {
    let mut state = GossipState::new(peer("local", PeerStatus::Active), PeerRegistry::new(), GossipConfig::default());
    match state.on_ping(&peer("x", PeerStatus::Active), 5) {
        GossipMessage::Pong { sender, ping_seq } => {
            assert_eq!(sender.id, "local");
            assert_eq!(ping_seq, 0);
        }
        _ => panic!("Expected Pong"),
    }
    state.on_pong(&peer("x", PeerStatus::Active), 6);
    assert_eq!(state.get_metrics().pong_received, 1);
}

#[test]
fn gossip_failure_check_marks_silent_peers() {
    let mut state = GossipState::new(peer("local", PeerStatus::Active), PeerRegistry::new(), GossipConfig::default());
    state.on_membership(peer("s", PeerStatus::Active), vec![peer("a", PeerStatus::Active)], 1000);
    // 20 s of silence: past suspicion (15 s), not failure (30 s)
    state.check_failures_at(1020);
    let peers = state.registry().list_peers();
    assert_eq!(peers[0].status, PeerStatus::Active);
    assert_eq!(peers[1].status, PeerStatus::Inactive);
    assert_eq!(peers[1].last_seen, 1020);
    // 40 s of silence: unreachable
    state.check_failures_at(1040);
    let peers = state.registry().list_peers();
    assert_eq!(peers[1].status, PeerStatus::Unreachable);
    assert_eq!(peers[2].status, PeerStatus::Unreachable);
    assert_eq!(state.get_metrics().peers_failed, 2);
    // heard again: active
    state.on_pong(&peer("a", PeerStatus::Active), 1041);
    state.check_failures_at(1042);
    assert_eq!(state.registry().list_peers()[1].status, PeerStatus::Active);
}

#[test]
fn gossip_round_targets_up_to_fanout_peers() {
    let mut state = GossipState::new(peer("local", PeerStatus::Active), PeerRegistry::new(), GossipConfig::default());
    let members: Vec<PeerInfo> = (0..5).map(|i| peer(&format!("p{}", i), PeerStatus::Active)).collect();
    state.on_membership(peer("p0", PeerStatus::Active), members, 1);
    let candidates = state.gossip_candidates();
    assert_eq!(candidates.len(), 5);
    match state.plan_round() {
        RoundPlan::Targeted { message, peers } => {
            assert_eq!(peers.len(), 3);
            let mut ids: Vec<String> = peers.iter().map(|p| p.id.clone()).collect();
            ids.sort();
            ids.dedup();
            assert_eq!(ids.len(), 3);
            assert!(ids.iter().all(|id| id.starts_with('p')));
            match message {
                GossipMessage::Membership { sender, members, seq } => {
                    assert_eq!(sender.id, "local");
                    assert_eq!(members.len(), 6);
                    assert_eq!(seq, 1);
                }
                _ => panic!("Expected Membership"),
            }
        }
        RoundPlan::Broadcast { .. } => panic!("Expected a targeted round"),
    }
    state.end_round(3);
    assert_eq!(state.get_metrics().membership_sent, 3);
    assert_eq!(state.get_metrics().gossip_rounds, 1);
}

#[test]
fn gossip_round_follows_the_given_order() {
    let mut state = GossipState::new(peer("local", PeerStatus::Active), PeerRegistry::new(), GossipConfig::default());
    let members: Vec<PeerInfo> = (0..5).map(|i| peer(&format!("p{}", i), PeerStatus::Active)).collect();
    state.on_membership(peer("p0", PeerStatus::Active), members, 1);
    let candidates = state.gossip_candidates();
    let expected: Vec<String> = [4usize, 0, 2].iter().map(|&i| candidates[i].id.clone()).collect();
    match state.begin_round(candidates, vec![4, 0, 2, 1, 3]) {
        RoundPlan::Targeted { peers, .. } => {
            let ids: Vec<String> = peers.iter().map(|p| p.id.clone()).collect();
            assert_eq!(ids, expected);
        }
        RoundPlan::Broadcast { .. } => panic!("Expected a targeted round"),
    }
}

#[test]
fn gossip_round_without_peers_broadcasts() {
    let mut state = GossipState::new(peer("local", PeerStatus::Active), PeerRegistry::new(), GossipConfig::default());
    match state.begin_round(Vec::new(), Vec::new()) {
        RoundPlan::Broadcast { targets, .. } => {
            assert_eq!(
                targets,
                vec!["127.0.0.255:6785".to_string(), "127.0.255.255:6785".to_string(), "255.255.255.255:6785".to_string()]
            );
        }
        RoundPlan::Targeted { .. } => panic!("Expected a broadcast"),
    }
    state.end_broadcast(false);
    assert_eq!(state.get_metrics().gossip_rounds, 0);
    state.end_broadcast(true);
    assert_eq!(state.get_metrics().gossip_rounds, 1);
}

#[test]
fn broadcast_targets_without_ipv4_address() {
    assert_eq!(broadcast_targets("node.local", 7000), vec!["255.255.255.255:7000".to_string()]);
    assert_eq!(
        broadcast_targets("255.255.255.1", 1),
        vec!["255.255.255.255:1".to_string()]
    );
}

#[test]
fn broadcast_targets_follow_dot_decimal_addresses() {
    assert_eq!(
        broadcast_targets("10.1.2.3", 9),
        vec!["10.1.2.255:9".to_string(), "10.1.255.255:9".to_string(), "255.255.255.255:9".to_string()]
    );
    for bad in ["010.1.2.3", "256.1.2.3", "1.2.3", "1.2.3.4.", "1..2.3", "1.2.3.4 ", "0x1.2.3.4", ""] {
        assert_eq!(broadcast_targets(bad, 9), vec!["255.255.255.255:9".to_string()], "{}", bad);
    }
    assert_eq!(
        broadcast_targets("0.0.0.0", 9),
        vec!["0.0.0.255:9".to_string(), "0.0.255.255:9".to_string(), "255.255.255.255:9".to_string()]
    );
}

#[test]
fn text_order_is_character_order() {
    assert!(text_lt("a", "b"));
    assert!(text_lt("ab", "abc"));
    assert!(!text_lt("abc", "ab"));
    assert!(!text_lt("x", "x"));
}

#[test]
fn test_consistent_hash_pick_peer_distribution() {
    let mut hash = ConsistentHash::new(50);
    hash.add_peer("peer1".to_string(), "peer1");
    hash.add_peer("peer2".to_string(), "peer2");
    hash.add_peer("peer3".to_string(), "peer3");
    hash.finalize();
    let mut peer_counts = std::collections::HashMap::new();
    for i in 0..100 {
        let key = format!("key-{}", i);
        if let Some(_peer) = hash.pick_peer(&key) {
            *peer_counts.entry("selected").or_insert(0) += 1;
        }
    }
    assert_eq!(peer_counts.get("selected"), Some(&100));
}

#[test]
fn removing_a_peer_moves_only_its_keys() {
    let mut hash = ConsistentHash::new(50);
    for id in ["peer1", "peer2", "peer3"] {
        hash.add_peer(id.to_string(), id);
    }
    hash.finalize();
    let before: Vec<String> = (0..200).map(|i| hash.pick_peer(&format!("key-{}", i)).unwrap().clone()).collect();
    hash.remove_peer("peer2");
    for (i, owner) in before.iter().enumerate() {
        let now = hash.pick_peer(&format!("key-{}", i)).unwrap();
        if owner != "peer2" {
            assert_eq!(now, owner);
        } else {
            assert_ne!(now, "peer2");
        }
    }
}

#[test]
fn adding_a_peer_moves_keys_only_to_it() {
    let mut hash = ConsistentHash::new(50);
    hash.add_peer("peer1".to_string(), "peer1");
    hash.add_peer("peer2".to_string(), "peer2");
    hash.finalize();
    let before: Vec<String> = (0..200).map(|i| hash.pick_peer(&format!("key-{}", i)).unwrap().clone()).collect();
    hash.add_peer("peer3".to_string(), "peer3");
    hash.finalize();
    let mut moved = 0;
    for (i, owner) in before.iter().enumerate() {
        let now = hash.pick_peer(&format!("key-{}", i)).unwrap();
        if now != owner {
            assert_eq!(now, "peer3");
            moved += 1;
        }
    }
    assert!(moved > 0);
}

#[test]
fn registry_status_update_now() {
    let mut registry = PeerRegistry::new();
    assert_eq!(registry.health_check_interval(), Duration::from_secs(30));
    registry.add_peer(peer("a", PeerStatus::Active)).unwrap();
    registry.update_peer_status("a", PeerStatus::Inactive).unwrap();
    let peers = registry.list_peers();
    assert_eq!(peers[0].status, PeerStatus::Inactive);
    assert!(peers[0].last_seen > 0);
    registry.update_peer_status("missing", PeerStatus::Active).unwrap();
    assert_eq!(registry.list_peers().len(), 1);
}

#[test]
fn peer_requests_are_tried_twice() {
    assert!(matches!(after_attempt(0, SendEvent::Closed), SendStep::Retry));
    assert!(matches!(after_attempt(0, SendEvent::Failed("reset".to_string())), SendStep::Retry));
    match after_attempt(1, SendEvent::Closed) {
        SendStep::Done(Err(BlazeCacheError::PeerError(m))) => assert_eq!(m, "connection closed"),
        _ => panic!(),
    }
    match after_attempt(1, SendEvent::Failed("reset".to_string())) {
        SendStep::Done(Err(BlazeCacheError::IoError(m))) => assert_eq!(m, "reset"),
        _ => panic!(),
    }
    assert!(matches!(after_attempt(0, SendEvent::Replied(vec![2])), SendStep::Done(Ok(Response::Pong))));
    match after_attempt(0, SendEvent::Replied(vec![7])) {
        SendStep::Done(Err(BlazeCacheError::PeerError(m))) => assert_eq!(m, "Unknown response"),
        _ => panic!(),
    }
}

#[test]
fn adding_a_peer_to_an_empty_ring_takes_every_key() {
    let mut empty = ConsistentHash::new(5);
    assert!(empty.pick_peer("k").is_none());
    empty.add_peer("only".to_string(), "only");
    empty.finalize();
    for i in 0..50 {
        assert_eq!(empty.pick_peer(&format!("key-{}", i)), Some(&"only".to_string()));
    }
}
