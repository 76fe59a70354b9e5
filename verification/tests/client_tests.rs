use blazecache::client::{
    build_ring, contains_not_found, discovered_peers, finish_delete, finish_get, finish_ping, finish_set, keeps_connection,
    peers_from_reply,
    parse_peer_list, reply_body_len, reply_header_len, select_server, ClientConsistentHash, ClientError,
    SelectionStrategy,
};
use blazecache::transports::common::Response;

#[test]
fn client_error_texts() {
    assert_eq!(ClientError::Io("boom".to_string()).to_string(), "IO error: boom");
    assert_eq!(ClientError::Protocol("bad".to_string()).to_string(), "Protocol error: bad");
    assert_eq!(ClientError::NotFound.to_string(), "Key not found");
    assert_eq!(ClientError::Timeout.to_string(), "Operation timeout");
}

#[test]
fn round_robin_selection_cycles() {
    let servers = vec!["a".to_string(), "b".to_string(), "c".to_string()];
    let ring = build_ring(&servers, &SelectionStrategy::RoundRobin);
    assert!(ring.is_none());
    let mut counter = 0usize;
    let picks: Vec<String> = (0..4)
        .map(|_| select_server(&SelectionStrategy::RoundRobin, &servers, &ring, "k", &mut counter).unwrap())
        .collect();
    assert_eq!(picks, vec!["a", "b", "c", "a"]);
    assert_eq!(select_server(&SelectionStrategy::RoundRobin, &Vec::new(), &None, "k", &mut counter), None);
}

#[test]
fn consistent_hash_selection_is_stable() {
    let servers = vec!["s1:1".to_string(), "s2:2".to_string()];
    let ring = build_ring(&servers, &SelectionStrategy::ConsistentHashing);
    assert!(ring.is_some());
    let mut counter = 0usize;
    let a = select_server(&SelectionStrategy::ConsistentHashing, &servers, &ring, "user:1", &mut counter);
    let b = select_server(&SelectionStrategy::ConsistentHashing, &servers, &ring, "user:1", &mut counter);
    assert_eq!(a, b);
    assert_eq!(counter, 0);
    let mut h = ClientConsistentHash::new(10);
    h.add_server("x");
    h.finalize();
    assert_eq!(h.pick_server("anything"), Some("x"));
}

#[test]
fn reply_framing() {
    assert_eq!(reply_header_len(0), Some(4));
    assert_eq!(reply_header_len(1), Some(2));
    assert_eq!(reply_header_len(2), None);
    assert_eq!(reply_body_len(0, &[0, 0, 1, 2]), 258);
    assert_eq!(reply_body_len(1, &[1, 0]), 256);
    assert!(keeps_connection(0) && keeps_connection(1) && !keeps_connection(7));
}

#[test]
fn reading_a_get_reply() {
    assert_eq!(finish_get(0, b"v".to_vec()).unwrap(), Some(b"v".to_vec()));
    assert_eq!(finish_get(0, Vec::new()).unwrap(), Some(Vec::new()));
    assert_eq!(finish_get(1, b"Key NOT FOUND here".to_vec()).unwrap(), None);
    assert_eq!(finish_get(1, Vec::new()).unwrap(), None);
    match finish_get(1, b"boom".to_vec()) {
        Err(ClientError::Protocol(m)) => assert_eq!(m, "boom"),
        _ => panic!("Expected a protocol error"),
    }
    match finish_get(9, Vec::new()) {
        Err(ClientError::Protocol(m)) => assert_eq!(m, "Unknown status: 9"),
        _ => panic!("Expected a protocol error"),
    }
}

#[test]
fn reading_set_and_delete_replies() {
    assert!(finish_set(0, Vec::new()).is_ok());
    match finish_set(1, Vec::new()) {
        Err(ClientError::Protocol(m)) => assert_eq!(m, "set failed"),
        _ => panic!(),
    }
    match finish_set(3, Vec::new()) {
        Err(ClientError::Protocol(m)) => assert_eq!(m, "Unexpected status: 3"),
        _ => panic!(),
    }
    assert_eq!(finish_delete(0, Vec::new()).unwrap(), true);
    assert_eq!(finish_delete(1, b"Not found".to_vec()).unwrap(), false);
    assert_eq!(finish_delete(1, Vec::new()).unwrap(), false);
    assert!(finish_delete(1, b"disk full".to_vec()).is_err());
}

#[test]
fn not_found_search_ignores_case() {
    assert!(contains_not_found(b"not found"));
    assert!(contains_not_found(b"xx NoT FoUnD yy"));
    assert!(!contains_not_found(b"not-found"));
    assert!(!contains_not_found(b"found"));
}

#[test]
fn lossy_text_replaces_invalid_bytes() {
    match finish_set(1, b"abc".to_vec()) {
        Err(ClientError::Protocol(m)) => assert_eq!(m, "abc"),
        _ => panic!(),
    }
    match finish_set(1, vec![0x61, 0xff]) {
        Err(ClientError::Protocol(m)) => assert_eq!(m, "a\u{fffd}"),
        _ => panic!(),
    }
}

#[test]
fn peer_lists_are_split_and_trimmed() {
    assert_eq!(parse_peer_list(" a:1 , b:2,,c:3 ,"), vec!["a:1", "b:2", "c:3"]);
    assert!(parse_peer_list("").is_empty());
    assert!(parse_peer_list(" , ").is_empty());
    let peers = discovered_peers(Response::Data(b"x:1,y:2".to_vec())).unwrap();
    assert_eq!(peers, vec!["x:1", "y:2"]);
    match discovered_peers(Response::Pong) {
        Err(ClientError::Protocol(m)) => assert_eq!(m, "Invalid PEER response"),
        _ => panic!(),
    }
    match discovered_peers(Response::Error("nope".to_string())) {
        Err(ClientError::Protocol(m)) => assert_eq!(m, "nope"),
        _ => panic!(),
    }
}

#[test]
fn ping_reply_outcomes() {
    assert!(finish_ping(&[2]).is_ok());
    match finish_ping(&[]) {
        Err(ClientError::Io(m)) => assert_eq!(m, "Connection closed"),
        _ => panic!(),
    }
    match finish_ping(&[1, 0, 3, b'b', b'a', b'd']) {
        Err(ClientError::Protocol(m)) => assert_eq!(m, "bad"),
        _ => panic!(),
    }
    match finish_ping(&[0, 0, 0, 0, 0]) {
        Err(ClientError::Protocol(m)) => assert_eq!(m, "Ping failed"),
        _ => panic!(),
    }
    match finish_ping(&[9]) {
        Err(ClientError::Protocol(m)) => assert_eq!(m, "Unknown response"),
        _ => panic!(),
    }
}

#[test]
fn peer_reply_bytes_name_the_servers() {
    let peers = peers_from_reply(&[0, 0, 0, 0, 7, b'a', b':', b'1', b',', b'b', b':', b'2']).unwrap();
    assert_eq!(peers, vec!["a:1", "b:2"]);
    match peers_from_reply(&[]) {
        Err(ClientError::Io(m)) => assert_eq!(m, "Connection closed"),
        _ => panic!(),
    }
    match peers_from_reply(&[2]) {
        Err(ClientError::Protocol(m)) => assert_eq!(m, "Invalid PEER response"),
        _ => panic!(),
    }
}
