use blazecache::serializers::BinarySerializer;
use blazecache::transports::common::{Command, Response};

#[test]
fn binary_test_serialize_ping() {
    let cmd = Command::Ping;
    let data = BinarySerializer::serialize_command(&cmd);
    assert_eq!(data, vec![0u8]);
}

#[test]
fn binary_test_deserialize_ping() {
    let data = vec![0u8];
    let cmd = BinarySerializer::deserialize_command(&data).unwrap();
    match cmd {
        Command::Ping => {}
        _ => panic!("Expected Ping command"),
    }
}

#[test]
fn binary_test_serialize_get() {
    let cmd = Command::Get("test".to_string());
    let data = BinarySerializer::serialize_command(&cmd);
    assert_eq!(data[0], 1u8);
    assert_eq!(u16::from_be_bytes([data[1], data[2]]), 4);
    assert_eq!(&data[3..], b"test");
}

#[test]
fn binary_test_deserialize_get() {
    let mut data = vec![1u8, 0, 4];
    data.extend_from_slice(b"test");
    let cmd = BinarySerializer::deserialize_command(&data).unwrap();
    match cmd {
        Command::Get(key) => assert_eq!(key, "test"),
        _ => panic!("Expected Get command"),
    }
}

#[test]
fn binary_test_serialize_put() {
    let cmd = Command::Put("key".to_string(), vec![1, 2, 3], 100);
    let data = BinarySerializer::serialize_command(&cmd);
    assert_eq!(data[0], 2u8);
    let key_len = u16::from_be_bytes([data[1], data[2]]);
    assert_eq!(key_len, 3);
    assert_eq!(&data[3..6], b"key");
    let value_len = u32::from_be_bytes([data[6], data[7], data[8], data[9]]);
    assert_eq!(value_len, 3);
    assert_eq!(&data[10..13], &[1, 2, 3]);
    let ttl = u32::from_be_bytes([data[13], data[14], data[15], data[16]]);
    assert_eq!(ttl, 100);
}

#[test]
fn binary_test_deserialize_put() {
    let mut data = vec![2u8, 0, 3];
    data.extend_from_slice(b"key");
    data.extend_from_slice(&3u32.to_be_bytes());
    data.extend_from_slice(&[1, 2, 3]);
    data.extend_from_slice(&100u32.to_be_bytes());
    let cmd = BinarySerializer::deserialize_command(&data).unwrap();
    match cmd {
        Command::Put(key, value, ttl) => {
            assert_eq!(key, "key");
            assert_eq!(value, vec![1, 2, 3]);
            assert_eq!(ttl, 100);
        }
        _ => panic!("Expected Put command"),
    }
}

#[test]
fn binary_test_serialize_delete() {
    let cmd = Command::Delete("key".to_string());
    let data = BinarySerializer::serialize_command(&cmd);
    assert_eq!(data[0], 3u8);
    assert_eq!(u16::from_be_bytes([data[1], data[2]]), 3);
    assert_eq!(&data[3..], b"key");
}

#[test]
fn binary_test_deserialize_delete() {
    let mut data = vec![3u8, 0, 3];
    data.extend_from_slice(b"key");
    let cmd = BinarySerializer::deserialize_command(&data).unwrap();
    match cmd {
        Command::Delete(key) => assert_eq!(key, "key"),
        _ => panic!("Expected Delete command"),
    }
}

#[test]
fn binary_test_serialize_peer() {
    let cmd = Command::Peer;
    let data = BinarySerializer::serialize_command(&cmd);
    assert_eq!(data, vec![4u8]);
}

#[test]
fn binary_test_deserialize_peer() {
    let data = vec![4u8];
    let cmd = BinarySerializer::deserialize_command(&data).unwrap();
    match cmd {
        Command::Peer => {}
        _ => panic!("Expected Peer command"),
    }
}

#[test]
fn binary_test_serialize_stats() {
    let cmd = Command::Stats;
    let data = BinarySerializer::serialize_command(&cmd);
    assert_eq!(data, vec![5u8]);
}

#[test]
fn binary_test_deserialize_stats() {
    let data = vec![5u8];
    let cmd = BinarySerializer::deserialize_command(&data).unwrap();
    match cmd {
        Command::Stats => {}
        _ => panic!("Expected Stats command"),
    }
}

#[test]
fn binary_test_serialize_response_ok() {
    let resp = Response::Data(vec![1, 2, 3]);
    let data = BinarySerializer::serialize_response(&resp);
    assert_eq!(data[0], 0u8);
    assert_eq!(u32::from_be_bytes([data[1], data[2], data[3], data[4]]), 3);
    assert_eq!(&data[5..], &[1, 2, 3]);
}

#[test]
fn binary_test_deserialize_response_ok() {
    let mut data = vec![0u8];
    data.extend_from_slice(&3u32.to_be_bytes());
    data.extend_from_slice(&[1, 2, 3]);
    let resp = BinarySerializer::deserialize_response(&data).unwrap();
    match resp {
        Response::Data(value) => assert_eq!(value, vec![1, 2, 3]),
        _ => panic!("Expected Ok response"),
    }
}

#[test]
fn binary_test_serialize_response_error() {
    let resp = Response::Error("test error".to_string());
    let data = BinarySerializer::serialize_response(&resp);
    assert_eq!(data[0], 1u8);
    assert_eq!(u16::from_be_bytes([data[1], data[2]]), 10);
    assert_eq!(&data[3..], b"test error");
}

#[test]
fn binary_test_deserialize_response_error() {
    let mut data = vec![1u8];
    data.extend_from_slice(&10u16.to_be_bytes());
    data.extend_from_slice(b"test error");
    let resp = BinarySerializer::deserialize_response(&data).unwrap();
    match resp {
        Response::Error(msg) => assert_eq!(msg, "test error"),
        _ => panic!("Expected Error response"),
    }
}

#[test]
fn binary_test_serialize_response_pong() {
    let resp = Response::Pong;
    let data = BinarySerializer::serialize_response(&resp);
    assert_eq!(data, vec![2u8]);
}

#[test]
fn binary_test_deserialize_response_pong() {
    let data = vec![2u8];
    let resp = BinarySerializer::deserialize_response(&data).unwrap();
    match resp {
        Response::Pong => {}
        _ => panic!("Expected Pong response"),
    }
}

#[test]
fn test_deserialize_empty_command() {
    let result = BinarySerializer::deserialize_command(&[]);
    assert!(result.is_err());
}

#[test]
fn test_deserialize_unknown_command() {
    let data = vec![99u8];
    let result = BinarySerializer::deserialize_command(&data);
    assert!(result.is_err());
}

#[test]
fn test_deserialize_get_incomplete() {
    let data = vec![1u8, 0, 10];
    let result = BinarySerializer::deserialize_command(&data);
    assert!(result.is_err());
}

#[test]
fn test_deserialize_put_incomplete_key() {
    let data = vec![2u8, 0, 10];
    let result = BinarySerializer::deserialize_command(&data);
    assert!(result.is_err());
}

#[test]
fn test_deserialize_put_incomplete_value_len() {
    let mut data = vec![2u8, 0, 3];
    data.extend_from_slice(b"key");
    data.push(0);
    let result = BinarySerializer::deserialize_command(&data);
    assert!(result.is_err());
}

#[test]
fn test_deserialize_put_incomplete_value() {
    let mut data = vec![2u8, 0, 3];
    data.extend_from_slice(b"key");
    data.extend_from_slice(&10u32.to_be_bytes());
    data.push(1);
    let result = BinarySerializer::deserialize_command(&data);
    assert!(result.is_err());
}

#[test]
fn test_deserialize_delete_incomplete() {
    let data = vec![3u8, 0, 10];
    let result = BinarySerializer::deserialize_command(&data);
    assert!(result.is_err());
}

#[test]
fn test_deserialize_response_empty() {
    let result = BinarySerializer::deserialize_response(&[]);
    assert!(result.is_err());
}

#[test]
fn test_deserialize_response_unknown() {
    let data = vec![99u8];
    let result = BinarySerializer::deserialize_response(&data);
    assert!(result.is_err());
}

#[test]
fn test_deserialize_response_ok_incomplete() {
    let data = vec![0u8, 0, 0, 0, 10];
    let result = BinarySerializer::deserialize_response(&data);
    assert!(result.is_err());
}

#[test]
fn test_deserialize_response_error_incomplete() {
    let data = vec![1u8, 0, 10];
    let result = BinarySerializer::deserialize_response(&data);
    assert!(result.is_err());
}

#[test]
fn binary_test_round_trip_all_commands() {
    let commands = vec![
        Command::Ping,
        Command::Get("test".to_string()),
        Command::Put("key".to_string(), vec![1, 2, 3], 100),
        Command::Delete("key".to_string()),
        Command::Peer,
        Command::Stats,
    ];

    for cmd in commands {
        let serialized = BinarySerializer::serialize_command(&cmd);
        let deserialized = BinarySerializer::deserialize_command(&serialized).unwrap();
        match (&cmd, &deserialized) {
            (Command::Ping, Command::Ping) => {}
            (Command::Get(k1), Command::Get(k2)) => assert_eq!(k1, k2),
            (Command::Put(k1, v1, t1), Command::Put(k2, v2, t2)) => {
                assert_eq!(k1, k2);
                assert_eq!(v1, v2);
                assert_eq!(t1, t2);
            }
            (Command::Delete(k1), Command::Delete(k2)) => assert_eq!(k1, k2),
            (Command::Peer, Command::Peer) => {}
            (Command::Stats, Command::Stats) => {}
            _ => panic!("Round trip failed for {:?}", cmd),
        }
    }
}

#[test]
fn binary_test_round_trip_all_responses() {
    let responses = vec![
        Response::Data(vec![1, 2, 3]),
        Response::Error("test".to_string()),
        Response::Pong,
    ];

    for resp in responses {
        let serialized = BinarySerializer::serialize_response(&resp);
        let deserialized = BinarySerializer::deserialize_response(&serialized).unwrap();
        match (&resp, &deserialized) {
            (Response::Data(v1), Response::Data(v2)) => assert_eq!(v1, v2),
            (Response::Error(m1), Response::Error(m2)) => assert_eq!(m1, m2),
            (Response::Pong, Response::Pong) => {}
            _ => panic!("Round trip failed for {:?}", resp),
        }
    }
}

#[test]
fn binary_clear_command_round_trips() {
    let data = BinarySerializer::serialize_command(&Command::Clear);
    assert_eq!(data, vec![6u8]);
    match BinarySerializer::deserialize_command(&data).unwrap() {
        Command::Clear => {}
        _ => panic!("Expected Clear command"),
    }
}

#[test]
fn binary_incomplete_get_reports_lengths() {
    let err = BinarySerializer::deserialize_command(&[1u8, 0, 10]).unwrap_err();
    assert!(err.contains("13"), "{}", err);
}

#[test]
fn binary_invalid_utf8_key_is_refused() {
    let data = vec![1u8, 0, 2, 0xff, 0xfe];
    assert!(BinarySerializer::deserialize_command(&data).is_err());
}
