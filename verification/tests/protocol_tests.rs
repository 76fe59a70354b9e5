use blazecache::cache::cache::CacheStats;
use base64::engine::general_purpose;
use base64::Engine;
use blazecache::serializers::JsonSerializer;
use blazecache::transports::common::{Command, Response};
use blazecache::transports::{
    clear_reply, delete_reply, get_reply, handle_clear_response, handle_delete_response, handle_get_response,
    handle_peer_response, handle_ping_response, handle_put_response, handle_stats_response, peers_reply, ping_reply,
    put_reply, stats_reply,
};
use blazecache::utils::error::BlazeCacheError;

#[test]
fn test_command_debug() {
    let cmd = Command::Get("test".to_string());
    let _ = format!("{:?}", cmd);
}

#[test]
fn test_response_debug() {
    let resp = Response::Data(vec![1, 2, 3]);
    let _ = format!("{:?}", resp);
}

#[test]
fn test_command_variants() {
    let _get = Command::Get("key".to_string());
    let _put = Command::Put("key".to_string(), vec![1, 2, 3], 100);
    let _delete = Command::Delete("key".to_string());
    let _peer = Command::Peer;
    let _ping = Command::Ping;
    let _stats = Command::Stats;
    let _clear = Command::Clear;
}

#[test]
fn test_response_variants() {
    let _ok = Response::Data(vec![1, 2, 3]);
    let _error = Response::Error("test error".to_string());
    let _pong = Response::Pong;
}

#[test]
fn test_handle_ping_response() {
    let resp = Response::Pong;
    assert!(handle_ping_response(resp).is_ok());
}

#[test]
fn test_handle_ping_response_invalid() {
    let resp = Response::Data(vec![]);
    assert!(handle_ping_response(resp).is_err());
}

#[test]
fn test_handle_get_response_ok() {
    let resp = Response::Data(vec![1u8, 2, 3]);
    let result = handle_get_response(resp).unwrap();
    assert_eq!(result, vec![1u8, 2, 3]);
}

#[test]
fn test_handle_get_response_not_found() {
    let resp = Response::Error("Not found".to_string());
    let result: Vec<u8> = handle_get_response(resp).unwrap();
    assert_eq!(result, Vec::<u8>::new());
}

#[test]
fn test_handle_get_response_error() {
    let resp = Response::Error("Other error".to_string());
    assert!(handle_get_response(resp).is_err());
}

#[test]
fn test_handle_put_response_ok() {
    let resp = Response::Data(vec![]);
    assert!(handle_put_response(resp).is_ok());
}

#[test]
fn test_handle_put_response_error() {
    let resp = Response::Error("Error".to_string());
    assert!(handle_put_response(resp).is_err());
}

#[test]
fn test_handle_peer_response_ok() {
    let resp = Response::Data(b"peer1,peer2".to_vec());
    let result = handle_peer_response(resp).unwrap();
    assert_eq!(result, "peer1,peer2");
}

#[test]
fn test_handle_peer_response_error() {
    let resp = Response::Error("Error".to_string());
    assert!(handle_peer_response(resp).is_err());
}

#[test]
fn test_handle_peer_response_invalid() {
    let resp = Response::Pong;
    assert!(handle_peer_response(resp).is_err());
}

#[test]
fn test_handle_peer_response_invalid_utf8() {
    let resp = Response::Data(vec![0xFF, 0xFE, 0xFD]);
    assert!(handle_peer_response(resp).is_err());
}

#[test]
fn test_deserialize_invalid_json() {
    let data = b"not json";
    let result = JsonSerializer::deserialize_command(data);
    assert!(result.is_err());
}

#[test]
fn test_deserialize_unknown_command_type() {
    let json = r#"{"type":"unknown"}"#;
    let result = JsonSerializer::deserialize_command(json.as_bytes());
    assert!(result.is_err());
}

#[test]
fn test_deserialize_get_missing_key() {
    let json = r#"{"type":"get"}"#;
    let result = JsonSerializer::deserialize_command(json.as_bytes());
    assert!(result.is_err());
}

#[test]
fn test_deserialize_put_missing_key() {
    let json = r#"{"type":"put","value":"AQID"}"#;
    let result = JsonSerializer::deserialize_command(json.as_bytes());
    assert!(result.is_err());
}

#[test]
fn test_deserialize_put_missing_value() {
    let json = r#"{"type":"put","key":"key"}"#;
    let result = JsonSerializer::deserialize_command(json.as_bytes());
    assert!(result.is_err());
}

#[test]
fn test_deserialize_put_invalid_base64() {
    let json = r#"{"type":"put","key":"key","value":"invalid!"}"#;
    let result = JsonSerializer::deserialize_command(json.as_bytes());
    assert!(result.is_err());
}

#[test]
fn test_deserialize_response_unknown_status() {
    let json = r#"{"status":"unknown"}"#;
    let result = JsonSerializer::deserialize_response(json.as_bytes());
    assert!(result.is_err());
}

#[test]
fn test_deserialize_response_ok_missing_data() {
    let json = r#"{"status":"ok"}"#;
    let result = JsonSerializer::deserialize_response(json.as_bytes());
    assert!(result.is_err());
}

#[test]
fn test_deserialize_response_error_missing_message() {
    let json = r#"{"status":"error"}"#;
    let result = JsonSerializer::deserialize_response(json.as_bytes());
    assert!(result.is_err());
}

#[test]
fn json_test_serialize_put() {
    let cmd = Command::Put("key".to_string(), vec![1, 2, 3], 100);
    let data = JsonSerializer::serialize_command(&cmd);
    let json: serde_json::Value = serde_json::from_slice(&data).unwrap();
    assert_eq!(json["type"], "put");
    assert_eq!(json["key"], "key");
    assert_eq!(json["ttl"], 100);
    let value = general_purpose::STANDARD.decode(json["value"].as_str().unwrap()).unwrap();
    assert_eq!(value, vec![1, 2, 3]);
    assert_eq!(String::from_utf8(data).unwrap(), r#"{"key":"key","ttl":100,"type":"put","value":"AQID"}"#);
}

#[test]
fn json_test_deserialize_put() {
    let json = r#"{"type":"put","key":"key","value":"AQID","ttl":100}"#;
    match JsonSerializer::deserialize_command(json.as_bytes()).unwrap() {
        Command::Put(key, value, ttl) => {
            assert_eq!(key, "key");
            assert_eq!(value, vec![1, 2, 3]);
            assert_eq!(ttl, 100);
        }
        _ => panic!("Expected Put command"),
    }
}

#[test]
fn test_deserialize_put_no_ttl() {
    let json = r#"{"type":"put","key":"key","value":"AQID"}"#;
    match JsonSerializer::deserialize_command(json.as_bytes()).unwrap() {
        Command::Put(key, value, ttl) => {
            assert_eq!(key, "key");
            assert_eq!(value, vec![1, 2, 3]);
            assert_eq!(ttl, 0);
        }
        _ => panic!("Expected Put command"),
    }
}

#[test]
fn json_test_round_trip_all_commands() {
    let commands = vec![
        Command::Ping,
        Command::Get("test".to_string()),
        Command::Put("key".to_string(), vec![1, 2, 3], 100),
        Command::Delete("key".to_string()),
        Command::Peer,
        Command::Stats,
    ];
    for cmd in commands {
        let data = JsonSerializer::serialize_command(&cmd);
        let back = JsonSerializer::deserialize_command(&data).unwrap();
        assert_eq!(format!("{:?}", cmd), format!("{:?}", back));
    }
}

#[test]
fn json_test_round_trip_all_responses() {
    let responses = vec![
        Response::Data(vec![1, 2, 3]),
        Response::Error("test".to_string()),
        Response::Pong,
    ];
    for resp in responses {
        let data = JsonSerializer::serialize_response(&resp);
        let back = JsonSerializer::deserialize_response(&data).unwrap();
        assert_eq!(format!("{:?}", resp), format!("{:?}", back));
    }
}

#[test]
fn json_round_trips_escapes_and_clear() {
    for cmd in vec![Command::Delete("key \"quoted\"\n".to_string()), Command::Clear] {
        let data = JsonSerializer::serialize_command(&cmd);
        let back = JsonSerializer::deserialize_command(&data).unwrap();
        assert_eq!(format!("{:?}", cmd), format!("{:?}", back));
    }
    let resp = Response::Error("te\"st\n".to_string());
    let back = JsonSerializer::deserialize_response(&JsonSerializer::serialize_response(&resp)).unwrap();
    assert_eq!(format!("{:?}", resp), format!("{:?}", back));
}

#[test]
fn json_error_messages() {
    let e = JsonSerializer::deserialize_command(br#"{"type":"get"}"#).unwrap_err();
    assert_eq!(e, "Missing key");
    let e = JsonSerializer::deserialize_command(br#"{"type":"nope"}"#).unwrap_err();
    assert_eq!(e, "Unknown command type");
    let e = JsonSerializer::deserialize_response(br#"{"status":"error"}"#).unwrap_err();
    assert_eq!(e, "Missing message");
}

#[test]
fn server_replies_to_reads() {
    assert_eq!(format!("{:?}", get_reply(Ok(vec![1]))), format!("{:?}", Response::Data(vec![1])));
    match get_reply(Err(BlazeCacheError::KeyNotFound)) {
        Response::Error(m) => assert_eq!(m, "Not found"),
        _ => panic!(),
    }
    match get_reply(Err(BlazeCacheError::KeyEmpty)) {
        Response::Error(m) => assert_eq!(m, "Key empty"),
        _ => panic!(),
    }
    match get_reply(Err(BlazeCacheError::Timeout)) {
        Response::Error(m) => assert_eq!(m, "Operation timed out"),
        _ => panic!(),
    }
}

#[test]
fn server_replies_to_writes_and_deletes() {
    match put_reply(Err(BlazeCacheError::ItemTooLarge { item_size: 9, max_size: 1 })) {
        Response::Error(m) => assert_eq!(m, "Item too large"),
        _ => panic!(),
    }
    match put_reply(Ok(())) {
        Response::Data(d) => assert!(d.is_empty()),
        _ => panic!(),
    }
    match delete_reply(Ok(false)) {
        Response::Error(m) => assert_eq!(m, "Not found"),
        _ => panic!(),
    }
    match delete_reply(Ok(true)) {
        Response::Data(d) => assert!(d.is_empty()),
        _ => panic!(),
    }
    match delete_reply(Err(BlazeCacheError::PeerError("down".to_string()))) {
        Response::Error(m) => assert_eq!(m, "Peer error: down"),
        _ => panic!(),
    }
    match ping_reply() {
        Response::Pong => {}
        _ => panic!(),
    }
    match clear_reply() {
        Response::Data(d) => assert!(d.is_empty()),
        _ => panic!(),
    }
}

#[test]
fn server_replies_to_peer_and_stats_requests() {
    match peers_reply(&vec!["a:1".to_string(), "b:2".to_string()]) {
        Response::Data(d) => assert_eq!(d, b"a:1,b:2".to_vec()),
        _ => panic!(),
    }
    match peers_reply(&Vec::new()) {
        Response::Data(d) => assert!(d.is_empty()),
        _ => panic!(),
    }
    let stats = CacheStats {
        hits: 1,
        misses: 2,
        puts: 3,
        deletes: 4,
        evictions: 5,
        hot_items: 6,
        rejected_items: 7,
        ttl_evictions: 8,
        entry_count: 9,
        memory_usage: 10,
    };
    match stats_reply(&stats) {
        Response::Data(d) => assert_eq!(
            String::from_utf8(d).unwrap(),
            r#"{"hits":1,"misses":2,"puts":3,"deletes":4,"evictions":5,"hot_items":6,"rejected_items":7,"ttl_evictions":8,"entry_count":9,"memory_usage":10}"#
        ),
        _ => panic!(),
    }
}

#[test]
fn json_test_serialize_ping() {
    let cmd = Command::Ping;
    let data = JsonSerializer::serialize_command(&cmd);
    let json: serde_json::Value = serde_json::from_slice(&data).unwrap();
    assert_eq!(json["type"], "ping");
}

#[test]
fn json_test_deserialize_ping() {
    let json = r#"{"type":"ping"}"#;
    let cmd = JsonSerializer::deserialize_command(json.as_bytes()).unwrap();
    match cmd {
        Command::Ping => {}
        _ => panic!("Expected Ping command"),
    }
}

#[test]
fn json_test_serialize_get() {
    let cmd = Command::Get("test".to_string());
    let data = JsonSerializer::serialize_command(&cmd);
    let json: serde_json::Value = serde_json::from_slice(&data).unwrap();
    assert_eq!(json["type"], "get");
    assert_eq!(json["key"], "test");
}

#[test]
fn json_test_deserialize_get() {
    let json = r#"{"type":"get","key":"test"}"#;
    let cmd = JsonSerializer::deserialize_command(json.as_bytes()).unwrap();
    match cmd {
        Command::Get(key) => assert_eq!(key, "test"),
        _ => panic!("Expected Get command"),
    }
}

#[test]
fn json_test_serialize_delete() {
    let cmd = Command::Delete("key".to_string());
    let data = JsonSerializer::serialize_command(&cmd);
    let json: serde_json::Value = serde_json::from_slice(&data).unwrap();
    assert_eq!(json["type"], "delete");
    assert_eq!(json["key"], "key");
}

#[test]
fn json_test_deserialize_delete() {
    let json = r#"{"type":"delete","key":"key"}"#;
    let cmd = JsonSerializer::deserialize_command(json.as_bytes()).unwrap();
    match cmd {
        Command::Delete(key) => assert_eq!(key, "key"),
        _ => panic!("Expected Delete command"),
    }
}

#[test]
fn json_test_serialize_peer() {
    let cmd = Command::Peer;
    let data = JsonSerializer::serialize_command(&cmd);
    let json: serde_json::Value = serde_json::from_slice(&data).unwrap();
    assert_eq!(json["type"], "peer");
}

#[test]
fn json_test_deserialize_peer() {
    let json = r#"{"type":"peer"}"#;
    let cmd = JsonSerializer::deserialize_command(json.as_bytes()).unwrap();
    match cmd {
        Command::Peer => {}
        _ => panic!("Expected Peer command"),
    }
}

#[test]
fn json_test_serialize_stats() {
    let cmd = Command::Stats;
    let data = JsonSerializer::serialize_command(&cmd);
    let json: serde_json::Value = serde_json::from_slice(&data).unwrap();
    assert_eq!(json["type"], "stats");
}

#[test]
fn json_test_deserialize_stats() {
    let json = r#"{"type":"stats"}"#;
    let cmd = JsonSerializer::deserialize_command(json.as_bytes()).unwrap();
    match cmd {
        Command::Stats => {}
        _ => panic!("Expected Stats command"),
    }
}

#[test]
fn json_test_serialize_response_ok() {
    let resp = Response::Data(vec![1, 2, 3]);
    let data = JsonSerializer::serialize_response(&resp);
    let json: serde_json::Value = serde_json::from_slice(&data).unwrap();
    assert_eq!(json["status"], "ok");
    let data_decoded = general_purpose::STANDARD.decode(json["data"].as_str().unwrap()).unwrap();
    assert_eq!(data_decoded, vec![1, 2, 3]);
}

#[test]
fn json_test_deserialize_response_ok() {
    let json = r#"{"status":"ok","data":"AQID"}"#;
    let resp = JsonSerializer::deserialize_response(json.as_bytes()).unwrap();
    match resp {
        Response::Data(value) => assert_eq!(value, vec![1, 2, 3]),
        _ => panic!("Expected Ok response"),
    }
}

#[test]
fn json_test_serialize_response_error() {
    let resp = Response::Error("test error".to_string());
    let data = JsonSerializer::serialize_response(&resp);
    let json: serde_json::Value = serde_json::from_slice(&data).unwrap();
    assert_eq!(json["status"], "error");
    assert_eq!(json["message"], "test error");
}

#[test]
fn json_test_deserialize_response_error() {
    let json = r#"{"status":"error","message":"test error"}"#;
    let resp = JsonSerializer::deserialize_response(json.as_bytes()).unwrap();
    match resp {
        Response::Error(msg) => assert_eq!(msg, "test error"),
        _ => panic!("Expected Error response"),
    }
}

#[test]
fn json_test_serialize_response_pong() {
    let resp = Response::Pong;
    let data = JsonSerializer::serialize_response(&resp);
    let json: serde_json::Value = serde_json::from_slice(&data).unwrap();
    assert_eq!(json["status"], "pong");
}

#[test]
fn json_test_deserialize_response_pong() {
    let json = r#"{"status":"pong"}"#;
    let resp = JsonSerializer::deserialize_response(json.as_bytes()).unwrap();
    match resp {
        Response::Pong => {}
        _ => panic!("Expected Pong response"),
    }
}

#[test]
fn test_command_clone() {
    let cmd1 = Command::Ping;
    let cmd2 = cmd1.clone();
    match (cmd1, cmd2) {
        (Command::Ping, Command::Ping) => {}
        _ => panic!("Clone failed"),
    }
}

#[test]
fn test_response_clone() {
    let resp1 = Response::Pong;
    let resp2 = resp1.clone();
    match (resp1, resp2) {
        (Response::Pong, Response::Pong) => {}
        _ => panic!("Clone failed"),
    }
}

#[test]
fn delete_stats_and_clear_replies() {
    assert_eq!(handle_delete_response(Response::Data(vec![])).unwrap(), true);
    assert_eq!(handle_delete_response(Response::Error("Not found".to_string())).unwrap(), false);
    assert_eq!(handle_delete_response(Response::Error("boom".to_string())).unwrap_err(), "boom");
    assert_eq!(handle_delete_response(Response::Pong).unwrap_err(), "Invalid delete response");
    assert_eq!(handle_stats_response(Response::Data(b"{}".to_vec())).unwrap(), "{}");
    assert!(handle_stats_response(Response::Data(vec![0xff])).unwrap_err().starts_with("Invalid UTF-8 in stats response: "));
    assert_eq!(handle_stats_response(Response::Pong).unwrap_err(), "Invalid stats response");
    assert!(handle_clear_response(Response::Data(vec![1])).is_ok());
    assert_eq!(handle_clear_response(Response::Error("no".to_string())).unwrap_err(), "no");
    assert_eq!(handle_clear_response(Response::Pong).unwrap_err(), "Invalid clear response");
}

#[test]
fn json_keys_are_escaped_as_serde_json_writes_them() {
    let cmd = Command::Get("a\"b\\c\n\t\u{1}\u{7f}é".to_string());
    let data = JsonSerializer::serialize_command(&cmd);
    assert_eq!(
        String::from_utf8(data).unwrap(),
        "{\"key\":\"a\\\"b\\\\c\\n\\t\\u0001\u{7f}é\",\"type\":\"get\"}"
    );
}

#[test]
fn json_values_are_padded_standard_base64() {
    let cmd = Command::Put("k".to_string(), vec![0xfb, 0xff, 0x68, 0x69], 0);
    let data = JsonSerializer::serialize_command(&cmd);
    assert_eq!(
        String::from_utf8(data).unwrap(),
        "{\"key\":\"k\",\"ttl\":0,\"type\":\"put\",\"value\":\"+/9oaQ==\"}"
    );
}
