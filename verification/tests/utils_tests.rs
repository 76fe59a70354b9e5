use blazecache::utils::config::{
    apply_cli, apply_env, apply_file, AppConfig, EnvSettings, FileConfig, GossipFile, PersistenceFile, ServerFile,
};
use blazecache::utils::error::BlazeCacheError;
use blazecache::utils::threading::{get_optimal_worker_count, worker_count_for};
use blazecache::utils::text::{format_decimal, is_blank, parse_bool, parse_unsigned, same_text, trim};

#[test]
fn test_error_display() {
    let errors = vec![
        BlazeCacheError::GetterFailed("test".to_string()),
        BlazeCacheError::NetworkError("test".to_string()),
        BlazeCacheError::SerializationError("test".to_string()),
        BlazeCacheError::CompressionError("test".to_string()),
        BlazeCacheError::ItemTooLarge { item_size: 100, max_size: 50 },
        BlazeCacheError::KeyEmpty,
        BlazeCacheError::KeyNotFound,
        BlazeCacheError::CacheFull,
        BlazeCacheError::Timeout,
        BlazeCacheError::InvalidConfig,
        BlazeCacheError::PeerError("test".to_string()),
        BlazeCacheError::IoError("test".to_string()),
    ];
    for err in errors {
        let _ = err.to_string();
    }
}

#[test]
fn test_error_debug() {
    let err = BlazeCacheError::KeyNotFound;
    let _ = format!("{:?}", err);
}

#[test]
fn test_error_source() {
    let io_err = std::io::Error::other("test");
    let blaze_err: BlazeCacheError = io_err.into();
    assert!(blaze_err.source().is_some());
    let other_err = BlazeCacheError::KeyNotFound;
    assert!(other_err.source().is_none());
}

#[test]
fn test_from_io_error() {
    let io_err = std::io::Error::other("test");
    let blaze_err: BlazeCacheError = io_err.into();
    match blaze_err {
        BlazeCacheError::IoError(_) => {}
        _ => panic!("Expected IoError"),
    }
}

#[test]
fn test_item_too_large_display() {
    let err = BlazeCacheError::ItemTooLarge { item_size: 1000, max_size: 500 };
    let msg = err.to_string();
    assert!(msg.contains("1000"));
    assert!(msg.contains("500"));
}

#[test]
fn error_texts_are_exact() {
    assert_eq!(
        BlazeCacheError::ItemTooLarge { item_size: 1000, max_size: 500 }.to_string(),
        "Item too large: 1000 bytes exceeds cache limit of 500 bytes"
    );
    assert_eq!(BlazeCacheError::KeyEmpty.to_string(), "Key is empty");
    assert_eq!(BlazeCacheError::PeerError("x".to_string()).to_string(), "Peer error: x");
    let io: BlazeCacheError = std::io::Error::other("disk").into();
    assert_eq!(io.to_string(), "I/O error: disk");
}

#[test]
fn decimal_formatting() {
    assert_eq!(format_decimal(0), "0");
    assert_eq!(format_decimal(7), "7");
    assert_eq!(format_decimal(1234567890), "1234567890");
    assert_eq!(format_decimal(u64::MAX), "18446744073709551615");
}

#[test]
fn unsigned_parsing_follows_str_parse() {
    assert_eq!(parse_unsigned("42", 100), Some(42));
    assert_eq!(parse_unsigned("+42", 100), Some(42));
    assert_eq!(parse_unsigned("101", 100), None);
    assert_eq!(parse_unsigned("", 100), None);
    assert_eq!(parse_unsigned("+", 100), None);
    assert_eq!(parse_unsigned("-1", 100), None);
    assert_eq!(parse_unsigned(" 1", 100), None);
    assert_eq!(parse_unsigned("18446744073709551615", u64::MAX), Some(u64::MAX));
    assert_eq!(parse_unsigned("18446744073709551616", u64::MAX), None);
    assert_eq!("65535".parse::<u16>().ok().map(|v| v as u64), parse_unsigned("65535", 65535));
}

#[test]
fn bool_parsing_and_text_helpers() {
    assert_eq!(parse_bool("true"), Some(true));
    assert_eq!(parse_bool("false"), Some(false));
    assert_eq!(parse_bool("True"), None);
    assert!(same_text("abc", "abc"));
    assert!(!same_text("abc", "abd"));
    assert!(is_blank("  \t\n"));
    assert!(is_blank(""));
    assert!(!is_blank(" x "));
    assert_eq!(trim("  a b \n"), "a b");
    assert_eq!(trim("\u{3000}x\u{a0}"), "x");
    assert_eq!(trim("   "), "");
}

#[test]
fn config_defaults() {
    let cfg = AppConfig::default();
    assert_eq!(cfg.port, 6784);
    assert_eq!(cfg.memory_mb, 64);
    assert!(!cfg.daemon);
    assert_eq!(cfg.hot_cache_ttl_secs, Some(1));
    assert!(!cfg.persistence.enabled);
    assert!(!cfg.gossip.enabled);
}

fn args(list: &[&str]) -> Vec<String> {
    list.iter().map(|s| s.to_string()).collect()
}

#[test]
fn config_command_line() {
    let mut cfg = AppConfig::default();
    apply_cli(
        &mut cfg,
        &args(&[
            "blazecache", "-p", "7000", "--memory", "512", "-d", "--gossip", "--gossip-port", "7001",
            "--data-dir", "/tmp/x", "--wal-disabled", "--hot-cache-ttl", "5", "--unknown", "--tls-port", "bad",
        ]),
    );
    assert_eq!(cfg.port, 7000);
    assert_eq!(cfg.memory_mb, 512);
    assert!(cfg.daemon);
    assert!(cfg.gossip.enabled);
    assert_eq!(cfg.gossip.port, Some(7001));
    assert_eq!(cfg.persistence.data_dir, Some("/tmp/x".to_string()));
    assert_eq!(cfg.persistence.wal_disabled, Some(true));
    assert_eq!(cfg.hot_cache_ttl_secs, Some(5));
    assert_eq!(cfg.tls_port, None);
}

#[test]
fn config_command_line_flag_without_value_is_ignored() {
    let mut cfg = AppConfig::default();
    apply_cli(&mut cfg, &args(&["prog", "--port"]));
    assert_eq!(cfg.port, 6784);
    let mut cfg = AppConfig::default();
    apply_cli(&mut cfg, &args(&["prog", "--data-dir", "--port", "9"]));
    assert_eq!(cfg.persistence.data_dir, Some("--port".to_string()));
    assert_eq!(cfg.port, 6784);
}

#[test]
fn config_file_and_environment() {
    let mut cfg = AppConfig::default();
    let file = FileConfig {
        server: Some(ServerFile { port: Some(8000), memory: None, daemon: Some(true) }),
        persistence: Some(PersistenceFile {
            enabled: Some(true),
            data_dir: Some("/data".to_string()),
            snapshot_interval: None,
            wal_disabled: None,
            wal_max_mb: Some(10),
            no_compress_snapshots: None,
        }),
        gossip: Some(GossipFile {
            enabled: None,
            port: Some(9000),
            interval: None,
            fanout: Some(4),
            suspicion_timeout: None,
            failure_timeout: None,
            failure_check_interval: None,
        }),
        logging: None,
        hot_cache: None,
    };
    apply_file(&mut cfg, &file);
    assert_eq!(cfg.port, 8000);
    assert_eq!(cfg.memory_mb, 64);
    assert!(cfg.daemon);
    assert!(cfg.persistence.enabled);
    assert_eq!(cfg.persistence.wal_max_mb, Some(10));
    assert_eq!(cfg.gossip.fanout, Some(4));

    let mut env = EnvSettings::empty();
    env.port = Some("8100".to_string());
    env.memory_mb = Some("not a number".to_string());
    env.log_level = Some("   ".to_string());
    env.gossip_enabled = Some("true".to_string());
    env.persistence_data_dir = Some("/env".to_string());
    apply_env(&mut cfg, &env);
    assert_eq!(cfg.port, 8100);
    assert_eq!(cfg.memory_mb, 64);
    assert_eq!(cfg.log_level, None);
    assert!(cfg.gossip.enabled);
    assert_eq!(cfg.persistence.data_dir, Some("/env".to_string()));
}

#[test]
fn config_load_precedence() {
    let file = FileConfig {
        server: Some(ServerFile { port: Some(1), memory: Some(2), daemon: None }),
        persistence: None,
        gossip: None,
        logging: None,
        hot_cache: None,
    };
    let mut env = EnvSettings::empty();
    env.port = Some("3".to_string());
    let cfg = AppConfig::load(&file, &env, &args(&["prog", "--port", "4"]));
    assert_eq!(cfg.port, 4);
    assert_eq!(cfg.memory_mb, 2);
    let cfg = AppConfig::load(&file, &env, &args(&["prog"]));
    assert_eq!(cfg.port, 3);
    let cfg = AppConfig::load(&FileConfig::empty(), &EnvSettings::empty(), &args(&["prog"]));
    assert_eq!(cfg.port, 6784);
}

#[test]
fn test_get_optimal_worker_count() {
    let count = get_optimal_worker_count();
    assert!(count >= 1);
    let cpu_count = num_cpus::get();
    assert!(count <= cpu_count);
    if cpu_count > 1 {
        assert_eq!(count, cpu_count - 1);
    }
}

#[test]
fn worker_count_leaves_one_cpu_to_the_system() {
    assert_eq!(worker_count_for(0), 1);
    assert_eq!(worker_count_for(1), 1);
    assert_eq!(worker_count_for(2), 1);
    assert_eq!(worker_count_for(8), 7);
}

#[test]
fn test_from_serde_json_error() {
    let json_err = serde_json::from_str::<serde_json::Value>("invalid json").unwrap_err();
    let blaze_err: BlazeCacheError = json_err.into();
    match blaze_err {
        BlazeCacheError::SerializationError(_) => {}
        _ => panic!("Expected SerializationError"),
    }
}

#[test]
fn test_from_cbor_error() {
    let data = vec![0xFF; 100];
    let result: std::result::Result<u32, _> = ciborium::de::from_reader(&data[..]);
    if let Err(cbor_err) = result {
        let blaze_err: BlazeCacheError = cbor_err.into();
        match blaze_err {
            BlazeCacheError::SerializationError(_) => {}
            _ => panic!("Expected SerializationError"),
        }
    }
}
