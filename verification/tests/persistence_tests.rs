use blazecache::cache::Value;
use blazecache::utils::config::PersistenceSection;
use blazecache::utils::persistence::{
    frame_wal_record, is_wal_backup, persistence_config_from, split_wal_records, wal_backup_name, wal_put_entry,
    backup_time_of, rotated_logs_oldest_first, wal_entry_for_at, wal_put_entry_at, EntryMap, PersistenceConfig, WalAccounting, WalEntry,
};
use blazecache::transports::common::Command;
use blazecache::utils::time::current_timestamp;

#[test]
fn persistence_config_default() {
    let cfg = PersistenceConfig::default();
    assert!(!cfg.enabled);
    assert_eq!(cfg.data_dir, "./data");
    assert_eq!(cfg.max_wal_size_bytes, 100 * 1024 * 1024);
    assert_eq!(cfg.snapshot_interval_secs, 300);
    assert!(cfg.wal_enabled);
    assert!(cfg.compress_snapshots);
}

#[test]
fn wal_records_round_trip() {
    let mut log = Vec::new();
    log.extend(frame_wal_record(b"abc"));
    log.extend(frame_wal_record(b""));
    log.extend(frame_wal_record(&[9u8; 300]));
    assert_eq!(&log[0..4], &[3, 0, 0, 0]);
    let payloads = split_wal_records(&log).unwrap();
    assert_eq!(payloads, vec![b"abc".to_vec(), Vec::new(), vec![9u8; 300]]);
}

#[test]
fn wal_cut_short_prefix_ends_log_but_payload_is_an_error() {
    let mut log = frame_wal_record(b"abc");
    log.extend_from_slice(&[1, 0]);
    assert_eq!(split_wal_records(&log).unwrap(), vec![b"abc".to_vec()]);
    let bad = vec![5u8, 0, 0, 0, 1, 2];
    let err = split_wal_records(&bad).unwrap_err();
    assert_eq!(err.to_string(), "Network error: WAL read failed: failed to fill whole buffer");
    assert!(split_wal_records(&[]).unwrap().is_empty());
}

#[test]
fn wal_replay_applies_changes_in_order() {
    let mut map = EntryMap::new();
    map.replay(vec![
        WalEntry::Put { key: "a".to_string(), value: Value::new_at(b"1".to_vec(), 0, 0) },
        WalEntry::Put { key: "b".to_string(), value: Value::new_at(b"2".to_vec(), 0, 0) },
        WalEntry::Put { key: "a".to_string(), value: Value::new_at(b"3".to_vec(), 0, 0) },
        WalEntry::Delete { key: "b".to_string() },
    ]);
    assert_eq!(map.len(), 1);
    assert_eq!(map.get("a").unwrap().data, b"3".to_vec());
    assert!(map.get("b").is_none());
    map.apply(WalEntry::Clear);
    assert_eq!(map.len(), 0);
}

#[test]
fn wal_put_entry_expires_ttl_after_now() {
    match wal_put_entry_at("k".to_string(), b"v".to_vec(), 30, 1000) {
        WalEntry::Put { key, value } => {
            assert_eq!(key, "k");
            assert_eq!(value.data, b"v".to_vec());
            assert_eq!(value.expire, 1030);
            assert_eq!(value.last_access, 1000);
        }
        _ => panic!("Expected Put"),
    }
    match wal_put_entry_at("k".to_string(), vec![0u8; 2000], 0, 1000) {
        WalEntry::Put { value, .. } => {
            assert_eq!(value.expire, 0);
            assert!(value.compressed);
            assert_eq!(value.get_data().unwrap(), vec![0u8; 2000]);
        }
        _ => panic!("Expected Put"),
    }
    let before = current_timestamp();
    match wal_put_entry("k".to_string(), b"v".to_vec(), 30) {
        WalEntry::Put { value, .. } => {
            assert!(value.expire >= before + 30);
            assert!(value.expire <= current_timestamp() + 30);
        }
        _ => panic!("Expected Put"),
    }
}

#[test]
fn only_successful_changes_are_logged() {
    match wal_entry_for_at(Command::Put("k".to_string(), b"v".to_vec(), 5), true, 100) {
        Some(WalEntry::Put { key, value }) => {
            assert_eq!(key, "k");
            assert_eq!(value.data, b"v".to_vec());
            assert_eq!(value.expire, 105);
        }
        _ => panic!("Expected Put"),
    }
    assert!(wal_entry_for_at(Command::Put("k".to_string(), b"v".to_vec(), 5), false, 100).is_none());
    match wal_entry_for_at(Command::Delete("k".to_string()), true, 100) {
        Some(WalEntry::Delete { key }) => assert_eq!(key, "k"),
        _ => panic!("Expected Delete"),
    }
    assert!(wal_entry_for_at(Command::Delete("k".to_string()), false, 100).is_none());
    assert!(matches!(wal_entry_for_at(Command::Clear, true, 100), Some(WalEntry::Clear)));
    assert!(wal_entry_for_at(Command::Get("k".to_string()), true, 100).is_none());
    assert!(wal_entry_for_at(Command::Ping, true, 100).is_none());
    assert!(wal_entry_for_at(Command::Stats, true, 100).is_none());
    assert!(wal_entry_for_at(Command::Peer, true, 100).is_none());
}

#[test]
fn persistence_flags_disable_what_they_name() {
    let mut section = PersistenceSection {
        enabled: true,
        data_dir: None,
        snapshot_interval: None,
        wal_disabled: None,
        wal_max_mb: None,
        no_compress_snapshots: None,
    };
    assert!(persistence_config_from(&section).wal_enabled);
    assert!(persistence_config_from(&section).compress_snapshots);
    section.wal_disabled = Some(true);
    section.no_compress_snapshots = Some(true);
    let cfg = persistence_config_from(&section);
    assert!(!cfg.wal_enabled);
    assert!(!cfg.compress_snapshots);
    section.wal_disabled = Some(false);
    section.no_compress_snapshots = Some(false);
    let cfg = persistence_config_from(&section);
    assert!(cfg.wal_enabled);
    assert!(cfg.compress_snapshots);
}

#[test]
fn wal_accounting_rotates_past_limit() {
    let mut cfg = PersistenceConfig::default();
    cfg.enabled = true;
    cfg.max_wal_size_bytes = 10;
    let mut acc = WalAccounting::new(&cfg, 0);
    assert!(acc.logs());
    assert!(!acc.record_written(6));
    assert!(acc.record_written(1));
    assert_eq!(acc.wal_size, 15);
    acc.reset();
    assert_eq!(acc.wal_size, 0);
    let off = WalAccounting::new(&PersistenceConfig::default(), 0);
    assert!(!off.logs());
}

#[test]
fn wal_backup_names() {
    assert_eq!(wal_backup_name(1700000000), "cache.wal.1700000000");
    assert!(is_wal_backup("cache.wal.1"));
    assert!(is_wal_backup("cache.wal."));
    assert!(!is_wal_backup("cache.wal"));
    assert!(!is_wal_backup("cache.snapshot"));
}

#[test]
fn rotated_logs_replay_oldest_first() {
    let names: Vec<String> = ["cache.wal.200", "cache.wal", "cache.snapshot", "cache.wal.30", "cache.wal.x", "cache.wal.1000", "cache.wal.30"]
        .iter()
        .map(|s| s.to_string())
        .collect();
    assert_eq!(
        rotated_logs_oldest_first(&names),
        vec!["cache.wal.30", "cache.wal.30", "cache.wal.200", "cache.wal.1000"]
    );
    assert_eq!(backup_time_of("cache.wal.42"), Some(42));
    assert_eq!(backup_time_of("cache.wal."), None);
    assert_eq!(backup_time_of("cache.wal"), None);
    assert!(rotated_logs_oldest_first(&Vec::new()).is_empty());
}
