use blazecache::cache::cache::{fits, CacheStats};
use blazecache::cache::group::ReadStep;
use blazecache::cache::{compress, decompress, should_compress, Cache, Group, MemoryPool, Value};
use blazecache::utils::error::BlazeCacheError;
use blazecache::utils::time::current_timestamp;
use std::time::{SystemTime, UNIX_EPOCH};

#[test]
fn test_should_compress() {
    assert!(!should_compress(&vec![0; 1024]));
    assert!(should_compress(&vec![0; 1025]));
    assert!(!should_compress(&vec![0; 512]));
    assert!(!should_compress(&[]));
}

#[test]
fn compress_round_trips_through_decompress() {
    let data = vec![7u8; 4096];
    let packed = compress(&data).unwrap();
    assert!(packed.len() < data.len());
    assert_eq!(decompress(&packed).unwrap(), data);
}

#[test]
fn decompress_refuses_garbage() {
    assert!(decompress(&[4, 0, 0, 0, 0xff, 0xff]).is_err());
    assert!(decompress(&[1, 0]).is_err());
}

#[test]
fn test_value_new() {
    let value = Value::new(b"test".to_vec(), 0);
    assert_eq!(value.data, b"test");
    assert_eq!(value.expire, 0);
    assert_eq!(value.access_count, 1);
    assert!(!value.compressed);
}

#[test]
fn test_value_is_expired_no_ttl() {
    let value = Value::new(b"test".to_vec(), 0);
    assert!(!value.is_expired());
}

#[test]
fn test_value_access() {
    let mut value = Value::new(b"test".to_vec(), 0);
    let initial_count = value.access_count;
    value.access();
    assert_eq!(value.access_count, initial_count + 1);
}

#[test]
fn test_value_is_hot() {
    let mut value = Value::new(b"test".to_vec(), 0);
    assert!(!value.is_hot(5, 60));
    for _ in 0..10 {
        value.access();
    }
    assert!(value.is_hot(5, 60));
}

#[test]
fn test_value_is_hot_low_count() {
    let value = Value::new(b"test".to_vec(), 0);
    assert!(!value.is_hot(5, 60));
}

#[test]
fn test_value_debug() {
    let value = Value::new(b"test".to_vec(), 0);
    let _ = format!("{:?}", value);
}

#[test]
fn value_expiry_is_strictly_after_the_expiry_time() {
    let value = Value::new_at(b"x".to_vec(), 100, 50);
    assert!(!value.is_expired_at(100));
    assert!(value.is_expired_at(101));
    assert_eq!(value.last_access, 50);
}

#[test]
fn value_compresses_large_data_and_reads_it_back() {
    let mut value = Value::new(vec![0u8; 2000], 0);
    value.compress_if_needed().unwrap();
    assert!(value.compressed);
    assert!(value.data.len() < 2000);
    assert_eq!(value.get_data().unwrap(), vec![0u8; 2000]);
}

#[test]
fn value_keeps_small_data_uncompressed() {
    let mut value = Value::new(b"small".to_vec(), 0);
    value.compress_if_needed().unwrap();
    assert!(!value.compressed);
    assert_eq!(value.get_data().unwrap(), b"small".to_vec());
}

#[test]
fn value_hotness_depends_on_age() {
    let mut value = Value::new_at(b"x".to_vec(), 0, 1000);
    for _ in 0..10 {
        value.access_at(1000);
    }
    assert!(value.is_hot_at(5, 60, 1060));
    assert!(!value.is_hot_at(5, 60, 1061));
}

#[test]
fn cache_put_then_get_returns_value() {
    let mut cache = Cache::new(1024);
    cache.put_at("k".to_string(), b"v".to_vec(), 0, 10).unwrap();
    assert_eq!(cache.get_at("k", 20).unwrap(), Some(b"v".to_vec()));
    assert_eq!(cache.len(), 1);
    let stats = cache.stats();
    assert_eq!(stats.puts, 1);
    assert_eq!(stats.hits, 1);
    assert_eq!(stats.entry_count, 1);
    // key bytes (1) + charged size (1 + 1 + 64)
    assert_eq!(stats.memory_usage, 67);
}

#[test]
fn cache_get_missing_key_is_a_miss() {
    let mut cache = Cache::new(1024);
    assert_eq!(cache.get_at("nope", 0).unwrap(), None);
    assert_eq!(cache.stats().misses, 1);
}

#[test]
fn cache_refuses_item_too_large() {
    let mut cache = Cache::new(100);
    let err = cache.put_at("key".to_string(), vec![0u8; 40], 0, 0).unwrap_err();
    assert_eq!(err, BlazeCacheError::ItemTooLarge { item_size: 107, max_size: 100 });
    assert_eq!(cache.stats().rejected_items, 1);
    assert!(cache.is_empty());
}

#[test]
fn cache_put_of_present_key_replaces_value_and_expiry() {
    let mut cache = Cache::new(1024);
    cache.put_at("k".to_string(), b"first".to_vec(), 10, 0).unwrap();
    cache.put_at("other".to_string(), b"o".to_vec(), 0, 0).unwrap();
    cache.put_at("k".to_string(), b"second".to_vec(), 0, 5).unwrap();
    assert_eq!(cache.get_at("k", 100).unwrap(), Some(b"second".to_vec()));
    assert_eq!(cache.len(), 2);
    assert_eq!(cache.stats().puts, 3);
    cache.put_at("k".to_string(), b"third".to_vec(), 10, 100).unwrap();
    assert_eq!(cache.get_at("k", 110).unwrap(), Some(b"third".to_vec()));
    assert_eq!(cache.get_at("k", 111).unwrap(), None);
}

#[test]
fn cache_evicts_least_recently_used() {
    // each item: 1 key byte + 1 value byte + 64 = 66; capacity fits two
    let mut cache = Cache::new(140);
    cache.put_at("a".to_string(), vec![1], 0, 0).unwrap();
    cache.put_at("b".to_string(), vec![2], 0, 0).unwrap();
    cache.put_at("c".to_string(), vec![3], 0, 0).unwrap();
    assert_eq!(cache.get_at("a", 0).unwrap(), None);
    assert_eq!(cache.get_at("c", 0).unwrap(), Some(vec![3]));
    assert!(cache.stats().evictions >= 1);
}

#[test]
fn cache_expired_entry_is_removed_on_read() {
    let mut cache = Cache::new(1024);
    cache.put_at("k".to_string(), b"v".to_vec(), 5, 100).unwrap();
    assert_eq!(cache.get_at("k", 105).unwrap(), Some(b"v".to_vec()));
    assert_eq!(cache.get_at("k", 106).unwrap(), None);
    assert_eq!(cache.len(), 0);
}

#[test]
fn cache_delete_reports_presence() {
    let mut cache = Cache::new(1024);
    cache.put_at("k".to_string(), b"v".to_vec(), 0, 0).unwrap();
    assert_eq!(cache.delete("k").unwrap(), true);
    assert_eq!(cache.delete("k").unwrap(), false);
    assert_eq!(cache.get_at("k", 0).unwrap(), None);
    assert_eq!(cache.stats().deletes, 1);
}

#[test]
fn cache_cleanup_removes_only_expired() {
    let mut cache = Cache::new(4096);
    cache.put_at("short".to_string(), b"1".to_vec(), 10, 0).unwrap();
    cache.put_at("long".to_string(), b"2".to_vec(), 1000, 0).unwrap();
    cache.put_at("forever".to_string(), b"3".to_vec(), 0, 0).unwrap();
    assert_eq!(cache.cleanup_expired_at(500), 1);
    assert_eq!(cache.len(), 2);
    assert_eq!(cache.stats().ttl_evictions, 1);
    assert_eq!(cache.cleanup_expired_at(500), 0);
}

#[test]
fn cache_clear_empties_everything() {
    let mut cache = Cache::new(4096);
    cache.put_at("a".to_string(), b"1".to_vec(), 0, 0).unwrap();
    cache.clear();
    assert!(cache.is_empty());
    let stats: CacheStats = cache.stats();
    assert_eq!(stats.entry_count, 0);
    assert_eq!(stats.memory_usage, 0);
    assert_eq!(stats.puts, 1);
}

#[test]
fn cache_hot_items_are_not_tracked() {
    let cache = Cache::new(1024);
    assert!(cache.get_hot_items(10, 60).is_empty());
}

#[test]
fn cache_reordering_after_many_reads_keeps_values() {
    let mut cache = Cache::new(1 << 20);
    for i in 0..150u32 {
        cache.put_at(format!("k{}", i), vec![i as u8], 0, 0).unwrap();
    }
    for i in 0..150u32 {
        assert_eq!(cache.get_at(&format!("k{}", i), 1).unwrap(), Some(vec![i as u8]));
    }
    assert_eq!(cache.len(), 150);
}

#[test]
fn group_reads_main_then_hot_cache() {
    let mut group = Group::new("g".to_string(), 8192, "127.0.0.1:1".to_string());
    assert_eq!(group.name(), "g");
    assert_eq!(group.get_local_at("", 0), Err(BlazeCacheError::KeyEmpty));
    assert_eq!(group.get_local_at("k", 0).unwrap(), None);
    group.store_fetched("k".to_string(), b"remote".to_vec()).unwrap();
    assert_eq!(group.hot_cache_len(), 1);
    assert_eq!(group.get_local("k").unwrap(), Some(b"remote".to_vec()));
    group.store_local("k".to_string(), b"local".to_vec(), 0).unwrap();
    assert_eq!(group.get_local("k").unwrap(), Some(b"local".to_vec()));
}

#[test]
fn group_delete_clears_both_caches() {
    let mut group = Group::new("g".to_string(), 8192, String::new());
    group.store_loaded("k".to_string(), b"a".to_vec()).unwrap();
    group.store_after_remote_set("k".to_string(), b"b".to_vec()).unwrap();
    assert_eq!(group.delete_local("k").unwrap(), (true, true));
    assert_eq!(group.main_cache_len(), 0);
    assert_eq!(group.hot_cache_len(), 0);
    assert_eq!(Group::delete_outcome(None, false, false), Ok(false));
    assert_eq!(Group::delete_outcome(Some(Ok(())), false, false), Ok(true));
    assert_eq!(Group::delete_outcome(Some(Err(BlazeCacheError::KeyNotFound)), true, false), Ok(true));
    assert_eq!(Group::delete_outcome(Some(Err(BlazeCacheError::Timeout)), true, true), Err(BlazeCacheError::Timeout));
}

#[test]
fn group_knows_its_own_address() {
    let group = Group::new("g".to_string(), 1024, "10.0.0.1:7000".to_string());
    assert!(group.is_local_peer("10.0.0.1:7000"));
    assert!(!group.is_local_peer("10.0.0.2:7000"));
    let anonymous = Group::new("g".to_string(), 1024, String::new());
    assert!(!anonymous.is_local_peer(""));
    assert!(Group::check_key("").is_err());
    assert!(Group::check_key("x").is_ok());
}

#[test]
fn group_replication_helpers() {
    let mut group = Group::with_write_through("g".to_string(), 8192, String::new());
    assert!(group.has_write_through());
    group.store_loaded("k".to_string(), b"v".to_vec()).unwrap();
    assert_eq!(group.get_hot_item_for_replication("k"), Some(b"v".to_vec()));
    assert_eq!(group.get_hot_item_for_replication("missing"), None);
    group.replicate_hot_item("h", b"w".to_vec());
    assert_eq!(group.hot_cache_len(), 1);
    assert!(group.get_hot_items().is_empty());
    assert_eq!(group.stats().puts, 1);
    group.clear();
    assert_eq!(group.main_cache_len() + group.hot_cache_len(), 0);
}

#[test]
fn test_compress_decompress_small_data() {
    let data = b"Hello, World!";
    let compressed = compress(data).unwrap();
    let decompressed = decompress(&compressed).unwrap();
    assert_eq!(data.to_vec(), decompressed);
    assert!(compressed.len() > 0);
}

#[test]
fn test_compress_decompress_large_data() {
    let data = vec![b'A'; 2048];
    let compressed = compress(&data).unwrap();
    let decompressed = decompress(&compressed).unwrap();
    assert_eq!(data, decompressed);
    assert!(compressed.len() < data.len());
}

#[test]
fn test_compress_decompress_random_data() {
    let data: Vec<u8> = (0..1000).map(|i| (i % 256) as u8).collect();
    let compressed = compress(&data).unwrap();
    let decompressed = decompress(&compressed).unwrap();
    assert_eq!(data, decompressed);
}

#[test]
fn test_compress_empty_data() {
    let data = b"";
    let compressed = compress(data).unwrap();
    let decompressed = decompress(&compressed).unwrap();
    assert_eq!(data.to_vec(), decompressed);
}

#[test]
fn test_decompress_invalid_data() {
    let invalid_data = vec![0xFF, 0xFF, 0xFF, 0xFF];
    let result = decompress(&invalid_data);
    assert!(result.is_err());
    match result {
        Err(BlazeCacheError::CompressionError(_)) => {}
        _ => panic!("Expected CompressionError"),
    }
}

#[test]
fn test_compress_highly_compressible() {
    let data = vec![b'A'; 10000];
    let compressed = compress(&data).unwrap();
    let decompressed = decompress(&compressed).unwrap();
    assert_eq!(data, decompressed);
    assert!(compressed.len() < data.len() / 10);
}

#[test]
fn test_compress_binary_data() {
    let data: Vec<u8> = (0..=255).cycle().take(2000).collect();
    let compressed = compress(&data).unwrap();
    let decompressed = decompress(&compressed).unwrap();
    assert_eq!(data, decompressed);
}

#[test]
fn test_value_new_with_ttl() {
    let ttl = current_timestamp() + 100;
    let value = Value::new(b"test".to_vec(), ttl);
    assert_eq!(value.expire, ttl);
}

#[test]
fn test_value_get_data_uncompressed() {
    let value = Value::new(b"test data".to_vec(), 0);
    let data = value.get_data().unwrap();
    assert_eq!(data, b"test data");
}

#[test]
fn test_value_get_data_compressed() {
    let mut value = Value::new(vec![0u8; 2000], 0);
    value.compress_if_needed().unwrap();
    assert!(value.compressed);
    let data = value.get_data().unwrap();
    assert_eq!(data.len(), 2000);
}

#[test]
fn test_value_is_expired_future() {
    let ttl = current_timestamp() + 1000;
    let value = Value::new(b"test".to_vec(), ttl);
    assert!(!value.is_expired());
}

#[test]
fn test_value_is_expired_past() {
    let ttl = current_timestamp() - 100;
    let value = Value::new(b"test".to_vec(), ttl);
    assert!(value.is_expired());
}

#[test]
fn test_value_is_hot_old() {
    let mut value = Value::new(b"test".to_vec(), 0);
    for _ in 0..10 {
        value.access();
    }
    value.last_access = current_timestamp() - 100;
    assert!(!value.is_hot(5, 60));
}

#[test]
fn test_value_compress_if_needed_small() {
    let mut value = Value::new(b"small".to_vec(), 0);
    value.compress_if_needed().unwrap();
    assert!(!value.compressed);
}

#[test]
fn test_value_compress_if_needed_large() {
    let mut value = Value::new(vec![0u8; 2000], 0);
    value.compress_if_needed().unwrap();
    assert!(value.compressed);
}

#[test]
fn test_value_compress_if_needed_already_compressed() {
    let mut value = Value::new(vec![0u8; 2000], 0);
    value.compress_if_needed().unwrap();
    assert!(value.compressed);
    let compressed_data = value.data.clone();
    value.compress_if_needed().unwrap();
    assert_eq!(value.data, compressed_data);
}

#[test]
fn test_value_clone() {
    let value1 = Value::new(b"test".to_vec(), 100);
    let value2 = value1.clone();
    assert_eq!(value1.data, value2.data);
    assert_eq!(value1.expire, value2.expire);
    assert_eq!(value1.access_count, value2.access_count);
}

#[test]
fn test_current_timestamp() {
    let timestamp = current_timestamp();
    let system_time = SystemTime::now().duration_since(UNIX_EPOCH).unwrap().as_secs();
    assert!(timestamp <= system_time + 5);
    assert!(timestamp >= system_time - 5);
}

#[test]
fn get_buffer_has_requested_capacity() {
    let mut pool = MemoryPool::new(1024, 2);
    let buf = pool.get_buffer();
    assert!(buf.capacity() >= 1024);
}

#[test]
fn return_buffer_clears_before_reuse() {
    let mut pool = MemoryPool::new(256, 0);
    let mut b = pool.get_buffer();
    b.extend_from_slice(&[1, 2, 3, 4, 5]);
    assert_eq!(b.len(), 5);
    pool.return_buffer(b);
    let b2 = pool.get_buffer();
    assert_eq!(b2.len(), 0);
    assert!(b2.capacity() >= 256);
}

#[test]
fn pool_keeps_at_most_a_hundred_buffers() {
    let mut pool = MemoryPool::new(16, 100);
    assert_eq!(pool.len(), 100);
    pool.return_buffer(bytes::BytesMut::with_capacity(16));
    assert_eq!(pool.len(), 100);
    let b = pool.get_buffer();
    assert_eq!(pool.len(), 99);
    pool.return_buffer(b);
    assert_eq!(pool.len(), 100);
    pool.return_buffer_of_capacity(bytes::BytesMut::new(), 8);
    assert_eq!(pool.len(), 100);
}

#[test]
fn pool_drops_small_buffers() {
    let mut pool = MemoryPool::new(64, 0);
    pool.return_buffer_of_capacity(bytes::BytesMut::new(), 63);
    assert_eq!(pool.len(), 0);
    pool.return_buffer_of_capacity(bytes::BytesMut::from(&b"abc"[..]), 64);
    assert_eq!(pool.len(), 1);
    assert_eq!(pool.get_buffer().len(), 0);
    assert_eq!(pool.len(), 0);
}

#[test]
fn cache_sweep_interval_defaults_to_a_minute_and_can_be_set() {
    let cache = Cache::new(1024);
    assert_eq!(cache.cleanup_interval(), std::time::Duration::from_secs(60));
    let cache = cache.with_cleanup_interval(std::time::Duration::from_secs(5));
    assert_eq!(cache.cleanup_interval(), std::time::Duration::from_secs(5));
}

#[test]
fn cache_sweep_now_keeps_unexpired_entries() {
    let mut cache = Cache::new(4096);
    cache.put("forever".to_string(), b"a".to_vec(), 0).unwrap();
    cache.put("later".to_string(), b"b".to_vec(), 3600).unwrap();
    assert_eq!(cache.cleanup_expired(), 0);
    assert_eq!(cache.len(), 2);
}

fn loaded_value(key: &str) -> Vec<u8> {
    format!("data-{}", key).into_bytes()
}

#[test]
fn group_multi_read_mixed_cache() {
    let mut group = Group::new("test".to_string(), 10 * 1024 * 1024, "127.0.0.1:8080".to_string());
    assert_eq!(group.keep_loaded("key1".to_string(), Ok(loaded_value("key1"))).unwrap(), loaded_value("key1"));
    let keys = vec!["key1".to_string(), "key2".to_string()];
    let (found, misses) = group.cached_many(&keys);
    assert_eq!(found, vec![("key1".to_string(), loaded_value("key1"))]);
    assert_eq!(misses, vec!["key2".to_string()]);
    let loaded: Vec<_> = misses.iter().map(|k| group.keep_loaded(k.clone(), Ok(loaded_value(k)))).collect();
    let results = Group::merge_loaded(&misses, found, loaded);
    assert!(results.len() >= 1);
    assert!(results.contains(&("key1".to_string(), loaded_value("key1"))));
    if results.len() == 2 {
        assert!(results.contains(&("key2".to_string(), loaded_value("key2"))));
    }
    // Both keys: one from the cache, one loaded.
    assert_eq!(results.len(), 2);
    assert_eq!(group.main_cache_len(), 2);
}

#[test]
fn merged_multi_read_pairs_loads_with_missed_keys() {
    let misses = vec!["a".to_string(), "c".to_string(), "d".to_string()];
    let found = vec![("b".to_string(), b"B".to_vec())];
    let loaded = vec![Ok(b"x".to_vec()), Err(BlazeCacheError::KeyNotFound), Ok(b"z".to_vec())];
    let mut results = Group::merge_loaded(&misses, found, loaded);
    results.sort();
    assert_eq!(
        results,
        vec![("a".to_string(), b"x".to_vec()), ("b".to_string(), b"B".to_vec()), ("d".to_string(), b"z".to_vec())]
    );
    let dup = vec![("k".to_string(), b"1".to_vec()), ("k".to_string(), b"2".to_vec())];
    assert_eq!(Group::merge_loaded(&Vec::new(), dup, Vec::new()), vec![("k".to_string(), b"2".to_vec())]);
}

#[test]
fn loading_keeps_values_that_fit() {
    let mut group = Group::new("g".to_string(), 800, String::new());
    assert_eq!(group.keep_loaded("k".to_string(), Err(BlazeCacheError::Timeout)).unwrap_err(), BlazeCacheError::Timeout);
    assert_eq!(group.main_cache_len(), 0);
    match group.keep_loaded("big".to_string(), Ok(vec![0u8; 1000])) {
        Err(BlazeCacheError::ItemTooLarge { .. }) => {}
        _ => panic!(),
    }
    assert_eq!(group.keep_loaded("k".to_string(), Ok(b"v".to_vec())).unwrap(), b"v".to_vec());
    assert_eq!(group.get_local("k").unwrap(), Some(b"v".to_vec()));
}

#[test]
fn read_steps_answer_locally_then_ask_the_owner_then_load() {
    let mut group = Group::new("g".to_string(), 4096, "127.0.0.1:1".to_string());
    assert_eq!(group.read_start("", None).unwrap_err(), BlazeCacheError::KeyEmpty);
    assert!(matches!(group.read_start("k", None).unwrap(), ReadStep::Load));
    assert!(matches!(group.read_start("k", Some("127.0.0.1:1".to_string())).unwrap(), ReadStep::Load));
    match group.read_start("k", Some("127.0.0.1:2".to_string())).unwrap() {
        ReadStep::AskOwner(a) => assert_eq!(a, "127.0.0.1:2"),
        _ => panic!("Expected to ask the owner"),
    }
    assert!(matches!(group.after_owner_reply("k".to_string(), Err(BlazeCacheError::KeyNotFound)).unwrap(), ReadStep::Load));
    match group.after_owner_reply("k".to_string(), Ok(b"v".to_vec())).unwrap() {
        ReadStep::Answer(d) => assert_eq!(d, b"v".to_vec()),
        _ => panic!("Expected an answer"),
    }
    assert_eq!(group.hot_cache_len(), 1);
    match group.read_start("k", Some("127.0.0.1:2".to_string())).unwrap() {
        ReadStep::Answer(d) => assert_eq!(d, b"v".to_vec()),
        _ => panic!("Expected a local answer"),
    }
    assert!(group.after_owner_reply("big".to_string(), Ok(vec![0u8; 5000])).is_err());
}

#[test]
fn writes_are_checked_before_storing() {
    assert_eq!(Group::check_write("", b"v").unwrap_err(), BlazeCacheError::KeyEmpty);
    assert!(Group::check_write("k", b"v").is_ok());
    assert!(fits("k", b"v"));
    let group = Group::new("g".to_string(), 4096, "a:1".to_string());
    assert_eq!(group.remote_owner(Some("a:1".to_string())), None);
    assert_eq!(group.remote_owner(Some("b:1".to_string())), Some("b:1".to_string()));
    assert_eq!(group.remote_owner(None), None);
    let no_address = Group::new("g".to_string(), 4096, String::new());
    assert_eq!(no_address.remote_owner(Some(String::new())), Some(String::new()));
}

#[test]
fn cache_put_refusal_counts_rejected_items() {
    let mut cache = Cache::new(100);
    assert!(cache.put("k".to_string(), vec![0u8; 200], 0).is_err());
    assert_eq!(cache.stats().rejected_items, 1);
    assert_eq!(cache.len(), 0);
}

#[test]
fn cache_reads_count_hits_and_misses() {
    let mut cache = Cache::new(4096);
    cache.put("a".to_string(), b"1".to_vec(), 0).unwrap();
    cache.put("b".to_string(), b"2".to_vec(), 0).unwrap();
    assert_eq!(cache.get("a").unwrap(), Some(b"1".to_vec()));
    assert_eq!(cache.get("missing").unwrap(), None);
    let st = cache.stats();
    assert_eq!(st.hits, 1);
    assert_eq!(st.misses, 1);
    assert_eq!(cache.len(), 2);
    assert_eq!(cache.get("b").unwrap(), Some(b"2".to_vec()));
}
