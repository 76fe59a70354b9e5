use blazecache::perf::parse_byte_size;
use blazecache::perf::stats::{OpenOperationStats, OperationStats};

#[test]
fn byte_sizes_with_suffixes() {
    assert_eq!(parse_byte_size("1k").unwrap(), 1024);
    assert_eq!(parse_byte_size("10M").unwrap(), 10 * 1024 * 1024);
    assert_eq!(parse_byte_size(" 2g ").unwrap(), 2 * 1024 * 1024 * 1024);
    assert_eq!(parse_byte_size("3T").unwrap(), 3 * 1024u64.pow(4));
    assert_eq!(parse_byte_size("512").unwrap(), 512);
    assert!(parse_byte_size("k").is_err());
    assert!(parse_byte_size("").is_err());
    assert!(parse_byte_size("12x").is_err());
}

#[test]
fn operation_statistics() {
    let mut open = OpenOperationStats::new();
    let put = open.new_put(100);
    let get = open.new_get(200);
    assert_eq!((put, get), (0, 1));
    let mut op: OperationStats = open.get(get);
    assert!(!op.is_put);
    op.on_first_byte(15);
    op.on_bytes(50);
    op.on_bytes(150);
    op.finish(900);
    open.set(get, op);
    let all = open.take_interval();
    assert_eq!(all.len(), 2);
    assert_eq!(all[1].bytes, 200);
    assert_eq!(all[1].first_byte_latency, 15);
    assert_eq!(all[1].duration, 900);
    assert!(all[1].finished);
    assert_eq!(open.len(), 1);
    assert!(open.get(0).is_put);
}

#[test]
fn load_test_options_defaults() {
    let o = blazecache::perf::client_rust::Opt::with_defaults();
    assert_eq!(o.server, "127.0.0.1:6793");
    assert_eq!(o.transport, "udp");
    assert_eq!(o.value_size, 1024);
    let g = blazecache::perf::client_go::Opt::with_defaults();
    assert_eq!(g.concurrency, 100);
    assert_eq!(g.duration, 60);
}
