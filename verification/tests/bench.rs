use rushdb::bench::{max_nanos, min_nanos, total_nanos, Config};

#[test]
fn min_max_total() {
    let l = [5u128, 3, 9, 3, 7];
    assert_eq!(min_nanos(&l), 3);
    assert_eq!(max_nanos(&l), 9);
    assert_eq!(total_nanos(&l), 27);
}

#[test]
fn empty_latencies() {
    assert_eq!(min_nanos(&[]), 0);
    assert_eq!(max_nanos(&[]), 0);
    assert_eq!(total_nanos(&[]), 0);
}

#[test]
fn default_bench_config() {
    let c = Config::default();
    assert_eq!(c.host, "127.0.0.1");
    assert_eq!(c.port, 6080);
    assert_eq!(c.requests, 1_000_000);
    assert_eq!(c.concurrency, 200);
    assert_eq!(c.value_size, 64);
    assert_eq!(c.threads, 1);
}
