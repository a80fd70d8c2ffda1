use pq_tunnel_core::net::PeerAddr;
use pq_tunnel_core::rate::{BucketLimits, BucketTable, PRUNE_ABOVE};
use pq_tunnel_core::time::{Duration, Instant};

fn at(millis: u64) -> Instant {
    Instant::from_origin(Duration::from_millis(millis))
}

fn source(n: u32) -> PeerAddr {
    PeerAddr::V4 { ip: n, port: 7 }
}

fn limits(burst: u32, window_ms: u64, cap: usize) -> BucketLimits {
    BucketLimits { burst, window: Duration::from_millis(window_ms), cap }
}

#[test]
fn bucket_empties_and_refills_after_its_window() {
    let l = limits(2, 1000, 16);
    let mut table = BucketTable::new();
    assert!(table.take(source(1), at(0), &l));
    assert!(table.take(source(1), at(10), &l));
    assert!(!table.take(source(1), at(20), &l));
    assert!(!table.take(source(1), at(999), &l));
    assert!(table.take(source(1), at(1000), &l));
    assert!(table.take(source(1), at(1999), &l));
    assert!(!table.take(source(1), at(1999), &l));
}

#[test]
fn budgets_of_sources_are_independent() {
    let l = limits(1, 1000, 16);
    let mut table = BucketTable::new();
    assert!(table.take(source(1), at(0), &l));
    assert!(!table.take(source(1), at(1), &l));
    assert!(table.take(source(2), at(1), &l));
    assert!(!table.take(source(1), at(2), &l));
    assert_eq!(table.len(), 2);
}

#[test]
fn peeking_spends_nothing_and_consuming_spends_one() {
    let l = limits(2, 1000, 16);
    let mut table = BucketTable::new();
    table.consume(source(1));
    assert_eq!(table.len(), 0);
    for _ in 0..5 {
        assert!(table.peek(source(1), at(0), &l));
    }
    table.consume(source(1));
    assert!(table.peek(source(1), at(1), &l));
    table.consume(source(1));
    assert!(!table.peek(source(1), at(2), &l));
    table.consume(source(1));
    assert!(!table.peek(source(1), at(3), &l));
    assert!(table.peek(source(1), at(1000), &l));
}

#[test]
fn full_table_evicts_the_stalest_bucket() {
    let l = limits(1, 1_000_000, 3);
    let mut table = BucketTable::new();
    for n in 1..=3u32 {
        assert!(table.take(source(n), at(n as u64), &l));
    }
    assert_eq!(table.len(), 3);
    assert!(table.take(source(4), at(4), &l));
    assert_eq!(table.len(), 3);
    assert!(!table.take(source(4), at(5), &l));
    assert_eq!(table.len(), 3, "a source with a bucket needs no room");
    assert!(!table.take(source(2), at(6), &l), "no other source lost its bucket");
    assert!(table.take(source(1), at(7), &l), "the stalest bucket was evicted");
    assert_eq!(table.len(), 3);
    assert!(table.take(source(2), at(8), &l), "now the next stalest one was");
}

#[test]
fn exhausted_source_stays_exhausted_in_a_full_table() {
    let l = limits(1, 1000, 1);
    let mut table = BucketTable::new();
    assert!(table.take(source(1), at(0), &l));
    for t in 1..5u64 {
        assert!(!table.peek(source(1), at(t), &l));
        assert!(!table.take(source(1), at(t), &l));
    }
    assert_eq!(table.len(), 1);
    assert!(table.peek(source(1), at(1000), &l));
}

#[test]
fn stale_buckets_are_pruned_above_the_threshold() {
    let l = limits(1, 100, 1000);
    let mut table = BucketTable::new();
    let n = PRUNE_ABOVE as u32;
    for k in 0..=n {
        assert!(table.take(source(k), at(0), &l));
    }
    assert_eq!(table.len(), PRUNE_ABOVE + 1);
    assert!(table.take(source(n + 1), at(100), &l));
    assert_eq!(table.len(), 1);
}

#[test]
fn fresh_buckets_survive_pruning() {
    let l = limits(1, 100, 1000);
    let mut table = BucketTable::new();
    for k in 0..40u32 {
        assert!(table.take(source(k), at(k as u64), &l));
    }
    assert!(!table.take(source(39), at(120), &l), "its window still runs");
    assert!(table.take(source(0), at(120), &l), "its window is over");
}
