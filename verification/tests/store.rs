//! The partition-keyed store: isolation, read idempotence, and the
//! oldest-record accumulation.

use batcher::batch::{Entry, Partition, StoreImpl};
use batcher::Date;

fn entry(source: &str, day: u8, created: i64, payload: &str) -> Entry {
    let partition = Partition::new(source, Date::new(2024, 8, day));
    Entry::new(partition, created, payload)
}

#[test]
fn keeps_partitions_isolated() {
    let mut store = StoreImpl::new();
    store.add(entry("orders", 10, 100, "a"));
    store.add(entry("payments", 10, 200, "b"));
    store.add(entry("orders", 10, 300, "c"));
    store.add(entry("orders", 11, 400, "d"));

    let batches = store.batches();
    assert_eq!(batches.len(), 3);

    let orders_10: Vec<_> = batches
        .iter()
        .filter(|b| b.partition().source() == "orders" && b.partition().date().day == 10)
        .collect();
    assert_eq!(orders_10.len(), 1);
    assert_eq!(orders_10[0].records(), &["a".to_string(), "c".to_string()]);

    let payments: Vec<_> = batches
        .iter()
        .filter(|b| b.partition().source() == "payments")
        .collect();
    assert_eq!(payments.len(), 1);
    assert_eq!(payments[0].records(), &["b".to_string()]);

    let orders_11: Vec<_> = batches
        .iter()
        .filter(|b| b.partition().source() == "orders" && b.partition().date().day == 11)
        .collect();
    assert_eq!(orders_11.len(), 1);
    assert_eq!(orders_11[0].records(), &["d".to_string()]);
}

#[test]
fn one_batch_per_partition_however_often_entries_arrive() {
    let mut store = StoreImpl::new();
    for created in 0..5 {
        store.add(entry("orders", 10, created, "x"));
    }
    let batches = store.batches();
    assert_eq!(batches.len(), 1);
    assert_eq!(batches[0].record_count(), 5);
}

#[test]
fn reading_twice_without_adds_returns_the_same_content() {
    let mut store = StoreImpl::new();
    store.add(entry("orders", 10, 100, "a"));
    store.add(entry("orders", 10, 50, "b"));
    store.add(entry("payments", 10, 75, "c"));

    let first = store.batches();
    let second = store.batches();

    assert_eq!(first.len(), second.len());
    for (b1, b2) in first.iter().zip(second.iter()) {
        assert_eq!(b1.partition().source(), b2.partition().source());
        assert_eq!(b1.partition().date(), b2.partition().date());
        assert_eq!(b1.oldest_record(), b2.oldest_record());
        assert_eq!(b1.records(), b2.records());
    }
}

#[test]
fn oldest_record_is_the_minimum_created_timestamp() {
    let mut store = StoreImpl::new();
    store.add(entry("orders", 10, 500, "a"));
    store.add(entry("orders", 10, 20, "b"));
    store.add(entry("orders", 10, 300, "c"));

    let batches = store.batches();
    assert_eq!(batches.len(), 1);
    assert_eq!(batches[0].oldest_record(), 20);
    assert_eq!(
        batches[0].records(),
        &["a".to_string(), "b".to_string(), "c".to_string()]
    );
}

#[test]
fn oldest_record_survives_across_reads() {
    let mut store = StoreImpl::new();
    store.add(entry("orders", 10, 500, "a"));
    let _ = store.batches();
    store.add(entry("orders", 10, 20, "b"));
    store.add(entry("orders", 10, 900, "c"));

    let batches = store.batches();
    assert_eq!(batches.len(), 1);
    assert_eq!(batches[0].oldest_record(), 20);
    assert_eq!(batches[0].record_count(), 3);
}

#[test]
fn deleting_a_batch_is_idempotent() {
    let mut store = StoreImpl::new();
    store.add(entry("orders", 10, 100, "a"));
    let _ = store.batches();

    let partition = Partition::new("orders", Date::new(2024, 8, 10));
    store.delete_batch(&partition);
    store.delete_batch(&partition);

    assert_eq!(store.batches().len(), 0);

    let absent = Partition::new("nowhere", Date::new(2024, 8, 10));
    store.delete_batch(&absent);
    assert_eq!(store.batches().len(), 0);
}

#[test]
fn commit_removes_the_batch_only_while_it_is_unchanged() {
    let mut store = StoreImpl::new();
    store.add(entry("orders", 10, 100, "a"));
    let snapshot = store.batches();
    let seen = snapshot[0].record_count();

    // An entry merged after the snapshot raises the count: the stale commit
    // must not discard it.
    store.add(entry("orders", 10, 200, "b"));
    let _ = store.batches();
    let partition = Partition::new("orders", Date::new(2024, 8, 10));
    assert!(!store.commit_batch(&partition, seen));
    let kept = store.batches();
    assert_eq!(kept.len(), 1);
    assert_eq!(kept[0].record_count(), 2);

    // Unchanged since the last read: the commit goes through.
    assert!(store.commit_batch(&partition, 2));
    assert_eq!(store.batches().len(), 0);

    // Absent partition: nothing to commit.
    assert!(!store.commit_batch(&partition, 2));
}

#[test]
fn snapshot_is_a_copy() {
    let mut store = StoreImpl::new();
    store.add(entry("orders", 10, 100, "a"));
    let snapshot = store.batches();
    drop(snapshot);
    let again = store.batches();
    assert_eq!(again.len(), 1);
    assert_eq!(again[0].records(), &["a".to_string()]);
}
