//! Readiness, commits, the forced flush, and the persisted form of a batch.

use batcher::batch::{Batch, BatchView, Entry, Partition, StoreImpl};
use vstd::prelude::Seq;
use batcher::writer::{
    file_content_from, fresh_object_key, object_key, BatchWriter, FlushPolicy, MemoryWriter,
    Writer,
};
use batcher::Date;

fn entry(source: &str, day: u8, created: i64, payload: &str) -> Entry {
    let partition = Partition::new(source, Date::new(2024, 8, day));
    Entry::new(partition, created, payload)
}

/// A sink that refuses every batch, still recording the attempts.
struct RefusingWriter {
    attempts: usize,
}

impl Writer for RefusingWriter {
    // The ghost views of the trait; never reached by running code.
    fn written(&self) -> Seq<BatchView> {
        panic!()
    }

    fn outcomes(&self) -> Seq<bool> {
        panic!()
    }

    fn write(&mut self, _batch: &Batch) -> bool {
        self.attempts += 1;
        false
    }
}

#[test]
fn batch_of_two_records_is_ready_at_size_two() {
    let mut store = StoreImpl::new();
    store.add(entry("orders", 10, 100, "a"));
    store.add(entry("orders", 10, 200, "b"));
    let batches = store.batches();
    let policy = FlushPolicy::new(2, 3_600_000);
    assert!(policy.is_ready(&batches[0], 250));
}

#[test]
fn young_single_record_batch_is_not_ready() {
    let mut store = StoreImpl::new();
    store.add(entry("orders", 10, 100, "a"));
    let batches = store.batches();
    let policy = FlushPolicy::new(2, 3_600_000);
    assert!(!policy.is_ready(&batches[0], 100 + 3_599_999));
}

#[test]
fn old_single_record_batch_is_ready_at_the_age_threshold() {
    let mut store = StoreImpl::new();
    store.add(entry("orders", 10, 100, "a"));
    let batches = store.batches();
    let policy = FlushPolicy::new(2, 3_600_000);
    assert!(policy.is_ready(&batches[0], 100 + 3_600_000));
    assert!(policy.is_ready(&batches[0], 100 + 3_600_001));
}

#[test]
fn write_commits_exactly_the_ready_partitions() {
    let mut store = StoreImpl::new();
    store.add(entry("orders", 10, 100, "a"));
    store.add(entry("orders", 10, 200, "b"));
    store.add(entry("payments", 10, 150, "c"));

    let policy = FlushPolicy::new(2, i64::MAX);
    let mut writer = BatchWriter::new(MemoryWriter::new(), policy);
    let committed = writer.write(&mut store, 300);

    assert_eq!(committed.len(), 1);
    assert_eq!(committed[0].source(), "orders");
    assert_eq!(writer.writer().received().len(), 1);
    assert_eq!(
        writer.writer().received()[0].records(),
        &["a".to_string(), "b".to_string()]
    );

    let remaining = store.batches();
    assert_eq!(remaining.len(), 1);
    assert_eq!(remaining[0].partition().source(), "payments");
}

#[test]
fn committed_partition_is_gone_until_new_entries_arrive() {
    let mut store = StoreImpl::new();
    store.add(entry("orders", 10, 100, "a"));

    let policy = FlushPolicy::new(1, i64::MAX);
    let mut writer = BatchWriter::new(MemoryWriter::new(), policy);
    let committed = writer.write(&mut store, 200);
    assert_eq!(committed.len(), 1);

    assert_eq!(store.batches().len(), 0);

    store.add(entry("orders", 10, 500, "z"));
    let revived = store.batches();
    assert_eq!(revived.len(), 1);
    assert_eq!(revived[0].records(), &["z".to_string()]);
    assert_eq!(revived[0].oldest_record(), 500);
}

#[test]
fn refused_batches_stay_for_the_next_cycle() {
    let mut store = StoreImpl::new();
    store.add(entry("orders", 10, 100, "a"));
    store.add(entry("payments", 10, 150, "b"));

    let policy = FlushPolicy::new(1, i64::MAX);
    let mut writer = BatchWriter::new(RefusingWriter { attempts: 0 }, policy);
    let committed = writer.write(&mut store, 200);

    assert_eq!(committed.len(), 0);
    assert_eq!(store.batches().len(), 2);
}

#[test]
fn flush_hands_every_pending_batch_to_the_sink() {
    let mut store = StoreImpl::new();
    store.add(entry("orders", 10, 100, "a"));
    store.add(entry("payments", 10, 150, "b"));
    store.add(entry("orders", 11, 175, "c"));
    store.add(entry("orders", 10, 50, "d"));

    // Size and age thresholds no batch meets: all three stay pending.
    let policy = FlushPolicy::new(100, i64::MAX);
    let mut writer = BatchWriter::new(MemoryWriter::new(), policy);
    let committed = writer.write(&mut store, 200);
    assert_eq!(committed.len(), 0);
    assert_eq!(writer.writer().received().len(), 0);

    let refused = writer.flush(&mut store);
    assert_eq!(refused, 0);
    let received = writer.writer().received();
    assert_eq!(received.len(), 3);

    let orders_10: Vec<_> = received
        .iter()
        .filter(|b| b.partition().source() == "orders" && b.partition().date().day == 10)
        .collect();
    assert_eq!(orders_10.len(), 1);
    assert_eq!(
        orders_10[0].records(),
        &["a".to_string(), "d".to_string()]
    );
    assert_eq!(orders_10[0].oldest_record(), 50);
}

#[test]
fn flush_leaves_the_store_contents_in_place() {
    let mut store = StoreImpl::new();
    store.add(entry("orders", 10, 100, "a"));

    let policy = FlushPolicy::new(100, i64::MAX);
    let mut writer = BatchWriter::new(MemoryWriter::new(), policy);
    let refused = writer.flush(&mut store);

    assert_eq!(refused, 0);
    assert_eq!(store.batches().len(), 1);
}

#[test]
fn flush_retries_each_refused_batch_once_and_reports_it() {
    let mut store = StoreImpl::new();
    store.add(entry("orders", 10, 100, "a"));
    store.add(entry("payments", 10, 150, "b"));

    let policy = FlushPolicy::new(100, i64::MAX);
    let mut writer = BatchWriter::new(RefusingWriter { attempts: 0 }, policy);
    let refused = writer.flush(&mut store);

    // Both batches written once and retried once; both still refused.
    assert_eq!(refused, 2);
    assert_eq!(writer.writer().attempts, 4);
    // Nothing was deleted: the store still holds both batches.
    assert_eq!(store.batches().len(), 2);
}

#[test]
fn end_to_end_three_record_cycle() {
    let mut store = StoreImpl::new();
    let policy = FlushPolicy::new(3, i64::MAX);
    let mut writer = BatchWriter::new(MemoryWriter::new(), policy);

    store.add(entry("orders", 10, 100, "one"));
    store.add(entry("orders", 10, 200, "two"));

    let snapshot = store.batches();
    assert_eq!(snapshot.len(), 1);
    assert_eq!(snapshot[0].record_count(), 2);

    let committed = writer.write(&mut store, 250);
    assert_eq!(committed.len(), 0);

    store.add(entry("orders", 10, 300, "three"));
    let committed = writer.write(&mut store, 350);
    assert_eq!(committed.len(), 1);
    assert_eq!(committed[0].source(), "orders");

    let received = writer.writer().received();
    assert_eq!(received.len(), 1);
    assert_eq!(
        received[0].records(),
        &["one".to_string(), "two".to_string(), "three".to_string()]
    );

    assert_eq!(store.batches().len(), 0);
}

#[test]
fn object_key_is_namespaced_by_source_and_date() {
    let partition = Partition::new("orders", Date::new(2024, 8, 9));
    let key = object_key(&partition, "some-id");
    assert_eq!(key, "output/source=orders/date=2024-08-09/some-id.jsonl");
}

#[test]
fn object_key_pads_small_date_fields() {
    let partition = Partition::new("orders", Date::new(33, 1, 2));
    let key = object_key(&partition, "id");
    assert_eq!(key, "output/source=orders/date=0033-01-02/id.jsonl");
}

#[test]
fn fresh_object_key_carries_a_generated_identifier() {
    let partition = Partition::new("orders", Date::new(2024, 8, 9));
    let key = fresh_object_key(&partition);
    let prefix = "output/source=orders/date=2024-08-09/";
    assert!(key.starts_with(prefix));
    assert!(key.ends_with(".jsonl"));
    assert_eq!(key.len(), prefix.len() + 36 + ".jsonl".len());
}

#[test]
fn file_content_joins_records_with_newlines() {
    let records = vec!["a".to_string(), "b".to_string(), "c".to_string()];
    assert_eq!(file_content_from(&records), b"a\nb\nc".to_vec());
}

#[test]
fn file_content_of_a_single_record_has_no_separator() {
    let records = vec!["only".to_string()];
    assert_eq!(file_content_from(&records), b"only".to_vec());
}

#[test]
fn file_content_of_no_records_is_empty() {
    let records: Vec<String> = vec![];
    assert_eq!(file_content_from(&records), Vec::<u8>::new());
}
