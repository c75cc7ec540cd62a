//! The data types around ingestion: the notification builder, the parsed
//! notification shape, and the administrative summary.

use batcher::batch::{Entry, Partition, StoreImpl, Summariser};
use batcher::model::s3_notification::{Bucket, Object, Record, S3, S3Notification};
use batcher::model::Notification;
use batcher::processor::entry;
use batcher::Date;

#[test]
fn builder_carries_every_field_into_the_notification() {
    let notification = Notification::builder()
        .message_id("m-1")
        .receipt_handle("r-1")
        .created(1_723_287_600_000)
        .bucket("incoming")
        .key("payload.json")
        .build();

    assert_eq!(notification.message_id(), "m-1");
    assert_eq!(notification.receipt_handle(), "r-1");
    assert_eq!(notification.created(), 1_723_287_600_000);
    assert_eq!(notification.bucket(), "incoming");
    assert_eq!(notification.key(), "payload.json");
}

fn partition_date_of(created: i64) -> Date {
    let mut store = StoreImpl::new();
    store.add(entry("orders", created, "x"));
    let batches = store.batches();
    batches[0].partition().date()
}

#[test]
fn timestamp_maps_to_its_civil_date() {
    // 2024-08-10T12:53:00Z.
    let date = partition_date_of(1_723_294_380_000);
    assert_eq!((date.year, date.month, date.day), (2024, 8, 10));

    // The Unix epoch itself.
    let date = partition_date_of(0);
    assert_eq!((date.year, date.month, date.day), (1970, 1, 1));

    // A moment before midnight still belongs to the earlier day.
    let date = partition_date_of(86_399_999);
    assert_eq!((date.year, date.month, date.day), (1970, 1, 1));
    let date = partition_date_of(86_400_000);
    assert_eq!((date.year, date.month, date.day), (1970, 1, 2));
}

#[test]
fn s3_notification_exposes_its_records() {
    let record = Record::new(
        1_723_294_380_000,
        S3::new(Bucket::new("test-bucket"), Object::new("1234.json")),
    );
    let notification = S3Notification::new(vec![record]);

    assert_eq!(notification.records().len(), 1);
    let record = &notification.records()[0];
    assert_eq!(record.event_time(), 1_723_294_380_000);
    assert_eq!(record.s3().bucket().name(), "test-bucket");
    assert_eq!(record.s3().object().key(), "1234.json");
}

#[test]
fn one_message_fans_out_into_one_notification_per_record() {
    let notification = S3Notification::new(vec![
        Record::new(
            100,
            S3::new(Bucket::new("bucket-a"), Object::new("a.json")),
        ),
        Record::new(
            200,
            S3::new(Bucket::new("bucket-b"), Object::new("b.json")),
        ),
    ]);

    let notifications =
        batcher::supplier::notifications_from("m-1", "r-1", &notification);

    assert_eq!(notifications.len(), 2);
    assert_eq!(notifications[0].message_id(), "m-1");
    assert_eq!(notifications[0].receipt_handle(), "r-1");
    assert_eq!(notifications[0].created(), 100);
    assert_eq!(notifications[0].bucket(), "bucket-a");
    assert_eq!(notifications[0].key(), "a.json");
    assert_eq!(notifications[1].created(), 200);
    assert_eq!(notifications[1].bucket(), "bucket-b");
    assert_eq!(notifications[1].key(), "b.json");
}

#[test]
fn summary_projects_each_batch() {
    let mut store = StoreImpl::new();
    let partition = Partition::new("orders", Date::new(2024, 8, 10));
    store.add(Entry::new(partition, 500, "a"));
    let partition = Partition::new("orders", Date::new(2024, 8, 10));
    store.add(Entry::new(partition, 100, "b"));

    let summariser = Summariser::new();
    let summaries = summariser.summary(&mut store);

    assert_eq!(summaries.len(), 1);
    assert_eq!(summaries[0].source(), "orders");
    assert_eq!(summaries[0].date(), Date::new(2024, 8, 10));
    assert_eq!(summaries[0].oldest_record(), 100);
    assert_eq!(summaries[0].record_count(), 2);
}

#[test]
fn summary_of_an_empty_store_is_empty() {
    let mut store = StoreImpl::new();
    let summariser = Summariser::new();
    assert_eq!(summariser.summary(&mut store).len(), 0);
}
