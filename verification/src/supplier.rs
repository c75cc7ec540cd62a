//! The pure half of the queue supplier: fanning one received message out
//! into per-record notifications. Receiving the message and parsing its
//! body belong to the surrounding process; what arrives here are plain
//! values.

use crate::model::notification::{Notification, NotificationView};
use crate::model::s3_notification::S3Notification;
use vstd::prelude::*;

verus! {

/// One notification per announced record, in message order: each carries
/// the message's identity and the record's timestamp and payload address.
pub fn notifications_from(
    message_id: &str,
    receipt_handle: &str,
    s3_notification: &S3Notification,
) -> (r: Vec<Notification>)
    ensures
        r@.len() == s3_notification@.len(),
        forall|i: int|
            0 <= i < r@.len() ==> r@[i]@ == (NotificationView {
                message_id: message_id@,
                receipt_handle: receipt_handle@,
                created: s3_notification@[i].event_time,
                bucket: s3_notification@[i].s3.bucket,
                key: s3_notification@[i].s3.key,
            }),
{
    let records = s3_notification.records();
    let ghost rv = s3_notification@;
    let mut r: Vec<Notification> = Vec::new();
    let mut i: usize = 0;
    while i < records.len()
        invariant
            i <= records@.len(),
            records@.map_values(|rec: crate::model::s3_notification::Record| rec@) == rv,
            rv.len() == records@.len(),
            r@.len() == i,
            forall|j: int|
                0 <= j < i ==> r@[j]@ == (NotificationView {
                    message_id: message_id@,
                    receipt_handle: receipt_handle@,
                    created: rv[j].event_time,
                    bucket: rv[j].s3.bucket,
                    key: rv[j].s3.key,
                }),
        decreases records@.len() - i,
    {
        let record = &records[i];
        proof {
            assert(record@ == rv[i as int]);
        }
        let notification = Notification::builder()
            .message_id(message_id)
            .receipt_handle(receipt_handle)
            .created(record.event_time())
            .bucket(record.s3().bucket().name())
            .key(record.s3().object().key())
            .build();
        r.push(notification);
        i += 1;
    }
    r
}

} // verus!
