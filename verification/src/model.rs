//! The data the ingestion side works with: the queue notification, the
//! parsed payload event, and the object-storage notification shape.

pub mod event;
pub mod notification;
pub mod s3_notification;

pub use event::{Answer, Event, Request, Response};
pub use notification::Notification;
pub use s3_notification::{Record, S3Notification};
