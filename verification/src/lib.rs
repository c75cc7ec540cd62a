//! Partition-keyed micro-batching of event records.
//!
//! Incoming entries are buffered in a pending queue, folded into one batch
//! per partition on demand, flushed to a sink once a batch is large or old
//! enough, and force-flushed in full when the process shuts down.

pub mod batch;
pub mod model;
pub mod processor;
pub mod schedule;
pub mod shutdown;
pub mod supplier;
pub mod text;
pub mod time;
pub mod writer;

pub use time::Date;
