//! Read-only projection of the store's batches for the administrative
//! summary endpoint.

use crate::batch::{batch_views, merge_all, Batch, BatchView, EntryView, StoreImpl};
use crate::time::Date;
use vstd::prelude::*;

verus! {

/// The mathematical value of a [`Summary`].
pub ghost struct SummaryView {
    pub source: Seq<char>,
    pub date: Date,
    pub oldest_record: int,
    pub record_count: int,
}

/// One line of the administrative summary: the partition, the earliest event
/// timestamp, and how many records the batch holds.
#[derive(Debug)]
pub struct Summary {
    source: String,
    date: Date,
    oldest_record: i64,
    record_count: usize,
}

impl View for Summary {
    type V = SummaryView;

    closed spec fn view(&self) -> SummaryView {
        SummaryView {
            source: self.source@,
            date: self.date,
            oldest_record: self.oldest_record as int,
            record_count: self.record_count as int,
        }
    }
}

/// The summary line a batch projects to.
pub open spec fn summary_of(b: BatchView) -> SummaryView {
    SummaryView {
        source: b.partition.source,
        date: b.partition.date,
        oldest_record: b.oldest_record,
        record_count: b.records.len() as int,
    }
}

impl Summary {
    pub fn source(&self) -> (s: &str)
        ensures
            s@ == self@.source,
    {
        self.source.as_str()
    }

    pub fn date(&self) -> (d: Date)
        ensures
            d == self@.date,
    {
        self.date
    }

    pub fn oldest_record(&self) -> (t: i64)
        ensures
            t as int == self@.oldest_record,
    {
        self.oldest_record
    }

    pub fn record_count(&self) -> (n: usize)
        ensures
            n as int == self@.record_count,
    {
        self.record_count
    }
}

/// The summary lines of a run of batches, in order.
pub open spec fn summaries_of(bs: Seq<BatchView>) -> Seq<SummaryView> {
    bs.map_values(|b: BatchView| summary_of(b))
}

/// Read-only projection of the store's batches into summary lines.
pub struct Summariser {}

impl Summariser {
    pub fn new() -> (s: Summariser) {
        Summariser {  }
    }

    /// Drains pending entries into their batches, then projects every batch
    /// to its summary line. Never fails, whatever the store holds.
    pub fn summary(&self, store: &mut StoreImpl) -> (r: Vec<Summary>)
        requires
            old(store).wf(),
        ensures
            final(store).wf(),
            final(store).queue_view() == Seq::<EntryView>::empty(),
            final(store).batches_view() == merge_all(
                old(store).batches_view(),
                old(store).queue_view(),
            ),
            r@.map_values(|s: Summary| s@) == summaries_of(final(store).batches_view()),
    {
        let batches = store.batches();
        let ghost snap = batch_views(batches@);
        let mut r: Vec<Summary> = Vec::new();
        let mut i: usize = 0;
        while i < batches.len()
            invariant
                i <= batches@.len(),
                batch_views(batches@) == snap,
                r@.len() == i,
                forall|j: int| 0 <= j < i ==> r@[j]@ == summary_of(snap[j]),
            decreases batches@.len() - i,
        {
            let b = batches[i].clone();
            r.push(Summary::from(b));
            i += 1;
        }
        proof {
            assert(r@.map_values(|s: Summary| s@) =~= summaries_of(snap));
        }
        r
    }
}

impl From<Batch> for Summary {
    fn from(value: Batch) -> (s: Self)
        ensures
            s@ == summary_of(value@),
    {
        let record_count = value.records.len();
        Summary {
            source: value.partition.source,
            date: value.partition.date,
            oldest_record: value.oldest_record,
            record_count,
        }
    }
}

impl vstd::std_specs::convert::FromSpecImpl<Batch> for Summary {
    open spec fn obeys_from_spec() -> bool {
        true
    }

    closed spec fn from_spec(value: Batch) -> Self {
        Summary {
            source: value.partition.source,
            date: value.partition.date,
            oldest_record: value.oldest_record,
            record_count: value.records@.len() as usize,
        }
    }
}

} // verus!
