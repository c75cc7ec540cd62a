//! Partition-keyed batch accumulation.
//!
//! Entries arrive tagged with a partition (source + calendar date). The store
//! buffers them in a pending queue; on demand it folds every queued entry into
//! the batch of its partition — creating the batch on first sight, keeping the
//! minimum event timestamp and the payloads in arrival order — and hands out a
//! value-copy snapshot. Committing a batch removes exactly its partition.

use crate::time::Date;
use vstd::prelude::*;

pub use summary::{Summariser, Summary};

pub mod summary;

verus! {

/// The mathematical value of a [`Partition`].
pub ghost struct PartitionView {
    pub source: Seq<char>,
    pub date: Date,
}

/// The mathematical value of an [`Entry`].
pub ghost struct EntryView {
    pub partition: PartitionView,
    pub created: int,
    pub payload: Seq<char>,
}

/// The mathematical value of a [`Batch`].
pub ghost struct BatchView {
    pub partition: PartitionView,
    pub oldest_record: int,
    pub records: Seq<Seq<char>>,
}

/// Key of one batch lineage: a logical source and a calendar date.
#[derive(Debug)]
pub struct Partition {
    source: String,
    date: Date,
}

impl View for Partition {
    type V = PartitionView;

    closed spec fn view(&self) -> PartitionView {
        PartitionView { source: self.source@, date: self.date }
    }
}

impl Partition {
    pub fn new(source: &str, date: Date) -> (p: Partition)
        ensures
            p@ == (PartitionView { source: source@, date }),
    {
        Partition { source: source.to_owned(), date }
    }

    pub fn source(&self) -> (s: &str)
        ensures
            s@ == self@.source,
    {
        self.source.as_str()
    }

    pub fn date(&self) -> (d: Date)
        ensures
            d == self@.date,
    {
        self.date
    }
}

impl Clone for Partition {
    fn clone(&self) -> (p: Self)
        ensures
            p@ == self@,
    {
        Partition { source: self.source.clone(), date: self.date }
    }
}

impl PartialEq for Partition {
    fn eq(&self, other: &Self) -> (r: bool) {
        self.source == other.source && self.date == other.date
    }
}

impl vstd::std_specs::cmp::PartialEqSpecImpl for Partition {
    open spec fn obeys_eq_spec() -> bool {
        true
    }

    open spec fn eq_spec(&self, other: &Self) -> bool {
        self@ == other@
    }
}

/// One ingested record: its partition, its event timestamp in milliseconds
/// since the Unix epoch, and an opaque payload string.
#[derive(Debug)]
pub struct Entry {
    partition: Partition,
    created: i64,
    json: String,
}

impl View for Entry {
    type V = EntryView;

    closed spec fn view(&self) -> EntryView {
        EntryView { partition: self.partition@, created: self.created as int, payload: self.json@ }
    }
}

impl Entry {
    pub fn new(partition: Partition, created: i64, json: &str) -> (e: Entry)
        ensures
            e@ == (EntryView { partition: partition@, created: created as int, payload: json@ }),
    {
        Entry { partition, created, json: json.to_owned() }
    }
}

/// The accumulated state for one partition: the earliest event timestamp seen
/// and the payloads in arrival order.
#[derive(Debug)]
pub struct Batch {
    partition: Partition,
    oldest_record: i64,
    records: Vec<String>,
}

impl View for Batch {
    type V = BatchView;

    closed spec fn view(&self) -> BatchView {
        BatchView {
            partition: self.partition@,
            oldest_record: self.oldest_record as int,
            records: self.records.deep_view(),
        }
    }
}

impl Batch {
    pub fn partition(&self) -> (p: &Partition)
        ensures
            p@ == self@.partition,
    {
        &self.partition
    }

    pub fn oldest_record(&self) -> (t: i64)
        ensures
            t as int == self@.oldest_record,
    {
        self.oldest_record
    }

    pub fn records(&self) -> (r: &[String])
        ensures
            r.deep_view() == self@.records,
    {
        self.records.as_slice()
    }

    pub fn record_count(&self) -> (n: usize)
        ensures
            n == self@.records.len(),
    {
        self.records.len()
    }
}

impl Clone for Batch {
    fn clone(&self) -> (b: Self)
        ensures
            b@ == self@,
    {
        let records = clone_records(&self.records);
        proof {
            assert(records.deep_view() =~= self.records.deep_view());
        }
        Batch { partition: self.partition.clone(), oldest_record: self.oldest_record, records }
    }
}

fn clone_records(records: &Vec<String>) -> (r: Vec<String>)
    ensures
        r.deep_view() == records.deep_view(),
        r@.len() == records@.len(),
{
    let mut r: Vec<String> = Vec::new();
    let mut i: usize = 0;
    while i < records.len()
        invariant
            i <= records@.len(),
            r@.len() == i,
            forall|j: int| 0 <= j < i ==> r@[j]@ == records@[j]@,
        decreases records@.len() - i,
    {
        r.push(records[i].clone());
        i += 1;
    }
    proof {
        assert(r.deep_view() =~= records.deep_view());
    }
    r
}

/// Whether some batch in `bs` carries partition `p`.
pub open spec fn has_partition(bs: Seq<BatchView>, p: PartitionView) -> bool {
    exists|i: int| 0 <= i < bs.len() && bs[i].partition == p
}

/// The index of the batch carrying `p`; meaningful only where it is unique.
pub open spec fn index_of_partition(bs: Seq<BatchView>, p: PartitionView) -> int {
    choose|i: int| 0 <= i < bs.len() && bs[i].partition == p
}

/// Whether some entry in `q` is headed for partition `p`.
pub open spec fn has_entry_for(q: Seq<EntryView>, p: PartitionView) -> bool {
    exists|i: int| 0 <= i < q.len() && q[i].partition == p
}

/// No two batches share a partition.
pub open spec fn unique_partitions(bs: Seq<BatchView>) -> bool {
    forall|i: int, j: int| 0 <= i < j < bs.len() ==> bs[i].partition != bs[j].partition
}

/// The smaller timestamp.
pub open spec fn min_ts(a: int, b: int) -> int {
    if a < b {
        a
    } else {
        b
    }
}

/// The batch opened by the first entry of a lineage.
pub open spec fn initial_batch(e: EntryView) -> BatchView {
    BatchView { partition: e.partition, oldest_record: e.created, records: seq![e.payload] }
}

/// `b` after folding `e` in: the payload appended, the oldest timestamp kept.
pub open spec fn folded_batch(b: BatchView, e: EntryView) -> BatchView {
    BatchView {
        partition: b.partition,
        oldest_record: min_ts(b.oldest_record, e.created),
        records: b.records.push(e.payload),
    }
}

/// One entry merged into a collection of batches.
pub open spec fn merge_one(bs: Seq<BatchView>, e: EntryView) -> Seq<BatchView> {
    if has_partition(bs, e.partition) {
        let i = index_of_partition(bs, e.partition);
        bs.update(i, folded_batch(bs[i], e))
    } else {
        bs.push(initial_batch(e))
    }
}

/// Every queued entry merged into its batch, in queue order.
pub open spec fn merge_all(bs: Seq<BatchView>, q: Seq<EntryView>) -> Seq<BatchView>
    decreases q.len(),
{
    if q.len() == 0 {
        bs
    } else {
        merge_all(merge_one(bs, q[0]), q.drop_first())
    }
}

/// `bs` without the batch of partition `p` (removes the first occurrence,
/// the only one where partitions are unique).
pub open spec fn remove_partition(bs: Seq<BatchView>, p: PartitionView) -> Seq<BatchView>
    decreases bs.len(),
{
    if bs.len() == 0 {
        bs
    } else if bs[0].partition == p {
        bs.drop_first()
    } else {
        seq![bs[0]] + remove_partition(bs.drop_first(), p)
    }
}

/// The minimum `created` timestamp across a non-empty run of entries.
pub open spec fn min_created(q: Seq<EntryView>) -> int
    recommends
        q.len() > 0,
    decreases q.len(),
{
    if q.len() <= 1 {
        q[0].created
    } else {
        min_ts(q[0].created, min_created(q.drop_first()))
    }
}

/// The payloads of a run of entries, in order.
pub open spec fn payloads_of(q: Seq<EntryView>) -> Seq<Seq<char>> {
    q.map_values(|e: EntryView| e.payload)
}

/// Whether every entry of `q` is headed for partition `p`.
pub open spec fn all_for_partition(q: Seq<EntryView>, p: PartitionView) -> bool {
    forall|i: int| 0 <= i < q.len() ==> q[i].partition == p
}

/// Merging one entry adds its partition to those present and no other.
proof fn lemma_merge_one_partitions(bs: Seq<BatchView>, e: EntryView)
    ensures
        forall|p: PartitionView|
            has_partition(merge_one(bs, e), p) <==> (has_partition(bs, p) || p == e.partition),
{
    let after = merge_one(bs, e);
    if has_partition(bs, e.partition) {
        let i = index_of_partition(bs, e.partition);
        assert(0 <= i < bs.len() && bs[i].partition == e.partition);
        assert forall|p: PartitionView|
            has_partition(after, p) <==> (has_partition(bs, p) || p == e.partition) by {
            if has_partition(bs, p) {
                let j = choose|j: int| 0 <= j < bs.len() && bs[j].partition == p;
                if j == i {
                    assert(after[i].partition == p);
                } else {
                    assert(after[j].partition == p);
                }
            }
            if p == e.partition {
                assert(after[i].partition == p);
            }
            if has_partition(after, p) {
                let j = choose|j: int| 0 <= j < after.len() && after[j].partition == p;
                if j == i {
                    assert(p == e.partition);
                } else {
                    assert(bs[j].partition == p);
                }
            }
        }
    } else {
        assert forall|p: PartitionView|
            has_partition(after, p) <==> (has_partition(bs, p) || p == e.partition) by {
            if has_partition(bs, p) {
                let j = choose|j: int| 0 <= j < bs.len() && bs[j].partition == p;
                assert(after[j].partition == p);
            }
            if p == e.partition {
                assert(after[bs.len() as int].partition == p);
            }
            if has_partition(after, p) {
                let j = choose|j: int| 0 <= j < after.len() && after[j].partition == p;
                if j < bs.len() {
                    assert(bs[j].partition == p);
                } else {
                    assert(p == e.partition);
                }
            }
        }
    }
}

/// Merging one entry keeps partitions unique.
proof fn lemma_merge_one_unique(bs: Seq<BatchView>, e: EntryView)
    requires
        unique_partitions(bs),
    ensures
        unique_partitions(merge_one(bs, e)),
{
    let after = merge_one(bs, e);
    if has_partition(bs, e.partition) {
        let i = index_of_partition(bs, e.partition);
        assert(0 <= i < bs.len() && bs[i].partition == e.partition);
        assert forall|x: int, y: int| 0 <= x < y < after.len() implies after[x].partition
            != after[y].partition by {
            assert(after[x].partition == bs[x].partition);
            assert(after[y].partition == bs[y].partition);
        }
    } else {
        assert forall|x: int, y: int| 0 <= x < y < after.len() implies after[x].partition
            != after[y].partition by {
            if y < bs.len() {
                assert(after[x].partition == bs[x].partition);
                assert(after[y].partition == bs[y].partition);
            } else {
                assert(after[x].partition == bs[x].partition);
                assert(after[y].partition == e.partition);
                assert(!has_partition(bs, e.partition));
                assert(bs[x].partition != e.partition);
            }
        }
    }
}

/// A fold of the whole queue keeps partitions unique, and the partitions
/// present afterwards are exactly those already batched or queued: the store
/// never holds two batches for one partition, and never loses one.
pub proof fn lemma_one_batch_per_partition(bs: Seq<BatchView>, q: Seq<EntryView>)
    requires
        unique_partitions(bs),
    ensures
        unique_partitions(merge_all(bs, q)),
        forall|p: PartitionView|
            has_partition(merge_all(bs, q), p) <==> (has_partition(bs, p) || has_entry_for(q, p)),
    decreases q.len(),
{
    if q.len() == 0 {
        assert(forall|p: PartitionView| !has_entry_for(q, p));
    } else {
        let bs1 = merge_one(bs, q[0]);
        lemma_merge_one_unique(bs, q[0]);
        lemma_merge_one_partitions(bs, q[0]);
        lemma_one_batch_per_partition(bs1, q.drop_first());
        assert forall|p: PartitionView|
            has_partition(merge_all(bs, q), p) <==> (has_partition(bs, p) || has_entry_for(q, p)) by {
            assert(has_entry_for(q, p) <==> (q[0].partition == p || has_entry_for(
                q.drop_first(),
                p,
            ))) by {
                if has_entry_for(q, p) {
                    let i = choose|i: int| 0 <= i < q.len() && q[i].partition == p;
                    if i > 0 {
                        assert(q.drop_first()[i - 1].partition == p);
                    }
                }
                if has_entry_for(q.drop_first(), p) {
                    let i = choose|i: int|
                        0 <= i < q.drop_first().len() && q.drop_first()[i].partition == p;
                    assert(q[i + 1].partition == p);
                }
            }
        }
    }
}

/// Reading is idempotent: one drain leaves the queue empty, and a second
/// read folds that empty queue, which changes nothing — so two snapshots
/// with no `add` between them hold the same content.
pub proof fn lemma_second_read_unchanged(s: StoreImpl)
    requires
        s.queue_view() == Seq::<EntryView>::empty(),
    ensures
        merge_all(s.batches_view(), s.queue_view()) == s.batches_view(),
{
}

/// A partition neither batched nor queued is absent after the fold: once a
/// batch is committed, it stays gone until new entries arrive for it.
pub proof fn lemma_absent_partition_stays_absent(
    bs: Seq<BatchView>,
    q: Seq<EntryView>,
    p: PartitionView,
)
    requires
        unique_partitions(bs),
        !has_partition(bs, p),
        !has_entry_for(q, p),
    ensures
        !has_partition(merge_all(bs, q), p),
{
    lemma_one_batch_per_partition(bs, q);
}

/// Oldest-record accumulation into an existing lineage: a run of entries
/// for the partition already batched at index `i` updates exactly that
/// batch — the minimum of the old and the run's timestamps is kept, and the
/// payloads are appended in arrival order. With [`lemma_fresh_lineage`] this
/// carries the minimum across any interleaving of reads and adds.
pub proof fn lemma_growing_lineage(bs: Seq<BatchView>, q: Seq<EntryView>, i: int)
    requires
        unique_partitions(bs),
        0 <= i < bs.len(),
        all_for_partition(q, bs[i].partition),
        q.len() > 0,
    ensures
        merge_all(bs, q) == bs.update(
            i,
            BatchView {
                partition: bs[i].partition,
                oldest_record: min_ts(bs[i].oldest_record, min_created(q)),
                records: bs[i].records + payloads_of(q),
            },
        ),
    decreases q.len(),
{
    let p = bs[i].partition;
    assert(q[0].partition == p);
    assert(has_partition(bs, p)) by {
        assert(bs[i].partition == p);
    }
    let j = index_of_partition(bs, p);
    assert(0 <= j < bs.len() && bs[j].partition == p);
    assert(j == i);
    let b1 = folded_batch(bs[i], q[0]);
    let bs1 = bs.update(i, b1);
    assert(merge_one(bs, q[0]) == bs1);
    if q.len() == 1 {
        assert(merge_all(bs1, q.drop_first()) == bs1);
        assert(payloads_of(q) =~= seq![q[0].payload]);
        assert(b1.records =~= bs[i].records + payloads_of(q));
        assert(min_created(q) == q[0].created);
    } else {
        lemma_merge_one_unique(bs, q[0]);
        assert(bs1[i] == b1);
        assert(all_for_partition(q.drop_first(), p)) by {
            assert(forall|k: int|
                0 <= k < q.drop_first().len() ==> q.drop_first()[k] == q[k + 1]);
        }
        lemma_growing_lineage(bs1, q.drop_first(), i);
        let rest = q.drop_first();
        let target = BatchView {
            partition: p,
            oldest_record: min_ts(bs[i].oldest_record, min_created(q)),
            records: bs[i].records + payloads_of(q),
        };
        assert(min_created(q) == min_ts(q[0].created, min_created(rest)));
        assert(payloads_of(q) =~= seq![q[0].payload] + payloads_of(rest));
        assert(b1.records + payloads_of(rest) =~= bs[i].records + payloads_of(q));
        assert(bs1.update(
            i,
            BatchView {
                partition: p,
                oldest_record: min_ts(b1.oldest_record, min_created(rest)),
                records: b1.records + payloads_of(rest),
            },
        ) =~= bs.update(i, target));
    }
}

/// Oldest-record accumulation: a run of entries for one fresh partition ends
/// as a single batch whose `oldest_record` is the minimum `created` timestamp
/// across the whole run and whose records are the payloads in arrival order.
pub proof fn lemma_fresh_lineage(bs: Seq<BatchView>, q: Seq<EntryView>, p: PartitionView)
    requires
        unique_partitions(bs),
        !has_partition(bs, p),
        all_for_partition(q, p),
        q.len() > 0,
    ensures
        merge_all(bs, q) == bs.push(
            BatchView { partition: p, oldest_record: min_created(q), records: payloads_of(q) },
        ),
{
    assert(q[0].partition == p);
    let b0 = initial_batch(q[0]);
    let bs1 = bs.push(b0);
    assert(merge_one(bs, q[0]) == bs1);
    if q.len() == 1 {
        assert(merge_all(bs1, q.drop_first()) == bs1);
        assert(payloads_of(q) =~= seq![q[0].payload]);
        assert(b0.records =~= payloads_of(q));
        assert(min_created(q) == q[0].created);
    } else {
        lemma_merge_one_unique(bs, q[0]);
        let i = bs.len() as int;
        assert(bs1[i] == b0);
        let rest = q.drop_first();
        assert(all_for_partition(rest, p)) by {
            assert(forall|k: int| 0 <= k < rest.len() ==> rest[k] == q[k + 1]);
        }
        lemma_growing_lineage(bs1, rest, i);
        assert(min_created(q) == min_ts(q[0].created, min_created(rest)));
        assert(payloads_of(q) =~= seq![q[0].payload] + payloads_of(rest));
        assert(b0.records + payloads_of(rest) =~= payloads_of(q));
        assert(bs1.update(
            i,
            BatchView {
                partition: p,
                oldest_record: min_ts(b0.oldest_record, min_created(rest)),
                records: b0.records + payloads_of(rest),
            },
        ) =~= bs.push(
            BatchView { partition: p, oldest_record: min_created(q), records: payloads_of(q) },
        ));
    }
}

/// Removing an absent partition changes nothing.
proof fn lemma_remove_absent(bs: Seq<BatchView>, p: PartitionView)
    requires
        !has_partition(bs, p),
    ensures
        remove_partition(bs, p) == bs,
    decreases bs.len(),
{
    if bs.len() > 0 {
        assert(bs[0].partition != p);
        assert(!has_partition(bs.drop_first(), p)) by {
            if has_partition(bs.drop_first(), p) {
                let i = choose|i: int|
                    0 <= i < bs.drop_first().len() && bs.drop_first()[i].partition == p;
                assert(bs[i + 1].partition == p);
            }
        }
        lemma_remove_absent(bs.drop_first(), p);
        assert(seq![bs[0]] + bs.drop_first() =~= bs);
    }
}

/// Removing the partition found at index `i` (with no earlier occurrence)
/// removes exactly that element.
proof fn lemma_remove_at(bs: Seq<BatchView>, i: int)
    requires
        0 <= i < bs.len(),
        forall|j: int| 0 <= j < i ==> bs[j].partition != bs[i].partition,
    ensures
        remove_partition(bs, bs[i].partition) == bs.remove(i),
    decreases i,
{
    let p = bs[i].partition;
    if i == 0 {
        assert(bs.drop_first() =~= bs.remove(0));
    } else {
        assert(bs[0].partition != p);
        let rest = bs.drop_first();
        assert(rest[i - 1] == bs[i]);
        assert(forall|j: int| 0 <= j < i - 1 ==> rest[j] == bs[j + 1]);
        lemma_remove_at(rest, i - 1);
        assert(seq![bs[0]] + rest.remove(i - 1) =~= bs.remove(i));
    }
}

/// Committing a batch removes exactly its partition: afterwards that
/// partition is absent, every other partition is exactly as present as it
/// was, and the remaining batches keep their content — the result is the
/// input with just the one element taken out, or the input unchanged where
/// the partition was absent.
pub proof fn lemma_remove_partition_effect(bs: Seq<BatchView>, p: PartitionView)
    requires
        unique_partitions(bs),
    ensures
        unique_partitions(remove_partition(bs, p)),
        !has_partition(remove_partition(bs, p), p),
        forall|p2: PartitionView|
            p2 != p ==> (has_partition(remove_partition(bs, p), p2) <==> has_partition(bs, p2)),
        remove_partition(bs, p) == if has_partition(bs, p) {
            bs.remove(index_of_partition(bs, p))
        } else {
            bs
        },
{
    let r = remove_partition(bs, p);
    if has_partition(bs, p) {
        let i = index_of_partition(bs, p);
        assert(0 <= i < bs.len() && bs[i].partition == p);
        assert(forall|j: int| 0 <= j < i ==> bs[j].partition != p);
        lemma_remove_at(bs, i);
        assert(r == bs.remove(i));
        assert(forall|j: int| 0 <= j < i ==> r[j] == bs[j]);
        assert(forall|j: int| i <= j < r.len() ==> r[j] == bs[j + 1]);
        assert forall|x: int, y: int| 0 <= x < y < r.len() implies r[x].partition
            != r[y].partition by {
            let bx: int = if x < i {
                x
            } else {
                x + 1
            };
            let by: int = if y < i {
                y
            } else {
                y + 1
            };
            assert(r[x] == bs[bx]);
            assert(r[y] == bs[by]);
        }
        assert(!has_partition(r, p)) by {
            if has_partition(r, p) {
                let j = choose|j: int| 0 <= j < r.len() && r[j].partition == p;
                if j < i {
                    assert(bs[j].partition == p);
                } else {
                    assert(bs[j + 1].partition == p);
                }
            }
        }
        assert forall|p2: PartitionView| p2 != p implies (has_partition(r, p2) <==> has_partition(
            bs,
            p2,
        )) by {
            if has_partition(r, p2) {
                let j = choose|j: int| 0 <= j < r.len() && r[j].partition == p2;
                if j < i {
                    assert(bs[j].partition == p2);
                } else {
                    assert(bs[j + 1].partition == p2);
                }
            }
            if has_partition(bs, p2) {
                let j = choose|j: int| 0 <= j < bs.len() && bs[j].partition == p2;
                assert(j != i);
                if j < i {
                    assert(r[j].partition == p2);
                } else {
                    assert(r[j - 1].partition == p2);
                }
            }
        }
    } else {
        lemma_remove_absent(bs, p);
    }
}

/// Whether an entry is headed for partition `p`.
pub open spec fn for_partition(p: PartitionView) -> spec_fn(EntryView) -> bool {
    |e: EntryView| e.partition == p
}

/// The entries of a run headed for partition `p`, in arrival order.
pub open spec fn entries_for(q: Seq<EntryView>, p: PartitionView) -> Seq<EntryView> {
    q.filter(for_partition(p))
}

/// The batch of partition `p`; meaningful only where partitions are unique
/// and `p` is present.
pub open spec fn batch_for(bs: Seq<BatchView>, p: PartitionView) -> BatchView {
    bs[index_of_partition(bs, p)]
}

/// The entries for `p` in a run split off its first element.
proof fn lemma_entries_for_front(q: Seq<EntryView>, p: PartitionView)
    requires
        q.len() > 0,
    ensures
        entries_for(q, p) == (if q[0].partition == p {
            seq![q[0]]
        } else {
            Seq::<EntryView>::empty()
        }) + entries_for(q.drop_first(), p),
{
    reveal(Seq::filter);
    let head = seq![q[0]];
    assert(q =~= head + q.drop_first());
    Seq::<EntryView>::filter_distributes_over_add(head, q.drop_first(), for_partition(p));
    assert(head.drop_last() =~= Seq::<EntryView>::empty());
    assert(Seq::<EntryView>::empty().filter(for_partition(p)) == Seq::<EntryView>::empty());
    if q[0].partition == p {
        assert(head.filter(for_partition(p)) =~= head);
    } else {
        assert(head.filter(for_partition(p)) =~= Seq::<EntryView>::empty());
    }
}

/// A fold never shortens the run of batches.
proof fn lemma_merge_all_len(bs: Seq<BatchView>, q: Seq<EntryView>)
    ensures
        merge_all(bs, q).len() >= bs.len(),
    decreases q.len(),
{
    if q.len() > 0 {
        lemma_merge_all_len(merge_one(bs, q[0]), q.drop_first());
    }
}

/// What a fold leaves at index `i`: the batch there, with exactly the
/// payloads of the queued entries for its partition appended in arrival
/// order, under the minimum of the old and the new timestamps. Entries for
/// other partitions never touch it.
proof fn lemma_isolation_at(bs: Seq<BatchView>, q: Seq<EntryView>, i: int)
    requires
        unique_partitions(bs),
        0 <= i < bs.len(),
    ensures
        merge_all(bs, q)[i] == ({
            let qp = entries_for(q, bs[i].partition);
            BatchView {
                partition: bs[i].partition,
                oldest_record: if qp.len() == 0 {
                    bs[i].oldest_record
                } else {
                    min_ts(bs[i].oldest_record, min_created(qp))
                },
                records: bs[i].records + payloads_of(qp),
            }
        }),
    decreases q.len(),
{
    let p = bs[i].partition;
    let qp = entries_for(q, p);
    if q.len() == 0 {
        reveal(Seq::filter);
        assert(qp =~= Seq::<EntryView>::empty());
        assert(bs[i].records + payloads_of(qp) =~= bs[i].records);
    } else {
        let e = q[0];
        let bs1 = merge_one(bs, e);
        lemma_merge_one_unique(bs, e);
        lemma_entries_for_front(q, p);
        let qp1 = entries_for(q.drop_first(), p);
        if e.partition == p {
            assert(has_partition(bs, p)) by {
                assert(bs[i].partition == p);
            }
            let j = index_of_partition(bs, p);
            assert(0 <= j < bs.len() && bs[j].partition == p);
            assert(j == i);
            let folded = folded_batch(bs[i], e);
            assert(bs1 == bs.update(i, folded));
            assert(bs1[i] == folded);
            lemma_isolation_at(bs1, q.drop_first(), i);
            assert(qp =~= seq![e] + qp1);
            assert(payloads_of(qp) =~= seq![e.payload] + payloads_of(qp1));
            assert(folded.records + payloads_of(qp1) =~= bs[i].records + payloads_of(qp));
            if qp1.len() == 0 {
                assert(qp =~= seq![e]);
                assert(min_created(qp) == e.created);
            } else {
                assert(qp.len() > 1);
                assert(qp[0] == e);
                assert(qp.drop_first() =~= qp1);
                assert(min_created(qp) == min_ts(e.created, min_created(qp1)));
            }
        } else {
            assert(bs1[i] == bs[i]) by {
                if has_partition(bs, e.partition) {
                    let j = index_of_partition(bs, e.partition);
                    assert(0 <= j < bs.len() && bs[j].partition == e.partition);
                    assert(j != i);
                }
            }
            lemma_isolation_at(bs1, q.drop_first(), i);
            assert(qp =~= qp1);
        }
    }
}

/// What a fold builds for a partition it has not seen before: one batch of
/// exactly the payloads of its entries, in arrival order, under the minimum
/// of their timestamps.
proof fn lemma_isolation_fresh(bs: Seq<BatchView>, q: Seq<EntryView>, p: PartitionView)
    requires
        unique_partitions(bs),
        !has_partition(bs, p),
        has_entry_for(q, p),
    ensures
        ({
            let m = merge_all(bs, q);
            let qp = entries_for(q, p);
            &&& has_partition(m, p)
            &&& qp.len() > 0
            &&& batch_for(m, p) == (BatchView {
                partition: p,
                oldest_record: min_created(qp),
                records: payloads_of(qp),
            })
        }),
    decreases q.len(),
{
    let e = q[0];
    let bs1 = merge_one(bs, e);
    let m = merge_all(bs, q);
    lemma_merge_one_unique(bs, e);
    lemma_entries_for_front(q, p);
    let qp = entries_for(q, p);
    let qp1 = entries_for(q.drop_first(), p);
    if e.partition == p {
        assert(bs1 == bs.push(initial_batch(e)));
        let i = bs.len() as int;
        assert(bs1[i] == initial_batch(e));
        lemma_isolation_at(bs1, q.drop_first(), i);
        assert(qp =~= seq![e] + qp1);
        assert(payloads_of(qp) =~= seq![e.payload] + payloads_of(qp1));
        assert(seq![e.payload] + payloads_of(qp1) =~= initial_batch(e).records + payloads_of(
            qp1,
        ));
        if qp1.len() == 0 {
            assert(qp =~= seq![e]);
            assert(min_created(qp) == e.created);
        } else {
            assert(qp.len() > 1);
            assert(qp[0] == e);
            assert(qp.drop_first() =~= qp1);
            assert(min_created(qp) == min_ts(e.created, min_created(qp1)));
        }
        lemma_merge_all_len(bs1, q.drop_first());
        assert(m[i].partition == p);
        assert(has_partition(m, p)) by {
            assert(0 <= i < m.len() && m[i].partition == p);
        }
        lemma_one_batch_per_partition(bs, q);
        let k = index_of_partition(m, p);
        assert(0 <= k < m.len() && m[k].partition == p);
        assert(k == i);
    } else {
        lemma_merge_one_partitions(bs, e);
        assert(!has_partition(bs1, p));
        assert(has_entry_for(q.drop_first(), p)) by {
            let k = choose|k: int| 0 <= k < q.len() && q[k].partition == p;
            assert(k != 0);
            assert(q.drop_first()[k - 1].partition == p);
        }
        lemma_isolation_fresh(bs1, q.drop_first(), p);
        assert(qp =~= qp1);
    }
}

/// Partition isolation in full: after a fold of any interleaving of entries,
/// the batch of partition `p` holds exactly the payloads of the entries for
/// `p`, in arrival order, under the minimum of their timestamps — continuing
/// from `p`'s prior batch where one existed. Entries for other partitions
/// never reach it.
pub proof fn lemma_partition_isolation(bs: Seq<BatchView>, q: Seq<EntryView>, p: PartitionView)
    requires
        unique_partitions(bs),
        has_partition(bs, p) || has_entry_for(q, p),
    ensures
        ({
            let m = merge_all(bs, q);
            let qp = entries_for(q, p);
            &&& has_partition(m, p)
            &&& batch_for(m, p) == (if has_partition(bs, p) {
                BatchView {
                    partition: p,
                    oldest_record: if qp.len() == 0 {
                        batch_for(bs, p).oldest_record
                    } else {
                        min_ts(batch_for(bs, p).oldest_record, min_created(qp))
                    },
                    records: batch_for(bs, p).records + payloads_of(qp),
                }
            } else {
                BatchView { partition: p, oldest_record: min_created(qp), records: payloads_of(qp) }
            })
        }),
{
    let m = merge_all(bs, q);
    if has_partition(bs, p) {
        let i = index_of_partition(bs, p);
        assert(0 <= i < bs.len() && bs[i].partition == p);
        lemma_isolation_at(bs, q, i);
        lemma_merge_all_len(bs, q);
        assert(m[i].partition == p);
        assert(has_partition(m, p)) by {
            assert(0 <= i < m.len() && m[i].partition == p);
        }
        lemma_one_batch_per_partition(bs, q);
        let k = index_of_partition(m, p);
        assert(0 <= k < m.len() && m[k].partition == p);
        assert(k == i);
    } else {
        lemma_isolation_fresh(bs, q, p);
    }
}

/// The batch values of a run of batches.
pub open spec fn batch_views(s: Seq<Batch>) -> Seq<BatchView> {
    s.map_values(|b: Batch| b@)
}

/// Concurrent container owning all in-flight batching state: a pending queue
/// of entries and the accumulated batches, at most one per partition. The
/// queue takes entries without touching the batches; a snapshot first drains
/// the queue into the batches, so ingestion never contends with a full
/// drain-and-read.
pub struct StoreImpl {
    queue: Vec<Entry>,
    batches: Vec<Batch>,
}

impl StoreImpl {
    /// The queued entries, as values, in arrival order.
    pub closed spec fn queue_view(self) -> Seq<EntryView> {
        self.queue@.map_values(|e: Entry| e@)
    }

    /// The accumulated batches, as values.
    pub closed spec fn batches_view(self) -> Seq<BatchView> {
        batch_views(self.batches@)
    }

    /// The store's invariant: no two batches share a partition.
    pub open spec fn wf(self) -> bool {
        unique_partitions(self.batches_view())
    }

    pub fn new() -> (s: StoreImpl)
        ensures
            s.queue_view() == Seq::<EntryView>::empty(),
            s.batches_view() == Seq::<BatchView>::empty(),
            s.wf(),
    {
        let s = StoreImpl { queue: Vec::new(), batches: Vec::new() };
        proof {
            assert(s.queue_view() =~= Seq::<EntryView>::empty());
            assert(s.batches_view() =~= Seq::<BatchView>::empty());
        }
        s
    }

    /// Appends the entry to the pending queue; the accumulated batches are
    /// untouched, so ingestion never fails and never blocks a reader.
    pub fn add(&mut self, entry: Entry)
        ensures
            final(self).queue_view() == old(self).queue_view().push(entry@),
            final(self).batches_view() == old(self).batches_view(),
    {
        let ghost ev = entry@;
        self.queue.push(entry);
        proof {
            assert(self.queue_view() =~= old(self).queue_view().push(ev));
        }
    }

    /// Drains the pending queue, folding every queued entry into the batch
    /// of its partition, then returns a value-copy snapshot of every batch
    /// held. Mutating the snapshot never affects the store.
    pub fn batches(&mut self) -> (snapshot: Vec<Batch>)
        requires
            old(self).wf(),
        ensures
            final(self).wf(),
            final(self).queue_view() == Seq::<EntryView>::empty(),
            final(self).batches_view() == merge_all(
                old(self).batches_view(),
                old(self).queue_view(),
            ),
            batch_views(snapshot@) == final(self).batches_view(),
    {
        let ghost b0 = self.batches_view();
        let ghost q0 = self.queue_view();
        while self.queue.len() > 0
            invariant
                self.wf(),
                merge_all(b0, q0) == merge_all(self.batches_view(), self.queue_view()),
            decreases self.queue@.len(),
        {
            let ghost bv = self.batches_view();
            let ghost qv = self.queue_view();
            let entry = self.queue.remove(0);
            proof {
                assert(entry@ == qv[0]);
                assert(self.queue_view() =~= qv.drop_first());
            }
            self.merge_entry(entry);
            proof {
                assert(merge_all(bv, qv) == merge_all(self.batches_view(), self.queue_view()));
            }
        }
        proof {
            assert(self.queue_view() =~= Seq::<EntryView>::empty());
            assert(self.batches_view() == merge_all(b0, q0));
        }
        let ghost merged = self.batches_view();
        let mut snapshot: Vec<Batch> = Vec::new();
        let mut i: usize = 0;
        while i < self.batches.len()
            invariant
                self.batches_view() == merged,
                self.queue_view() == Seq::<EntryView>::empty(),
                self.wf(),
                i <= self.batches@.len(),
                snapshot@.len() == i,
                forall|j: int| 0 <= j < i ==> snapshot@[j]@ == self.batches@[j]@,
            decreases self.batches@.len() - i,
        {
            snapshot.push(self.batches[i].clone());
            i += 1;
        }
        proof {
            assert(batch_views(snapshot@) =~= self.batches_view());
        }
        snapshot
    }

    /// Removes the batch for the partition, if present; deleting an absent
    /// partition is a no-op. The pending queue is untouched.
    pub fn delete_batch(&mut self, partition: &Partition)
        requires
            old(self).wf(),
        ensures
            final(self).wf(),
            final(self).queue_view() == old(self).queue_view(),
            final(self).batches_view() == remove_partition(
                old(self).batches_view(),
                partition@,
            ),
    {
        let ghost bv0 = self.batches_view();
        let ghost p = partition@;
        match find_batch_index(&self.batches, partition) {
            Some(i) => {
                self.batches.remove(i);
                proof {
                    assert(forall|j: int| 0 <= j < i ==> bv0[j].partition != bv0[i as int].partition);
                    lemma_remove_at(bv0, i as int);
                    assert(self.batches_view() =~= bv0.remove(i as int));
                    lemma_remove_partition_effect(bv0, p);
                }
            },
            None => {
                proof {
                    lemma_remove_absent(bv0, p);
                }
            },
        }
    }

    /// Commits the batch for the partition only if it is unchanged since the
    /// snapshot that decided to commit it: the batch is removed exactly when
    /// it is present and still holds `seen_count` records. Entries merged
    /// after the snapshot raise the count, so they are never discarded by a
    /// commit that predates them.
    pub fn commit_batch(&mut self, partition: &Partition, seen_count: usize) -> (removed: bool)
        requires
            old(self).wf(),
        ensures
            final(self).wf(),
            final(self).queue_view() == old(self).queue_view(),
            removed == exists|i: int|
                0 <= i < old(self).batches_view().len()
                    && #[trigger] old(self).batches_view()[i].partition == partition@ && old(
                    self,
                ).batches_view()[i].records.len() == seen_count,
            removed ==> final(self).batches_view() == remove_partition(
                old(self).batches_view(),
                partition@,
            ),
            !removed ==> final(self).batches_view() == old(self).batches_view(),
    {
        let ghost bv0 = self.batches_view();
        let ghost p = partition@;
        match find_batch_index(&self.batches, partition) {
            Some(i) => {
                if self.batches[i].record_count() == seen_count {
                    self.batches.remove(i);
                    proof {
                        assert(forall|j: int|
                            0 <= j < i ==> bv0[j].partition != bv0[i as int].partition);
                        lemma_remove_at(bv0, i as int);
                        assert(self.batches_view() =~= bv0.remove(i as int));
                        lemma_remove_partition_effect(bv0, p);
                        assert(bv0[i as int].partition == p && bv0[i as int].records.len()
                            == seen_count);
                    }
                    true
                } else {
                    proof {
                        if exists|j: int|
                            0 <= j < bv0.len() && #[trigger] bv0[j].partition == p
                                && bv0[j].records.len() == seen_count {
                            let j = choose|j: int|
                                0 <= j < bv0.len() && #[trigger] bv0[j].partition == p
                                    && bv0[j].records.len() == seen_count;
                            assert(j == i as int);
                        }
                    }
                    false
                }
            },
            None => {
                proof {
                    if exists|j: int|
                        0 <= j < bv0.len() && #[trigger] bv0[j].partition == p
                            && bv0[j].records.len() == seen_count {
                        let j = choose|j: int|
                            0 <= j < bv0.len() && #[trigger] bv0[j].partition == p
                                && bv0[j].records.len() == seen_count;
                        assert(has_partition(bv0, p));
                    }
                }
                false
            },
        }
    }

    /// Folds one entry into the batch of its partition, creating the batch
    /// on first sight.
    fn merge_entry(&mut self, entry: Entry)
        requires
            old(self).wf(),
        ensures
            final(self).wf(),
            final(self).queue_view() == old(self).queue_view(),
            final(self).batches_view() == merge_one(old(self).batches_view(), entry@),
    {
        let ghost bv0 = self.batches_view();
        let ghost ev = entry@;
        match find_batch_index(&self.batches, &entry.partition) {
            Some(i) => {
                proof {
                    assert(has_partition(bv0, ev.partition)) by {
                        assert(bv0[i as int].partition == ev.partition);
                    }
                    let k = index_of_partition(bv0, ev.partition);
                    assert(0 <= k < bv0.len() && bv0[k].partition == ev.partition);
                    assert(k == i as int);
                }
                let created = entry.created;
                let json = entry.json;
                let mut b = self.batches.remove(i);
                b.records.push(json);
                if created < b.oldest_record {
                    b.oldest_record = created;
                }
                proof {
                    assert(b@ == folded_batch(bv0[i as int], ev)) by {
                        assert(b@.records =~= bv0[i as int].records.push(ev.payload));
                    }
                }
                self.batches.insert(i, b);
                proof {
                    assert(self.batches_view() =~= bv0.update(
                        i as int,
                        folded_batch(bv0[i as int], ev),
                    ));
                    lemma_merge_one_unique(bv0, ev);
                }
            },
            None => {
                let mut records: Vec<String> = Vec::new();
                records.push(entry.json);
                let b = Batch {
                    partition: entry.partition,
                    oldest_record: entry.created,
                    records,
                };
                proof {
                    assert(b@.records =~= seq![ev.payload]);
                    assert(b@ == initial_batch(ev));
                }
                self.batches.push(b);
                proof {
                    assert(self.batches_view() =~= bv0.push(initial_batch(ev)));
                    lemma_merge_one_unique(bv0, ev);
                }
            },
        }
    }
}

/// Index of the batch carrying the partition, scanning in order.
fn find_batch_index(batches: &Vec<Batch>, partition: &Partition) -> (r: Option<usize>)
    ensures
        match r {
            Some(i) => 0 <= i < batches@.len() && batch_views(batches@)[i as int].partition
                == partition@,
            None => !has_partition(batch_views(batches@), partition@),
        },
{
    let mut i: usize = 0;
    while i < batches.len()
        invariant
            i <= batches@.len(),
            forall|j: int| 0 <= j < i ==> batch_views(batches@)[j].partition != partition@,
        decreases batches@.len() - i,
    {
        if batches[i].partition == *partition {
            return Some(i);
        }
        i += 1;
    }
    proof {
        if has_partition(batch_views(batches@), partition@) {
            let j = choose|j: int|
                0 <= j < batches@.len() && batch_views(batches@)[j].partition == partition@;
            assert(batch_views(batches@)[j].partition != partition@);
        }
    }
    None
}

} // verus!
