//! One flush cycle over the store: apply the readiness policy to a snapshot,
//! write ready batches to the sink, and commit the ones the sink accepted.

use super::Writer;
use crate::batch::{
    batch_views, has_partition, merge_all, remove_partition, unique_partitions, Batch, BatchView,
    EntryView, Partition, PartitionView, StoreImpl,
};
use vstd::prelude::*;

verus! {

/// The readiness policy: a batch is due once it is large enough or old
/// enough. Stateless; reevaluated fresh on every cycle.
#[derive(Debug, Clone, Copy, PartialEq, Eq, Structural)]
pub struct FlushPolicy {
    /// A batch with at least this many records is ready.
    pub max_batch_size: usize,
    /// A batch whose oldest record is at least this many milliseconds old
    /// is ready.
    pub max_batch_age_ms: i64,
}

impl FlushPolicy {
    pub fn new(max_batch_size: usize, max_batch_age_ms: i64) -> (p: FlushPolicy)
        ensures
            p == (FlushPolicy { max_batch_size, max_batch_age_ms }),
    {
        FlushPolicy { max_batch_size, max_batch_age_ms }
    }

    /// Whether a batch is due: by size, or by the age of its oldest record.
    pub open spec fn ready_spec(self, b: BatchView, now: int) -> bool {
        b.records.len() >= self.max_batch_size || now - b.oldest_record >= self.max_batch_age_ms
    }

    /// Decides readiness, exactly as [`FlushPolicy::ready_spec`] says: the
    /// size trigger first, the age trigger second.
    pub fn is_ready(&self, batch: &Batch, now: i64) -> (r: bool)
        ensures
            r == self.ready_spec(batch@, now as int),
    {
        if batch.record_count() >= self.max_batch_size {
            return true;
        }
        let age: i128 = (now as i128) - (batch.oldest_record() as i128);
        age >= (self.max_batch_age_ms as i128)
    }
}

/// The ready batches of a snapshot, in snapshot order.
pub open spec fn ready_of(bs: Seq<BatchView>, policy: FlushPolicy, now: int) -> Seq<BatchView>
    decreases bs.len(),
{
    if bs.len() == 0 {
        Seq::empty()
    } else {
        ready_of(bs.drop_last(), policy, now) + if policy.ready_spec(bs.last(), now) {
            seq![bs.last()]
        } else {
            Seq::empty()
        }
    }
}

/// The partition values of a run of partitions.
pub open spec fn partition_views(ps: Seq<Partition>) -> Seq<PartitionView> {
    ps.map_values(|p: Partition| p@)
}

/// Batches after removing each listed partition, in order.
pub open spec fn remove_all(bs: Seq<BatchView>, ps: Seq<PartitionView>) -> Seq<BatchView>
    decreases ps.len(),
{
    if ps.len() == 0 {
        bs
    } else {
        remove_all(remove_partition(bs, ps[0]), ps.drop_first())
    }
}

/// Whether the snapshot holds a ready batch for partition `p`.
pub open spec fn has_ready_partition(
    bs: Seq<BatchView>,
    policy: FlushPolicy,
    now: int,
    p: PartitionView,
) -> bool {
    exists|j: int| 0 <= j < bs.len() && bs[j].partition == p && policy.ready_spec(bs[j], now)
}

/// The partitions committed by a cycle: of the ready batches, exactly those
/// whose paired sink answer is an acceptance, in snapshot order.
pub open spec fn accepted_commits(ready: Seq<BatchView>, outs: Seq<bool>) -> Seq<PartitionView>
    decreases ready.len(),
{
    if ready.len() == 0 || outs.len() != ready.len() {
        Seq::empty()
    } else {
        accepted_commits(ready.drop_last(), outs.drop_last()) + if outs.last() {
            seq![ready.last().partition]
        } else {
            Seq::empty()
        }
    }
}

/// With every answer an acceptance, a cycle commits exactly the ready
/// batches' partitions, in order: against a sink that never refuses, every
/// ready batch is committed.
pub proof fn lemma_all_accepted_commits_all(ready: Seq<BatchView>, outs: Seq<bool>)
    requires
        outs.len() == ready.len(),
        forall|i: int| 0 <= i < outs.len() ==> outs[i],
    ensures
        accepted_commits(ready, outs) == ready.map_values(|b: BatchView| b.partition),
    decreases ready.len(),
{
    if ready.len() > 0 {
        assert(outs.last());
        assert(forall|i: int| 0 <= i < outs.drop_last().len() ==> outs.drop_last()[i]);
        lemma_all_accepted_commits_all(ready.drop_last(), outs.drop_last());
        assert(ready.map_values(|b: BatchView| b.partition) =~= ready.drop_last().map_values(
            |b: BatchView| b.partition,
        ).push(ready.last().partition));
        assert(accepted_commits(ready, outs) =~= ready.map_values(|b: BatchView| b.partition));
    } else {
        assert(accepted_commits(ready, outs) =~= ready.map_values(
            |b: BatchView| b.partition,
        ));
    }
}

/// Of `bs`, exactly the batches whose paired sink answer is a refusal, in
/// order.
pub open spec fn refused_of(bs: Seq<BatchView>, outs: Seq<bool>) -> Seq<BatchView>
    decreases bs.len(),
{
    if bs.len() == 0 || outs.len() != bs.len() {
        Seq::empty()
    } else {
        refused_of(bs.drop_last(), outs.drop_last()) + if outs.last() {
            Seq::empty()
        } else {
            seq![bs.last()]
        }
    }
}

/// How many of the answers are refusals.
pub open spec fn refusal_count(outs: Seq<bool>) -> int
    decreases outs.len(),
{
    if outs.len() == 0 {
        0int
    } else {
        refusal_count(outs.drop_last()) + if outs.last() {
            0int
        } else {
            1int
        }
    }
}

/// Removing one more partition at the end removes it from the result.
proof fn lemma_remove_all_push(bs: Seq<BatchView>, ps: Seq<PartitionView>, p: PartitionView)
    ensures
        remove_all(bs, ps.push(p)) == remove_partition(remove_all(bs, ps), p),
    decreases ps.len(),
{
    if ps.len() == 0 {
        assert(ps.push(p)[0] == p);
        assert(ps.push(p).drop_first() =~= Seq::<PartitionView>::empty());
        assert(remove_all(bs, ps.push(p)) == remove_all(
            remove_partition(bs, p),
            Seq::<PartitionView>::empty(),
        ));
        assert(remove_all(remove_partition(bs, p), Seq::<PartitionView>::empty())
            == remove_partition(bs, p));
        assert(remove_all(bs, ps) == bs);
    } else {
        assert(ps.push(p)[0] == ps[0]);
        assert(ps.push(p).drop_first() =~= ps.drop_first().push(p));
        assert(remove_all(bs, ps.push(p)) == remove_all(
            remove_partition(bs, ps[0]),
            ps.drop_first().push(p),
        ));
        lemma_remove_all_push(remove_partition(bs, ps[0]), ps.drop_first(), p);
        assert(remove_all(bs, ps) == remove_all(remove_partition(bs, ps[0]), ps.drop_first()));
    }
}

/// Committing a list of partitions removes exactly those: each is absent
/// afterwards, every other partition is exactly as present as before, and
/// uniqueness is kept.
pub proof fn lemma_remove_all_effect(bs: Seq<BatchView>, ps: Seq<PartitionView>)
    requires
        unique_partitions(bs),
    ensures
        unique_partitions(remove_all(bs, ps)),
        forall|k: int| 0 <= k < ps.len() ==> !has_partition(remove_all(bs, ps), ps[k]),
        forall|p2: PartitionView|
            !ps.contains(p2) ==> (has_partition(remove_all(bs, ps), p2) <==> has_partition(
                bs,
                p2,
            )),
    decreases ps.len(),
{
    if ps.len() > 0 {
        let bs1 = remove_partition(bs, ps[0]);
        let rest = ps.drop_first();
        crate::batch::lemma_remove_partition_effect(bs, ps[0]);
        lemma_remove_all_effect(bs1, rest);
        let r = remove_all(bs, ps);
        assert(r == remove_all(bs1, rest));
        assert forall|k: int| 0 <= k < ps.len() implies !has_partition(r, ps[k]) by {
            if k == 0 {
                if rest.contains(ps[0]) {
                    let m = choose|m: int| 0 <= m < rest.len() && rest[m] == ps[0];
                    assert(!has_partition(r, rest[m]));
                } else {
                    assert(!has_partition(bs1, ps[0]));
                }
            } else {
                assert(rest[k - 1] == ps[k]);
            }
        }
        assert forall|p2: PartitionView| !ps.contains(p2) implies (has_partition(r, p2)
            <==> has_partition(bs, p2)) by {
            assert(ps[0] != p2) by {
                assert(ps.contains(p2) <== (ps[0] == p2)) by {
                    if ps[0] == p2 {
                        assert(ps[0] == p2 && 0 < ps.len());
                    }
                }
            }
            assert(!rest.contains(p2)) by {
                if rest.contains(p2) {
                    let m = choose|m: int| 0 <= m < rest.len() && rest[m] == p2;
                    assert(ps[m + 1] == p2);
                }
            }
        }
    }
}

/// Orchestrates one flush cycle: obtain the current snapshot, write every
/// ready batch to the sink, commit those the sink accepted. Holds the sink
/// and the policy; the store is shared with the ingestion side and borrowed
/// per cycle.
pub struct BatchWriter<W: Writer> {
    writer: W,
    policy: FlushPolicy,
}

impl<W: Writer> BatchWriter<W> {
    /// The batches the sink has received so far.
    pub closed spec fn spec_written(self) -> Seq<BatchView> {
        self.writer.written()
    }

    /// The sink's answer to each received batch, in the same order.
    pub closed spec fn spec_outcomes(self) -> Seq<bool> {
        self.writer.outcomes()
    }

    /// The configured readiness policy.
    pub closed spec fn spec_policy(self) -> FlushPolicy {
        self.policy
    }

    pub fn new(writer: W, policy: FlushPolicy) -> (w: BatchWriter<W>)
        ensures
            w.spec_written() == writer.written(),
            w.spec_outcomes() == writer.outcomes(),
            w.spec_policy() == policy,
    {
        BatchWriter { writer, policy }
    }

    /// The sink, for inspection.
    pub fn writer(&self) -> (w: &W)
        ensures
            w.written() == self.spec_written(),
            w.outcomes() == self.spec_outcomes(),
    {
        &self.writer
    }

    /// One flush cycle at time `now`: drains the store into a snapshot,
    /// hands every ready batch to the sink — one sink failure never aborts
    /// the other partitions — and commits (deletes) exactly the ready
    /// batches the sink accepted, returned as `committed`. Batches not yet
    /// ready, and ready batches the sink refused, stay in the store for the
    /// next cycle.
    pub fn write(&mut self, store: &mut StoreImpl, now: i64) -> (committed: Vec<Partition>)
        requires
            old(store).wf(),
        ensures
            final(store).wf(),
            final(store).queue_view() == Seq::<EntryView>::empty(),
            final(self).spec_policy() == old(self).spec_policy(),
            final(self).spec_written() == old(self).spec_written() + ready_of(
                merge_all(old(store).batches_view(), old(store).queue_view()),
                old(self).spec_policy(),
                now as int,
            ),
            // One sink answer per ready batch, appended to the history.
            final(self).spec_outcomes().len() == old(self).spec_outcomes().len() + ready_of(
                merge_all(old(store).batches_view(), old(store).queue_view()),
                old(self).spec_policy(),
                now as int,
            ).len(),
            final(self).spec_outcomes().take(old(self).spec_outcomes().len() as int) == old(
                self,
            ).spec_outcomes(),
            // Committed are exactly the ready batches the sink accepted, in
            // snapshot order: nothing less, and never a refused one.
            partition_views(committed@) == accepted_commits(
                ready_of(
                    merge_all(old(store).batches_view(), old(store).queue_view()),
                    old(self).spec_policy(),
                    now as int,
                ),
                final(self).spec_outcomes().skip(old(self).spec_outcomes().len() as int),
            ),
            final(store).batches_view() == remove_all(
                merge_all(old(store).batches_view(), old(store).queue_view()),
                partition_views(committed@),
            ),
            forall|k: int|
                0 <= k < committed@.len() ==> has_ready_partition(
                    merge_all(old(store).batches_view(), old(store).queue_view()),
                    old(self).spec_policy(),
                    now as int,
                    committed@[k]@,
                ),
            forall|k: int|
                0 <= k < committed@.len() ==> !has_partition(
                    final(store).batches_view(),
                    committed@[k]@,
                ),
            // Every uncommitted partition — not ready, or refused by the
            // sink — keeps its batch for the next cycle.
            forall|p: PartitionView|
                has_partition(
                    merge_all(old(store).batches_view(), old(store).queue_view()),
                    p,
                ) && !partition_views(committed@).contains(p) ==> has_partition(
                    final(store).batches_view(),
                    p,
                ),
    {
        let ghost pol = self.policy;
        let ghost w0 = self.writer.written();
        let ghost out0 = self.writer.outcomes();
        let ghost mut outs = Seq::<bool>::empty();
        let snapshot = store.batches();
        let ghost snap = batch_views(snapshot@);
        let mut committed: Vec<Partition> = Vec::new();
        let mut i: usize = 0;
        proof {
            assert(snap.take(0) =~= Seq::<BatchView>::empty());
            assert(partition_views(committed@) =~= Seq::<PartitionView>::empty());
            assert(self.spec_written() =~= w0 + ready_of(snap.take(0), pol, now as int));
            assert(self.spec_outcomes() =~= out0 + outs);
        }
        while i < snapshot.len()
            invariant
                i <= snapshot@.len(),
                batch_views(snapshot@) == snap,
                unique_partitions(snap),
                store.wf(),
                store.queue_view() == Seq::<EntryView>::empty(),
                self.spec_policy() == pol,
                self.spec_written() == w0 + ready_of(snap.take(i as int), pol, now as int),
                self.spec_outcomes() == out0 + outs,
                outs.len() == ready_of(snap.take(i as int), pol, now as int).len(),
                partition_views(committed@) == accepted_commits(
                    ready_of(snap.take(i as int), pol, now as int),
                    outs,
                ),
                store.batches_view() == remove_all(snap, partition_views(committed@)),
                forall|k: int|
                    0 <= k < committed@.len() ==> has_ready_partition(
                        snap,
                        pol,
                        now as int,
                        committed@[k]@,
                    ),
            decreases snapshot@.len() - i,
        {
            let ghost pre = snap.take(i as int);
            let ghost ready_pre = ready_of(pre, pol, now as int);
            proof {
                assert(snap.take(i as int + 1).drop_last() =~= pre);
                assert(snap.take(i as int + 1).last() == snap[i as int]);
            }
            let b = &snapshot[i];
            proof {
                assert(b@ == snap[i as int]);
            }
            if self.policy.is_ready(b, now) {
                let ghost ready_post = ready_of(snap.take(i as int + 1), pol, now as int);
                let ok = self.writer.write(b);
                proof {
                    assert(ready_pre.push(snap[i as int]) =~= ready_post);
                    assert(self.spec_written() =~= w0 + ready_post);
                    let outs_pre = outs;
                    outs = outs.push(ok);
                    assert(self.spec_outcomes() =~= out0 + outs);
                    // The commit bookkeeping pairs the new answer with the
                    // new ready batch.
                    assert(outs.drop_last() =~= outs_pre);
                    assert(ready_post.drop_last() =~= ready_pre);
                    assert(ready_post.last() == snap[i as int]);
                    assert(outs.last() == ok);
                    assert(ready_post.len() == outs.len());
                    assert(accepted_commits(ready_post, outs) == accepted_commits(
                        ready_pre,
                        outs_pre,
                    ) + if ok {
                        seq![snap[i as int].partition]
                    } else {
                        Seq::<PartitionView>::empty()
                    });
                }
                if ok {
                    let ghost ps0 = partition_views(committed@);
                    store.delete_batch(b.partition());
                    committed.push(b.partition().clone());
                    proof {
                        lemma_remove_all_push(snap, ps0, b@.partition);
                        assert(partition_views(committed@) =~= ps0.push(b@.partition));
                        assert(store.batches_view() == remove_all(
                            snap,
                            partition_views(committed@),
                        ));
                        assert(partition_views(committed@) =~= accepted_commits(
                            ready_post,
                            outs,
                        ));
                    }
                } else {
                    proof {
                        assert(partition_views(committed@) =~= accepted_commits(
                            ready_post,
                            outs,
                        ));
                    }
                }
            } else {
                proof {
                    assert(ready_of(snap.take(i as int + 1), pol, now as int) =~= ready_pre);
                }
            }
            i += 1;
        }
        proof {
            assert(snap.take(snapshot@.len() as int) =~= snap);
            assert((out0 + outs).take(out0.len() as int) =~= out0);
            assert((out0 + outs).skip(out0.len() as int) =~= outs);
            lemma_remove_all_effect(snap, partition_views(committed@));
            assert forall|k: int| 0 <= k < committed@.len() implies !has_partition(
                store.batches_view(),
                committed@[k]@,
            ) by {
                assert(partition_views(committed@)[k] == committed@[k]@);
            }
        }
        committed
    }

    /// The forced flush of the shutdown path: writes every batch currently
    /// in the store to the sink, ready or not, and deletes none of them.
    /// Every batch is written once, in snapshot order, each carrying all
    /// records accumulated so far; a batch the sink refused is retried once
    /// at the end — the last chance before the store is discarded — and the
    /// count of batches still refused after the retry is returned.
    pub fn flush(&mut self, store: &mut StoreImpl) -> (refused: usize)
        requires
            old(store).wf(),
        ensures
            final(store).wf(),
            final(store).queue_view() == Seq::<EntryView>::empty(),
            final(store).batches_view() == merge_all(
                old(store).batches_view(),
                old(store).queue_view(),
            ),
            final(self).spec_policy() == old(self).spec_policy(),
            ({
                let snap = merge_all(old(store).batches_view(), old(store).queue_view());
                let n0 = old(self).spec_outcomes().len() as int;
                let first_answers = final(self).spec_outcomes().subrange(n0, n0 + snap.len());
                let retried = refused_of(snap, first_answers);
                let retry_answers = final(self).spec_outcomes().skip(n0 + snap.len());
                &&& final(self).spec_outcomes().take(n0) == old(self).spec_outcomes()
                &&& final(self).spec_outcomes().len() == n0 + snap.len() + retried.len()
                &&& final(self).spec_written() == old(self).spec_written() + snap + retried
                &&& refused as int == refusal_count(retry_answers)
            }),
    {
        let ghost pol = self.policy;
        let ghost w0 = self.writer.written();
        let ghost out0 = self.writer.outcomes();
        let ghost mut outs1 = Seq::<bool>::empty();
        let snapshot = store.batches();
        let ghost snap = batch_views(snapshot@);
        let mut retries: Vec<Batch> = Vec::new();
        let mut i: usize = 0;
        proof {
            assert(self.spec_written() =~= w0 + snap.take(0));
            assert(self.spec_outcomes() =~= out0 + outs1);
            assert(batch_views(retries@) =~= refused_of(snap.take(0), outs1));
        }
        while i < snapshot.len()
            invariant
                i <= snapshot@.len(),
                batch_views(snapshot@) == snap,
                self.spec_policy() == pol,
                self.spec_written() == w0 + snap.take(i as int),
                self.spec_outcomes() == out0 + outs1,
                outs1.len() == i,
                batch_views(retries@) == refused_of(snap.take(i as int), outs1),
            decreases snapshot@.len() - i,
        {
            let ghost pre = snap.take(i as int);
            let b = &snapshot[i];
            let ok = self.writer.write(b);
            proof {
                assert(snap.take(i as int + 1) =~= pre.push(snap[i as int]));
                assert(snap.take(i as int + 1).drop_last() =~= pre);
                let outs1_pre = outs1;
                outs1 = outs1.push(ok);
                assert(self.spec_outcomes() =~= out0 + outs1);
                assert(outs1.drop_last() =~= outs1_pre);
                assert(refused_of(snap.take(i as int + 1), outs1) == refused_of(pre, outs1_pre)
                    + if ok {
                    Seq::<BatchView>::empty()
                } else {
                    seq![snap[i as int]]
                });
            }
            if !ok {
                retries.push(b.clone());
            }
            proof {
                assert(batch_views(retries@) =~= refused_of(snap.take(i as int + 1), outs1));
            }
            i += 1;
        }
        proof {
            assert(snap.take(snapshot@.len() as int) =~= snap);
        }
        // The retry pass: one more attempt per refused batch, counting what
        // the sink still refuses.
        let ghost retried = batch_views(retries@);
        let ghost mut outs2 = Seq::<bool>::empty();
        let mut refused: usize = 0;
        let mut j: usize = 0;
        proof {
            assert(self.spec_written() =~= w0 + snap + retried.take(0));
            assert(refusal_count(outs2) == 0);
        }
        while j < retries.len()
            invariant
                j <= retries@.len(),
                batch_views(retries@) == retried,
                self.spec_policy() == pol,
                self.spec_written() == (w0 + snap) + retried.take(j as int),
                self.spec_outcomes() == (out0 + outs1) + outs2,
                outs1.len() == snap.len(),
                outs2.len() == j,
                retried == refused_of(snap, outs1),
                refused as int == refusal_count(outs2),
                refused <= j,
            decreases retries@.len() - j,
        {
            let ok = self.writer.write(&retries[j]);
            proof {
                assert(retried.take(j as int + 1) =~= retried.take(j as int).push(
                    retried[j as int],
                ));
                let outs2_pre = outs2;
                outs2 = outs2.push(ok);
                assert(self.spec_outcomes() =~= (out0 + outs1) + outs2);
                assert(outs2.drop_last() =~= outs2_pre);
            }
            if !ok {
                refused += 1;
            }
            j += 1;
        }
        proof {
            assert(retried.take(retries@.len() as int) =~= retried);
            let all = (out0 + outs1) + outs2;
            assert(all.take(out0.len() as int) =~= out0);
            assert(all.subrange(out0.len() as int, out0.len() as int + snap.len() as int)
                =~= outs1);
            assert(all.skip(out0.len() as int + snap.len() as int) =~= outs2);
            assert((w0 + snap) + retried =~= w0 + snap + retried);
        }
        refused
    }
}

} // verus!
