//! The downstream side of a flush: the sink a batch is persisted to, the
//! object key it is filed under, and the file content built from its records.

use crate::batch::{batch_views, Batch, BatchView, Partition, PartitionView};
use crate::time;
use vstd::prelude::*;
use vstd::string::{StrSliceExecFns, StringExecFns};

pub use batch::{BatchWriter, FlushPolicy};

pub mod batch;

verus! {

/// Sink that persists one committed batch as a single logical unit.
///
/// The library ships with [`MemoryWriter`]; a production implementation
/// wraps object storage and reports its outcome through `ok`.
pub trait Writer {
    /// The batches handed to `write` so far, in arrival order. Every call is
    /// recorded, succeed or fail.
    spec fn written(&self) -> Seq<BatchView>;

    /// The sink's answer to each call of `write` so far, in the same order:
    /// `written()[i]` was accepted exactly when `outcomes()[i]` holds.
    spec fn outcomes(&self) -> Seq<bool>;

    /// Persists the batch; `ok` reports whether the sink accepted it, and is
    /// recorded beside the batch.
    fn write(&mut self, batch: &Batch) -> (ok: bool)
        ensures
            final(self).written() == old(self).written().push(batch@),
            final(self).outcomes() == old(self).outcomes().push(ok),
    ;
}

/// An in-memory sink: it keeps every batch handed to it and always succeeds.
pub struct MemoryWriter {
    received: Vec<Batch>,
}

impl MemoryWriter {
    pub fn new() -> (w: MemoryWriter)
        ensures
            w.written() == Seq::<BatchView>::empty(),
            w.outcomes() == Seq::<bool>::empty(),
    {
        let w = MemoryWriter { received: Vec::new() };
        proof {
            assert(batch_views(w.received@) =~= Seq::<BatchView>::empty());
            assert(w.outcomes() =~= Seq::<bool>::empty());
        }
        w
    }

    /// The batches received so far, in order.
    pub fn received(&self) -> (r: &Vec<Batch>)
        ensures
            batch_views(r@) == self.written(),
    {
        &self.received
    }
}

/// A [`MemoryWriter`] never refuses: every recorded answer is an acceptance.
pub proof fn lemma_memory_writer_accepts(w: MemoryWriter)
    ensures
        forall|i: int| 0 <= i < w.outcomes().len() ==> w.outcomes()[i],
{
}

impl Writer for MemoryWriter {
    closed spec fn written(&self) -> Seq<BatchView> {
        batch_views(self.received@)
    }

    closed spec fn outcomes(&self) -> Seq<bool> {
        Seq::new(self.received@.len(), |i: int| true)
    }

    fn write(&mut self, batch: &Batch) -> (ok: bool)
        ensures
            ok,
    {
        let ghost before = batch_views(self.received@);
        let ghost outs_before = self.outcomes();
        self.received.push(batch.clone());
        proof {
            assert(batch_views(self.received@) =~= before.push(batch@));
            assert(self.outcomes() =~= outs_before.push(true));
        }
        true
    }
}

/// The object key a batch is filed under: namespaced by the partition's
/// source and date, ending in a per-write identifier.
pub open spec fn object_key_spec(p: PartitionView, id: Seq<char>) -> Seq<char> {
    "output/source="@ + p.source + "/date="@ + time::date_str(p.date) + "/"@ + id + ".jsonl"@
}

/// Builds the object key for a partition from a given identifier.
pub fn object_key(partition: &Partition, id: &str) -> (r: String)
    ensures
        r@ == object_key_spec(partition@, id@),
{
    let mut out = String::new();
    out.append("output/source=");
    out.append(partition.source());
    out.append("/date=");
    time::append_date(&mut out, partition.date());
    out.append("/");
    out.append(id);
    out.append(".jsonl");
    proof {
        assert(out@ =~= object_key_spec(partition@, id@));
    }
    out
}

/// Relies on `uuid::Uuid::new_v4` and its `Display` rendering: a freshly
/// drawn identifier, hyphenated to 36 characters. Nothing else can be said
/// of a random value.
#[verifier::external_body]
fn generate_id() -> (r: String)
    ensures
        r@.len() == 36,
{
    uuid::Uuid::new_v4().to_string()
}

/// Builds the object key for a partition under a freshly drawn identifier.
pub fn fresh_object_key(partition: &Partition) -> (r: String)
    ensures
        exists|id: Seq<char>| id.len() == 36 && r@ == object_key_spec(partition@, id),
{
    let id = generate_id();
    let r = object_key(partition, id.as_str());
    proof {
        assert(id@.len() == 36 && r@ == object_key_spec(partition@, id@));
    }
    r
}

/// A batch's records joined with newlines, in arrival order.
pub open spec fn joined_records(rs: Seq<Seq<char>>) -> Seq<char>
    decreases rs.len(),
{
    if rs.len() == 0 {
        Seq::empty()
    } else if rs.len() == 1 {
        rs[0]
    } else {
        joined_records(rs.drop_last()) + seq!['\n'] + rs.last()
    }
}

/// The bytes a batch is persisted as: its records joined with newlines,
/// UTF-8 encoded.
pub fn file_content_from(records: &[String]) -> (r: Vec<u8>)
    ensures
        r@ == vstd::utf8::encode_utf8(joined_records(records.deep_view())),
{
    let ghost dv = records.deep_view();
    let mut out = String::new();
    let mut i: usize = 0;
    proof {
        assert(out@ =~= joined_records(dv.take(0)));
    }
    while i < records.len()
        invariant
            i <= records@.len(),
            dv == records.deep_view(),
            dv.len() == records@.len(),
            out@ == joined_records(dv.take(i as int)),
        decreases records@.len() - i,
    {
        if i > 0 {
            proof {
                reveal_strlit("\n");
                assert("\n"@ =~= seq!['\n']);
            }
            out.append("\n");
        }
        out.append(records[i].as_str());
        proof {
            assert(dv[i as int] == records@[i as int]@);
            assert(dv.take(i as int + 1).drop_last() =~= dv.take(i as int));
            assert(dv.take(i as int + 1).last() == dv[i as int]);
            if i == 0 {
                assert(out@ =~= joined_records(dv.take(1)));
            } else {
                assert(out@ =~= joined_records(dv.take(i as int + 1)));
            }
        }
        i += 1;
    }
    proof {
        assert(dv.take(records@.len() as int) =~= dv);
    }
    out.as_str().as_bytes_vec()
}

} // verus!
