//! How a parallel download puts the resource together: a model of the destination file
//! and of the writes that the workers make into it.
//!
//! The file is a run of bytes of the size of the resource. A worker writes each chunk of
//! its body at the offset that its `RangeWorker` gives: the start of its range plus the
//! bytes it has placed before. Where every worker receives the bytes of its range, the
//! file holds the resource once all chunks are written, in whatever order they arrive.

use vstd::prelude::*;
use crate::parallel::RangeWorker;
use crate::ranges::{lemma_byte_has_range, lemma_ranges_tile, range_plan, ByteRange};
use crate::single_stream::delivered;

verus! {

/// One write into the file: bytes, and the offset at which they are placed.
#[verifier::ext_equal]
pub struct FileWrite {
    pub at: int,
    pub bytes: Seq<u8>,
}

impl FileWrite {
    /// Whether the write places a byte at `offset`.
    pub open spec fn covers(self, offset: int) -> bool {
        self.at <= offset < self.at + self.bytes.len()
    }

    /// Whether the write places bytes of the resource where they belong: inside the
    /// resource, each at its own offset.
    pub open spec fn true_to(self, resource: Seq<u8>) -> bool {
        &&& 0 <= self.at
        &&& self.at + self.bytes.len() <= resource.len()
        &&& forall|j: int| 0 <= j < self.bytes.len() ==> self.bytes[j] == resource[self.at + j]
    }
}

/// The file after a write: the bytes of the write at their offsets, and what the file
/// held everywhere else.
pub open spec fn written(file: Seq<u8>, write: FileWrite) -> Seq<u8> {
    Seq::new(
        file.len(),
        |i: int|
            if write.covers(i) {
                write.bytes[i - write.at]
            } else {
                file[i]
            },
    )
}

/// The file after the first `n` writes, in their order.
pub open spec fn after_writes(file: Seq<u8>, writes: Seq<FileWrite>, n: int) -> Seq<u8>
    decreases n,
{
    if n <= 0 {
        file
    } else {
        written(after_writes(file, writes, n - 1), writes[n - 1])
    }
}

/// The worker of a range after it has placed the first `n` chunks of the given sizes.
pub open spec fn worker_after(range: ByteRange, sizes: Seq<usize>, n: int) -> RangeWorker
    decreases n,
{
    if n <= 0 {
        RangeWorker { range, offset: range.start }
    } else {
        worker_after(range, sizes, n - 1).after_chunk(sizes[n - 1])
    }
}

/// The write that a worker makes for chunk `k` of its body, where the body is the bytes
/// of its range: the chunk goes to the start of the range plus the sizes of the chunks
/// before it, and holds the bytes of the resource from there on.
pub open spec fn chunk_write(resource: Seq<u8>, range: ByteRange, sizes: Seq<usize>, k: int) -> FileWrite {
    let at = range.start + delivered(sizes, k);
    FileWrite { at, bytes: resource.subrange(at, at + sizes[k]) }
}

/// Whether a write is the write of some chunk of some worker of the plan.
pub open spec fn is_chunk_write(
    resource: Seq<u8>,
    plan: Seq<ByteRange>,
    sizes: Seq<Seq<usize>>,
    write: FileWrite,
) -> bool {
    exists|i: int, k: int|
        0 <= i < plan.len() && 0 <= k < sizes[i].len() && write == #[trigger] chunk_write(
            resource,
            plan[i],
            sizes[i],
            k,
        )
}

/// Whether a write is among the writes made.
pub open spec fn is_made(writes: Seq<FileWrite>, write: FileWrite) -> bool {
    exists|m: int| 0 <= m < writes.len() && #[trigger] writes[m] == write
}

/// The bytes of chunks add up without ever falling.
proof fn lemma_delivered_grows(sizes: Seq<usize>, k: int, n: int)
    requires
        0 <= k <= n,
    ensures
        0 <= delivered(sizes, k) <= delivered(sizes, n),
    decreases n,
{
    if k < n {
        lemma_delivered_grows(sizes, k, n - 1);
    } else if n > 0 {
        lemma_delivered_grows(sizes, k - 1, n - 1);
    }
}

/// A worker writes its chunks one after another from the start of its range: after `n`
/// chunks the next one goes to the start plus the bytes placed so far.
pub proof fn lemma_worker_offset(range: ByteRange, sizes: Seq<usize>, n: int)
    requires
        0 <= n <= sizes.len(),
        range.start + delivered(sizes, n) <= u64::MAX,
    ensures
        worker_after(range, sizes, n).range == range,
        worker_after(range, sizes, n).offset == range.start + delivered(sizes, n),
    decreases n,
{
    if n > 0 {
        lemma_delivered_grows(sizes, n - 1, n);
        lemma_worker_offset(range, sizes, n - 1);
    }
}

/// Every byte that chunks deliver belongs to one of them: the one that the returned
/// position names.
proof fn lemma_chunk_of(sizes: Seq<usize>, n: int, d: int) -> (k: int)
    requires
        0 <= n <= sizes.len(),
        0 <= d < delivered(sizes, n),
    ensures
        0 <= k < n,
        delivered(sizes, k) <= d < delivered(sizes, k + 1),
    decreases n,
{
    if d >= delivered(sizes, n - 1) {
        n - 1
    } else {
        lemma_chunk_of(sizes, n - 1, d)
    }
}

/// Whether one of the first `n` writes places a byte at `offset`.
pub open spec fn covered(writes: Seq<FileWrite>, n: int, offset: int) -> bool
    decreases n,
{
    if n <= 0 {
        false
    } else {
        writes[n - 1].covers(offset) || covered(writes, n - 1, offset)
    }
}

/// A byte that one of the writes places is covered.
proof fn lemma_covered(writes: Seq<FileWrite>, n: int, m: int, offset: int)
    requires
        0 <= m < n <= writes.len(),
        writes[m].covers(offset),
    ensures
        covered(writes, n, offset),
    decreases n,
{
    if m < n - 1 {
        lemma_covered(writes, n - 1, m, offset);
    }
}

/// Writes that are true to the resource leave the file true to it wherever one of them
/// has placed a byte, in whatever order they are made, and leave its size as it was.
pub proof fn lemma_true_writes(file: Seq<u8>, resource: Seq<u8>, writes: Seq<FileWrite>, n: int)
    requires
        file.len() == resource.len(),
        0 <= n <= writes.len(),
        forall|m: int| 0 <= m < writes.len() ==> (#[trigger] writes[m]).true_to(resource),
    ensures
        after_writes(file, writes, n).len() == file.len(),
        forall|offset: int|
            0 <= offset < file.len() && covered(writes, n, offset) ==> #[trigger] after_writes(
                file,
                writes,
                n,
            )[offset] == resource[offset],
    decreases n,
{
    if n > 0 {
        lemma_true_writes(file, resource, writes, n - 1);
        let before = after_writes(file, writes, n - 1);
        let now = after_writes(file, writes, n);
        let write = writes[n - 1];
        assert(write.true_to(resource));
        assert forall|offset: int|
            0 <= offset < file.len() && covered(writes, n, offset) implies #[trigger] now[offset]
            == resource[offset] by {
            if write.covers(offset) {
                assert(write.bytes[offset - write.at] == resource[write.at + (offset - write.at)]);
            } else {
                assert(before[offset] == resource[offset]);
            }
        }
    }
}

/// A parallel download puts the resource together. Let the workers of the plan each
/// receive the bytes of their range, in chunks of any sizes, and let the writes into the
/// file be the writes of those chunks, each made at least once, in any order. Then the
/// file, sized to the resource beforehand, holds the resource.
pub proof fn lemma_download_fills_file(
    total: u64,
    resource: Seq<u8>,
    file: Seq<u8>,
    sizes: Seq<Seq<usize>>,
    writes: Seq<FileWrite>,
)
    requires
        resource.len() == total,
        file.len() == total,
        sizes.len() == range_plan(total).len(),
        forall|i: int|
            0 <= i < sizes.len() ==> delivered(#[trigger] sizes[i], sizes[i].len() as int)
                == range_plan(total)[i].size(),
        forall|m: int|
            0 <= m < writes.len() ==> is_chunk_write(
                resource,
                range_plan(total),
                sizes,
                #[trigger] writes[m],
            ),
        forall|i: int, k: int|
            0 <= i < sizes.len() && 0 <= k < sizes[i].len() ==> is_made(
                writes,
                #[trigger] chunk_write(resource, range_plan(total)[i], sizes[i], k),
            ),
    ensures
        after_writes(file, writes, writes.len() as int) == resource,
{
    let plan = range_plan(total);
    lemma_ranges_tile(total);
    assert forall|m: int| 0 <= m < writes.len() implies (#[trigger] writes[m]).true_to(resource) by {
        assert(is_chunk_write(resource, plan, sizes, writes[m]));
        let (i, k) = choose|i: int, k: int|
            0 <= i < plan.len() && 0 <= k < sizes[i].len() && writes[m] == #[trigger] chunk_write(
                resource,
                plan[i],
                sizes[i],
                k,
            );
        lemma_chunk_write_true(total, resource, sizes[i], i, k);
    }
    let n = writes.len() as int;
    lemma_true_writes(file, resource, writes, n);
    let after = after_writes(file, writes, n);
    assert forall|offset: int| 0 <= offset < total implies after[offset] == resource[offset] by {
        let i = lemma_byte_has_range(total, offset);
        let range = plan[i];
        assert(delivered(sizes[i], sizes[i].len() as int) == range.size());
        let k = lemma_chunk_of(sizes[i], sizes[i].len() as int, offset - range.start);
        let write = chunk_write(resource, range, sizes[i], k);
        lemma_chunk_write_true(total, resource, sizes[i], i, k);
        assert(write.bytes.len() == sizes[i][k]);
        assert(write.covers(offset));
        assert(is_made(writes, write));
        let m = choose|m: int| 0 <= m < writes.len() && #[trigger] writes[m] == write;
        lemma_covered(writes, n, m, offset);
    }
    assert(after =~= resource);
}

/// The write of a chunk of a worker that receives the bytes of its range is true to the
/// resource.
proof fn lemma_chunk_write_true(total: u64, resource: Seq<u8>, sizes: Seq<usize>, i: int, k: int)
    requires
        resource.len() == total,
        0 <= i < range_plan(total).len(),
        0 <= k < sizes.len(),
        delivered(sizes, sizes.len() as int) == range_plan(total)[i].size(),
    ensures
        chunk_write(resource, range_plan(total)[i], sizes, k).true_to(resource),
        chunk_write(resource, range_plan(total)[i], sizes, k).bytes.len() == sizes[k],
{
    lemma_ranges_tile(total);
    let range = range_plan(total)[i];
    lemma_delivered_grows(sizes, k, k + 1);
    lemma_delivered_grows(sizes, k + 1, sizes.len() as int);
    assert(range.start <= range.end < total);
}

} // verus!
