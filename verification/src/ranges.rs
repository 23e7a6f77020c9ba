//! The range plan of a parallel download: a resource of known size cut into at most
//! `WORKER_COUNT` contiguous byte ranges, one per worker.

use vstd::prelude::*;
use crate::text::{decimal, push_decimal};

verus! {

/// Number of workers that a parallel download runs.
pub const WORKER_COUNT: u64 = 4;

/// A run of bytes of the resource, both ends included.
#[derive(Clone, Copy, Debug, PartialEq, Eq, Structural)]
pub struct ByteRange {
    pub start: u64,
    pub end: u64,
}

impl ByteRange {
    /// Whether the byte at `offset` belongs to the range.
    pub open spec fn covers(self, offset: int) -> bool {
        self.start <= offset <= self.end
    }

    /// Number of bytes in the range.
    pub open spec fn size(self) -> int {
        self.end - self.start + 1
    }

    /// The value of the request header that asks for this range.
    pub open spec fn header_text(self) -> Seq<char> {
        "bytes="@ + decimal(self.start as nat) + seq!['-'] + decimal(self.end as nat)
    }

    /// Renders the value of the `Range` request header, as in `bytes=0-1023`.
    pub fn header_value(&self) -> (s: String)
        ensures
            s@ == self.header_text(),
    {
        let mut s: String = "bytes=".to_owned();
        push_decimal(&mut s, self.start as u128);
        s.push('-');
        push_decimal(&mut s, self.end as u128);
        assert(s@ =~= self.header_text());
        s
    }
}

/// The share of one worker: the total divided by the worker count, rounded up.
pub open spec fn share_size(total: u64) -> int {
    (total + WORKER_COUNT - 1) / (WORKER_COUNT as int)
}

/// Whether worker `i` has anything to fetch: its share starts inside the resource.
pub open spec fn has_range(total: u64, i: int) -> bool {
    i * share_size(total) < total
}

/// The range of worker `i`: a full share, cut off at the end of the resource.
pub open spec fn nth_range(total: u64, i: int) -> ByteRange {
    let start = i * share_size(total);
    let end = if start + share_size(total) <= total {
        start + share_size(total) - 1
    } else {
        total - 1
    };
    ByteRange { start: start as u64, end: end as u64 }
}

/// Number of workers that have a range. The workers without one are the last ones.
pub open spec fn range_count(total: u64) -> int {
    if !has_range(total, 0) {
        0
    } else if !has_range(total, 1) {
        1
    } else if !has_range(total, 2) {
        2
    } else if !has_range(total, 3) {
        3
    } else {
        4
    }
}

/// The range plan of a resource of `total` bytes.
pub open spec fn range_plan(total: u64) -> Seq<ByteRange> {
    Seq::new(range_count(total) as nat, |i: int| nth_range(total, i))
}

/// What the ceiling division gives: the shares of all workers together reach the end of
/// the resource, and one byte less per share would not.
proof fn lemma_share_size(total: u64)
    ensures
        0 <= share_size(total),
        WORKER_COUNT * share_size(total) >= total,
        total > 0 ==> WORKER_COUNT * (share_size(total) - 1) < total,
        total == 0 ==> share_size(total) == 0,
{
}

/// The workers with a range are exactly the first `range_count(total)` ones.
pub proof fn lemma_range_count(total: u64)
    ensures
        0 <= range_count(total) <= WORKER_COUNT,
        forall|i: int|
            0 <= i < WORKER_COUNT ==> (#[trigger] has_range(total, i) <==> i < range_count(total)),
        total > 0 ==> range_count(total) >= 1,
{
    lemma_share_size(total);
    let share = share_size(total);
    assert forall|i: int| 0 <= i < WORKER_COUNT implies (#[trigger] has_range(total, i) <==> i
        < range_count(total)) by {
        assert(0 * share == 0);
        assert(1 * share == share);
        assert(2 * share == share + share);
        assert(3 * share == share + share + share);
    }
}

/// Computes the range plan: worker `i` takes the share that starts at `i` shares, the
/// last range ends with the resource, and a worker whose share would start at or after
/// the end gets none.
pub fn plan_ranges(total: u64) -> (plan: Vec<ByteRange>)
    ensures
        plan@ == range_plan(total),
{
    let share: u64 = total / WORKER_COUNT + if total % WORKER_COUNT == 0 {
        0u64
    } else {
        1u64
    };
    assert(share == share_size(total));
    let mut plan: Vec<ByteRange> = Vec::new();
    let mut i: u64 = 0;
    proof {
        lemma_range_count(total);
    }
    while i < WORKER_COUNT
        invariant
            i <= WORKER_COUNT,
            share == share_size(total),
            plan@.len() == if i <= range_count(total) {
                i as int
            } else {
                range_count(total)
            },
            forall|k: int| 0 <= k < plan@.len() ==> plan@[k] == nth_range(total, k),
            forall|k: int|
                0 <= k < WORKER_COUNT ==> (#[trigger] has_range(total, k) <==> k < range_count(
                    total,
                )),
        decreases WORKER_COUNT - i,
    {
        proof {
            lemma_share_size(total);
            assert(i * share <= 3 * share) by (nonlinear_arith)
                requires
                    i <= 3,
                    share >= 0,
            ;
        }
        let start: u64 = i * share;
        assert(has_range(total, i as int) <==> start < total);
        if start < total {
            let end: u64 = if total - start <= share {
                total - 1
            } else {
                start + share - 1
            };
            plan.push(ByteRange { start, end });
        }
        i = i + 1;
    }
    assert(plan@ =~= range_plan(total));
    plan
}

/// The ranges of a plan lie end to end: the first starts at byte 0, each next one starts
/// right after the one before, the last ends with the last byte, and none is empty.
pub proof fn lemma_ranges_tile(total: u64)
    ensures
        range_plan(total).len() <= WORKER_COUNT,
        total == 0 ==> range_plan(total).len() == 0,
        total > 0 ==> range_plan(total).len() >= 1 && range_plan(total)[0].start == 0
            && range_plan(total).last().end == total - 1,
        forall|i: int|
            0 <= i < range_plan(total).len() ==> (#[trigger] range_plan(total)[i]).start
                <= range_plan(total)[i].end < total,
        forall|i: int|
            0 <= i < range_plan(total).len() - 1 ==> (#[trigger] range_plan(total)[i + 1]).start
                == range_plan(total)[i].end + 1,
{
    lemma_share_size(total);
    lemma_range_count(total);
    let share = share_size(total);
    let plan = range_plan(total);
    assert(0 * share == 0);
    assert(1 * share == share);
    assert(2 * share == share + share);
    assert(3 * share == share + share + share);
    assert(4 * share == share + share + share + share);
    assert forall|i: int| 0 <= i < plan.len() implies (#[trigger] plan[i]).start <= plan[i].end
        < total by {
        assert(has_range(total, i));
    }
    assert forall|i: int| 0 <= i < plan.len() - 1 implies (#[trigger] plan[i + 1]).start
        == plan[i].end + 1 by {
        assert(has_range(total, i));
        assert(has_range(total, i + 1));
        assert((i + 1) * share == i * share + share) by (nonlinear_arith);
    }
    if total > 0 {
        let last = plan.len() - 1;
        assert(has_range(total, last));
        assert((last + 1) * share == last * share + share) by (nonlinear_arith);
        if last + 1 < WORKER_COUNT {
            assert(!has_range(total, last + 1));
        }
    }
}

/// The ranges of a plan lie apart and in order: a range ends before any later one
/// starts, so no two workers are given the same byte.
pub proof fn lemma_ranges_apart(total: u64, i: int, j: int)
    requires
        0 <= i < j < range_plan(total).len(),
    ensures
        range_plan(total)[i].end < range_plan(total)[j].start,
{
    lemma_share_size(total);
    lemma_range_count(total);
    let share = share_size(total);
    assert(has_range(total, i));
    assert(has_range(total, j));
    assert((i + 1) * share <= j * share) by (nonlinear_arith)
        requires
            i + 1 <= j,
            share >= 0,
    ;
    assert((i + 1) * share == i * share + share) by (nonlinear_arith);
}

/// Every byte of the resource has its range: the one that the returned position names.
pub proof fn lemma_byte_has_range(total: u64, offset: int) -> (i: int)
    requires
        0 <= offset < total,
    ensures
        0 <= i < range_plan(total).len(),
        range_plan(total)[i].covers(offset),
{
    lemma_share_size(total);
    lemma_range_count(total);
    let share = share_size(total);
    assert(0 * share == 0);
    assert(1 * share == share);
    assert(2 * share == share + share);
    assert(3 * share == share + share + share);
    assert(4 * share == share + share + share + share);
    let i: int = if offset < share {
        0
    } else if offset < 2 * share {
        1
    } else if offset < 3 * share {
        2
    } else {
        3
    };
    assert(has_range(total, i));
    i
}

/// How many of the first `n` ranges of a plan hold the byte at `offset`.
pub open spec fn times_covered(plan: Seq<ByteRange>, n: int, offset: int) -> int
    decreases n,
{
    if n <= 0 {
        0
    } else {
        times_covered(plan, n - 1, offset) + if plan[n - 1].covers(offset) {
            1int
        } else {
            0int
        }
    }
}

/// Every byte of the resource lies in exactly one range of the plan, and a byte outside
/// the resource in none: the plan covers `[0, total)` once, with no gap and no overlap.
pub proof fn lemma_ranges_cover_exactly_once(total: u64)
    ensures
        forall|offset: int|
            #[trigger] times_covered(range_plan(total), range_plan(total).len() as int, offset)
                == if 0 <= offset < total {
                1int
            } else {
                0int
            },
{
    lemma_ranges_tile(total);
    let plan = range_plan(total);
    reveal_with_fuel(times_covered, 5);
    if plan.len() >= 2 {
        assert(plan[1].start == plan[0].end + 1);
    }
    if plan.len() >= 3 {
        assert(plan[2].start == plan[1].end + 1);
    }
    if plan.len() >= 4 {
        assert(plan[3].start == plan[2].end + 1);
    }
}

/// The sizes of the first `n` ranges of a plan, added up.
pub open spec fn planned_bytes(plan: Seq<ByteRange>, n: int) -> int
    decreases n,
{
    if n <= 0 {
        0
    } else {
        planned_bytes(plan, n - 1) + plan[n - 1].size()
    }
}

/// The ranges of a plan hold as many bytes as the resource: workers that each deliver
/// their range deliver the whole of it.
pub proof fn lemma_ranges_add_up(total: u64)
    ensures
        planned_bytes(range_plan(total), range_plan(total).len() as int) == total,
{
    lemma_ranges_tile(total);
    let plan = range_plan(total);
    reveal_with_fuel(planned_bytes, 5);
    if plan.len() >= 2 {
        assert(plan[1].start == plan[0].end + 1);
    }
    if plan.len() >= 3 {
        assert(plan[2].start == plan[1].end + 1);
    }
    if plan.len() >= 4 {
        assert(plan[3].start == plan[2].end + 1);
    }
}

} // verus!
