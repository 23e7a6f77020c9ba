//! The parallel ranged downloader: what the coordinator and its workers decide.
//!
//! The caller sizes the destination file, starts one worker per range of the plan and
//! polls the shared byte counter every `POLL_INTERVAL_MS` milliseconds. A worker asks for
//! its range, reads the body in chunks of `WORKER_CHUNK_SIZE` bytes and writes each at the
//! offset that its `RangeWorker` gives. This module says which strategy applies, where
//! each chunk goes, what each poll notifies, when polling ends, and how the download ends
//! once the workers have been waited for.

use vstd::prelude::*;
use crate::probe::{Capability, Strategy};
use crate::progress::{
    lemma_percent_bounded, lemma_percent_monotone, percent_hundredths, Progress, COMPLETE,
};
use crate::ranges::{plan_ranges, range_plan, ByteRange};

verus! {

/// Milliseconds between two polls of the byte counter.
pub const POLL_INTERVAL_MS: u64 = 150;

/// Size of the buffer that a worker reads its body into.
pub const WORKER_CHUNK_SIZE: usize = 32768;

/// How a resource is fetched, with what the strategy needs.
#[derive(Debug)]
pub enum DownloadPlan {
    /// One sequential request; the single-stream downloader takes over.
    SingleStream,
    /// The destination file is sized to `total_size` bytes first, then one worker per
    /// range fetches its range.
    Parallel { total_size: u64, ranges: Vec<ByteRange> },
}

/// Plans the download of a resource: ranges in parallel where the size is known and the
/// server supports ranges, and the single stream as the fallback.
pub fn plan_download(capability: &Capability) -> (plan: DownloadPlan)
    ensures
        capability.strategy() == Strategy::SingleStream ==> plan is SingleStream,
        capability.strategy() == Strategy::ParallelRanges ==> (plan matches DownloadPlan::Parallel {
            total_size,
            ranges,
        } && total_size == capability.total_size && total_size > 0 && ranges@ == range_plan(
            total_size,
        )),
{
    match capability.choose_strategy() {
        Strategy::SingleStream => DownloadPlan::SingleStream,
        Strategy::ParallelRanges => DownloadPlan::Parallel {
            total_size: capability.total_size,
            ranges: plan_ranges(capability.total_size),
        },
    }
}

/// One worker of a parallel download: its range, and the file offset of the next chunk.
#[derive(Clone, Copy, Debug, PartialEq, Eq, Structural)]
pub struct RangeWorker {
    pub range: ByteRange,
    pub offset: u64,
}

impl RangeWorker {
    /// A worker at the start of its range.
    pub fn start(range: ByteRange) -> (worker: RangeWorker)
        ensures
            worker == (RangeWorker { range, offset: range.start }),
    {
        RangeWorker { range, offset: range.start }
    }

    /// Bytes that the worker has placed so far.
    pub open spec fn placed(self) -> int {
        self.offset - self.range.start
    }

    /// The worker after it has placed a chunk of `bytes` bytes.
    pub open spec fn after_chunk(self, bytes: usize) -> RangeWorker {
        RangeWorker { range: self.range, offset: (self.offset + bytes) as u64 }
    }

    /// Places a chunk of `bytes` bytes: it is written at the returned file offset, right
    /// after the chunk before it, and the shared byte counter grows by `bytes`.
    pub fn on_chunk(&mut self, bytes: usize) -> (write_at: u64)
        requires
            old(self).offset + bytes <= u64::MAX,
        ensures
            write_at == old(self).offset,
            *final(self) == old(self).after_chunk(bytes),
            final(self).offset == old(self).offset + bytes,
            final(self).range == old(self).range,
    {
        let write_at: u64 = self.offset;
        self.offset = self.offset + bytes as u64;
        write_at
    }
}

/// What one poll of the byte counter leads to.
#[derive(Clone, Copy, Debug, PartialEq, Eq, Structural)]
pub struct Poll {
    /// The percentage to notify.
    pub notice: Progress,
    /// Whether polling ends here: the counter has reached the total, or no worker runs
    /// any more.
    pub finished: bool,
}

/// Evaluates one poll of a download of `total_size` bytes: the value of the byte counter,
/// and whether all workers have ended by now. The percentage is notified in any case.
/// Polling ends once the counter has reached the total; it also ends once all workers
/// have ended, because the counter then moves no more, and a worker that failed has left
/// it short of the total for good. After polling the workers are waited for, and
/// `join_workers` says how the download ends.
pub fn poll(total_size: u64, downloaded: u64, workers_ended: bool) -> (p: Poll)
    requires
        total_size > 0,
    ensures
        p.notice == Progress::Percent(
            percent_hundredths(downloaded as nat, total_size as nat) as u128,
        ),
        p.finished == (downloaded >= total_size || workers_ended),
{
    Poll {
        notice: Progress::of(downloaded, total_size),
        finished: downloaded >= total_size || workers_ended,
    }
}

/// How a worker ended.
#[derive(Clone, Debug, PartialEq, Eq)]
pub enum WorkerOutcome {
    /// The worker fetched its body to the end.
    Finished,
    /// The worker failed, with this message.
    Failed(String),
    /// The worker ended abnormally.
    Panicked,
}

impl WorkerOutcome {
    /// The message of the failure, if the worker did not finish.
    pub open spec fn failure_text(self) -> Option<Seq<char>> {
        match self {
            WorkerOutcome::Finished => None,
            WorkerOutcome::Failed(message) => Some(message@),
            WorkerOutcome::Panicked => Some("A download thread panicked"@),
        }
    }
}

/// The failure of the first worker, in the order of the list, that did not finish.
pub open spec fn first_failure(outcomes: Seq<WorkerOutcome>) -> Option<Seq<char>>
    decreases outcomes.len(),
{
    if outcomes.len() == 0 {
        None
    } else {
        match first_failure(outcomes.drop_last()) {
            Some(message) => Some(message),
            None => outcomes.last().failure_text(),
        }
    }
}

/// Ends a parallel download once every worker has been waited for. Where all workers
/// finished, the closing notice is one hundred percent; else the download fails with the
/// message of the first worker that did not, whatever became of the others.
pub fn join_workers(outcomes: &Vec<WorkerOutcome>) -> (r: Result<Progress, String>)
    ensures
        r is Ok <==> first_failure(outcomes@) is None,
        r matches Ok(notice) ==> notice == Progress::Percent(COMPLETE),
        r matches Err(message) ==> first_failure(outcomes@) == Some(message@),
{
    let mut i: usize = 0;
    while i < outcomes.len()
        invariant
            i <= outcomes.len(),
            first_failure(outcomes@.take(i as int)) is None,
        decreases outcomes.len() - i,
    {
        assert(outcomes@.take(i + 1).drop_last() =~= outcomes@.take(i as int));
        let failure: Option<String> = match &outcomes[i] {
            WorkerOutcome::Finished => None,
            WorkerOutcome::Failed(message) => Some(message.clone()),
            WorkerOutcome::Panicked => Some("A download thread panicked".to_owned()),
        };
        match failure {
            Some(message) => {
                proof {
                    lemma_failure_stays(outcomes@, i + 1);
                }
                return Err(message);
            },
            None => {},
        }
        i = i + 1;
    }
    assert(outcomes@.take(outcomes.len() as int) =~= outcomes@);
    Ok(Progress::complete())
}

/// A failure among the first `n` workers is the failure of the whole list.
proof fn lemma_failure_stays(outcomes: Seq<WorkerOutcome>, n: int)
    requires
        0 <= n <= outcomes.len(),
        first_failure(outcomes.take(n)) is Some,
    ensures
        first_failure(outcomes) == first_failure(outcomes.take(n)),
    decreases outcomes.len() - n,
{
    if n < outcomes.len() {
        assert(outcomes.take(n + 1).drop_last() =~= outcomes.take(n));
        lemma_failure_stays(outcomes, n + 1);
    } else {
        assert(outcomes.take(n) =~= outcomes);
    }
}

/// The first failure is that of the first worker that did not finish: every worker
/// before it finished, and where there is no failure all workers did.
pub proof fn lemma_first_failure(outcomes: Seq<WorkerOutcome>)
    ensures
        first_failure(outcomes) is None <==> forall|i: int|
            0 <= i < outcomes.len() ==> (#[trigger] outcomes[i]) is Finished,
        first_failure(outcomes) is Some ==> exists|k: int|
            0 <= k < outcomes.len() && (#[trigger] outcomes[k]).failure_text() == first_failure(
                outcomes,
            ) && forall|i: int| 0 <= i < k ==> (#[trigger] outcomes[i]) is Finished,
    decreases outcomes.len(),
{
    if outcomes.len() > 0 {
        let init = outcomes.drop_last();
        lemma_first_failure(init);
        assert forall|i: int| 0 <= i < init.len() implies init[i] == outcomes[i] by {}
        if first_failure(init) is Some {
            let k = choose|k: int|
                0 <= k < init.len() && (#[trigger] init[k]).failure_text() == first_failure(init)
                    && forall|i: int| 0 <= i < k ==> (#[trigger] init[i]) is Finished;
            assert(outcomes[k].failure_text() == first_failure(outcomes));
            assert forall|i: int| 0 <= i < k implies (#[trigger] outcomes[i]) is Finished by {
                assert(init[i] is Finished);
            }
            assert(!(outcomes[k] is Finished));
        } else {
            assert forall|i: int| 0 <= i < init.len() implies (#[trigger] outcomes[i])
                is Finished by {
                assert(init[i] is Finished);
            }
            let k = outcomes.len() - 1;
            if first_failure(outcomes) is Some {
                assert(outcomes[k].failure_text() == first_failure(outcomes));
            } else {
                assert(outcomes[k] is Finished);
            }
        }
    }
}

/// The notices of a parallel download that ends well: one percentage per poll of the byte
/// counter, then one hundred percent.
pub open spec fn parallel_notices(total_size: u64, polls: Seq<u64>) -> Seq<Progress> {
    Seq::new(
        polls.len(),
        |i: int| Progress::Percent(percent_hundredths(polls[i] as nat, total_size as nat) as u128),
    ).push(Progress::Percent(COMPLETE))
}

/// The percentages of a parallel download never fall and end at one hundred, given that
/// the byte counter never falls; workers only ever add to it.
pub proof fn lemma_parallel_notices(total_size: u64, polls: Seq<u64>)
    requires
        total_size > 0,
        forall|i: int, j: int| 0 <= i <= j < polls.len() ==> polls[i] <= polls[j],
    ensures
        parallel_notices(total_size, polls).last() == Progress::Percent(COMPLETE),
        forall|i: int, j: int|
            0 <= i <= j < parallel_notices(total_size, polls).len() ==> (#[trigger] parallel_notices(
                total_size,
                polls,
            )[i]).percentage() <= (#[trigger] parallel_notices(total_size, polls)[j]).percentage(),
{
    let all = parallel_notices(total_size, polls);
    assert forall|i: int, j: int| 0 <= i <= j < all.len() implies (#[trigger] all[i]).percentage()
        <= (#[trigger] all[j]).percentage() by {
        if i < polls.len() {
            lemma_percent_bounded(polls[i] as nat, total_size as nat);
            if j < polls.len() {
                lemma_percent_monotone(polls[i] as nat, polls[j] as nat, total_size as nat);
            }
        }
    }
}

} // verus!
