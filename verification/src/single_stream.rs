//! The single-stream downloader: one sequential request, read chunk by chunk.
//!
//! The caller makes the request, reads the body in chunks of `CHUNK_SIZE` bytes and writes
//! them to the destination file; this module keeps the byte count and says what is
//! notified when. With a known total every chunk is followed by a percentage and the end
//! by one hundred percent; with an unknown total a single notice goes out at the start.

use vstd::prelude::*;
use crate::probe::{
    check_status, declared_total, header_bytes, status_line, total_size_of, HttpStatus, Request,
};
use crate::progress::{
    lemma_percent_bounded, lemma_percent_monotone, percent_hundredths, Progress, COMPLETE,
};

verus! {

/// Size of the buffer that the body is read into.
pub const CHUNK_SIZE: usize = 8192;

/// A single-stream download in progress.
#[derive(Clone, Copy, Debug, PartialEq, Eq, Structural)]
pub struct SingleStream {
    /// Size of the resource as the response declares it; 0 where it is unknown.
    pub total_size: u64,
    /// Bytes written so far.
    pub downloaded: u64,
}

/// A byte count with more bytes added, held at the largest count there is.
pub open spec fn saturating_sum(count: u64, bytes: usize) -> u64 {
    if count + bytes > u64::MAX {
        u64::MAX
    } else {
        (count + bytes) as u64
    }
}

impl SingleStream {
    /// The download as the response opens it: nothing written yet.
    pub open spec fn opened(total_size: u64) -> SingleStream {
        SingleStream { total_size, downloaded: 0 }
    }

    /// The notices that go out before the first chunk is read: one, without a percentage,
    /// where the total is unknown.
    pub open spec fn start_notices(self) -> Seq<Progress> {
        if self.total_size == 0 {
            seq![Progress::Indeterminate]
        } else {
            Seq::empty()
        }
    }

    /// The download after a chunk of `bytes` bytes has been written.
    pub open spec fn after_chunk(self, bytes: usize) -> SingleStream {
        SingleStream {
            total_size: self.total_size,
            downloaded: saturating_sum(self.downloaded, bytes),
        }
    }

    /// The notices that go out in the current state, after a chunk: the percentage, where
    /// the total is known.
    pub open spec fn chunk_notices(self) -> Seq<Progress> {
        if self.total_size > 0 {
            seq![
                Progress::Percent(
                    percent_hundredths(self.downloaded as nat, self.total_size as nat) as u128,
                ),
            ]
        } else {
            Seq::empty()
        }
    }

    /// The notices that go out when the body has ended: one hundred percent, where the
    /// total is known.
    pub open spec fn end_notices(self) -> Seq<Progress> {
        if self.total_size > 0 {
            seq![Progress::Percent(COMPLETE)]
        } else {
            Seq::empty()
        }
    }

    /// Opens the download on the response to the request: a refused status fails it, and
    /// the `Content-Length` header gives the total.
    pub fn open(status: &HttpStatus, content_length: Option<&[u8]>) -> (r: Result<
        SingleStream,
        String,
    >)
        ensures
            r is Ok <==> status.success(),
            r matches Ok(stream) ==> stream == SingleStream::opened(
                declared_total(header_bytes(content_length)),
            ),
            r matches Err(message) ==> message@ == Request::Get.refusal_prefix() + status_line(
                status.value(),
            ),
    {
        match check_status(Request::Get, status) {
            Err(message) => Err(message),
            Ok(()) => Ok(SingleStream { total_size: total_size_of(content_length), downloaded: 0 }),
        }
    }

    /// What is notified once the destination file exists and before the body is read.
    pub fn on_start(&self) -> (notice: Option<Progress>)
        ensures
            option_notices(notice) == self.start_notices(),
    {
        if self.total_size == 0 {
            Some(Progress::Indeterminate)
        } else {
            None
        }
    }

    /// Counts a chunk of `bytes` bytes that has been written, and says what is notified.
    pub fn on_chunk(&mut self, bytes: usize) -> (notice: Option<Progress>)
        ensures
            *final(self) == old(self).after_chunk(bytes),
            option_notices(notice) == final(self).chunk_notices(),
    {
        self.downloaded = self.downloaded.saturating_add(bytes as u64);
        if self.total_size > 0 {
            Some(Progress::of(self.downloaded, self.total_size))
        } else {
            None
        }
    }

    /// What is notified when the body has ended.
    pub fn on_end(&self) -> (notice: Option<Progress>)
        ensures
            option_notices(notice) == self.end_notices(),
    {
        if self.total_size > 0 {
            Some(Progress::complete())
        } else {
            None
        }
    }
}

/// A notice, if there is one, as a list.
pub open spec fn option_notices(notice: Option<Progress>) -> Seq<Progress> {
    match notice {
        Some(p) => seq![p],
        None => Seq::empty(),
    }
}

/// The download after the first `n` chunks of a body.
pub open spec fn stream_after(total_size: u64, chunks: Seq<usize>, n: int) -> SingleStream
    decreases n,
{
    if n <= 0 {
        SingleStream::opened(total_size)
    } else {
        stream_after(total_size, chunks, n - 1).after_chunk(chunks[n - 1])
    }
}

/// The notices of a download from its start through its first `n` chunks.
pub open spec fn notices_through(total_size: u64, chunks: Seq<usize>, n: int) -> Seq<Progress>
    decreases n,
{
    if n <= 0 {
        SingleStream::opened(total_size).start_notices()
    } else {
        notices_through(total_size, chunks, n - 1) + stream_after(
            total_size,
            chunks,
            n,
        ).chunk_notices()
    }
}

/// All notices of a download whose body arrives in the given chunks and then ends.
pub open spec fn stream_notices(total_size: u64, chunks: Seq<usize>) -> Seq<Progress> {
    notices_through(total_size, chunks, chunks.len() as int) + stream_after(
        total_size,
        chunks,
        chunks.len() as int,
    ).end_notices()
}

/// The bytes of the first `n` chunks, added up.
pub open spec fn delivered(chunks: Seq<usize>, n: int) -> int
    decreases n,
{
    if n <= 0 {
        0
    } else {
        delivered(chunks, n - 1) + chunks[n - 1]
    }
}

/// A download of unknown size notifies once, at its start, that it runs: no percentage
/// follows, and no one hundred percent at the end.
pub proof fn lemma_unknown_size_notices(chunks: Seq<usize>)
    ensures
        stream_notices(0, chunks) == seq![Progress::Indeterminate],
{
    lemma_unknown_size_through(chunks, chunks.len() as int);
    assert(stream_notices(0, chunks) =~= seq![Progress::Indeterminate]);
}

proof fn lemma_unknown_size_through(chunks: Seq<usize>, n: int)
    ensures
        stream_after(0, chunks, n).total_size == 0,
        notices_through(0, chunks, n) == seq![Progress::Indeterminate],
    decreases n,
{
    if n > 0 {
        lemma_unknown_size_through(chunks, n - 1);
        assert(notices_through(0, chunks, n) =~= seq![Progress::Indeterminate]);
    }
}

/// The state of a download of known size after `n` chunks, and its notices so far: one
/// percentage per chunk, each for the bytes delivered up to it.
proof fn lemma_known_size_through(total_size: u64, chunks: Seq<usize>, n: int)
    requires
        total_size > 0,
        0 <= n <= chunks.len(),
    ensures
        stream_after(total_size, chunks, n).total_size == total_size,
        0 <= delivered(chunks, n),
        delivered(chunks, n) <= u64::MAX ==> stream_after(total_size, chunks, n).downloaded
            == delivered(chunks, n),
        notices_through(total_size, chunks, n).len() == n,
        forall|k: int|
            0 <= k < n ==> #[trigger] notices_through(total_size, chunks, n)[k] == Progress::Percent(
                percent_hundredths(
                    stream_after(total_size, chunks, k + 1).downloaded as nat,
                    total_size as nat,
                ) as u128,
            ),
        forall|k: int|
            0 <= k <= n ==> (#[trigger] stream_after(total_size, chunks, k)).downloaded
                <= stream_after(total_size, chunks, n).downloaded,
        forall|k: int| 0 <= k <= n ==> #[trigger] delivered(chunks, k) <= delivered(chunks, n),
    decreases n,
{
    if n > 0 {
        lemma_known_size_through(total_size, chunks, n - 1);
        let before = notices_through(total_size, chunks, n - 1);
        let now = notices_through(total_size, chunks, n);
        assert forall|k: int| 0 <= k < n implies #[trigger] now[k] == Progress::Percent(
            percent_hundredths(
                stream_after(total_size, chunks, k + 1).downloaded as nat,
                total_size as nat,
            ) as u128,
        ) by {
            if k < n - 1 {
                assert(now[k] == before[k]);
            }
        }
    }
}

/// A download of known size notifies a percentage after every chunk and one hundred
/// percent at the end, and nothing else. The percentages never fall, whatever the length
/// of the body.
pub proof fn lemma_known_size_notices(total_size: u64, chunks: Seq<usize>)
    requires
        total_size > 0,
    ensures
        stream_notices(total_size, chunks).len() == chunks.len() + 1,
        forall|k: int|
            0 <= k < stream_notices(total_size, chunks).len() ==> (#[trigger] stream_notices(
                total_size,
                chunks,
            )[k]) is Percent,
        stream_notices(total_size, chunks).last() == Progress::Percent(COMPLETE),
        forall|i: int, j: int|
            0 <= i <= j < stream_notices(total_size, chunks).len() ==> (#[trigger] stream_notices(
                total_size,
                chunks,
            )[i]).percentage() <= (#[trigger] stream_notices(total_size, chunks)[j]).percentage(),
{
    let n = chunks.len() as int;
    let through = notices_through(total_size, chunks, n);
    let all = stream_notices(total_size, chunks);
    lemma_known_size_through(total_size, chunks, n);
    assert(all =~= through.push(Progress::Percent(COMPLETE)));
    assert forall|k: int| 0 <= k < all.len() implies (#[trigger] all[k]) is Percent by {
        if k < n {
            assert(all[k] == through[k]);
        }
    }
    assert forall|i: int, j: int|
        0 <= i <= j < all.len() implies (#[trigger] all[i]).percentage() <= (
        #[trigger] all[j]).percentage() by {
        if i < n {
            let at_i = stream_after(total_size, chunks, i + 1).downloaded;
            assert(all[i] == through[i]);
            lemma_known_size_through(total_size, chunks, i + 1);
            lemma_percent_bounded(at_i as nat, total_size as nat);
            if j < n {
                let at_j = stream_after(total_size, chunks, j + 1).downloaded;
                assert(all[j] == through[j]);
                lemma_known_size_through(total_size, chunks, j + 1);
                lemma_percent_monotone(at_i as nat, at_j as nat, total_size as nat);
                lemma_percent_bounded(at_j as nat, total_size as nat);
            }
        }
    }
}

} // verus!
