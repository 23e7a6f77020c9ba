//! Progress of one job as the caller reports it: percentages and phase markers.
//!
//! A percentage is kept in hundredths of a percent, so that "two decimal places" is exact
//! integer arithmetic: `downloaded / total * 100`, rounded to the nearest hundredth, a tie
//! going to the even one. It never passes one hundred: bytes beyond the total count as the
//! total.

use vstd::prelude::*;
use vstd::arithmetic::div_mod::{
    lemma_div_is_ordered, lemma_fundamental_div_mod, lemma_fundamental_div_mod_converse,
    lemma_mod_bound,
};
use crate::text::{decimal, digit, digit_char, push_decimal};

verus! {

/// Hundredths of a percent in a completed download.
pub const COMPLETE: u128 = 10000;

/// `downloaded / total * 100` in hundredths of a percent, rounded to the nearest
/// hundredth; where two are equally near, to the even one.
pub open spec fn rounded_hundredths(downloaded: nat, total: nat) -> nat {
    let whole = 10000 * downloaded / total;
    let rest = 10000 * downloaded % total;
    if 2 * rest > total || (2 * rest == total && whole % 2 == 1) {
        whole + 1
    } else {
        whole
    }
}

/// The percentage of `downloaded` bytes out of `total`, in hundredths of a percent: the
/// rounded quotient while bytes are missing, and one hundred from the moment that the
/// total has arrived, however many more bytes follow.
pub open spec fn percent_hundredths(downloaded: nat, total: nat) -> nat {
    if downloaded >= total {
        COMPLETE as nat
    } else {
        rounded_hundredths(downloaded, total)
    }
}

/// The text of a percentage given in hundredths: the whole part, a point, two decimals and
/// the percent sign.
pub open spec fn percent_label(hundredths: nat) -> Seq<char> {
    decimal(hundredths / 100) + seq![
        '.',
        digit_char(hundredths / 10 % 10),
        digit_char(hundredths % 10),
        '%',
    ]
}

/// Computes the percentage of `downloaded` bytes out of a known `total`.
pub fn hundredths(downloaded: u64, total: u64) -> (h: u128)
    requires
        total > 0,
    ensures
        h == percent_hundredths(downloaded as nat, total as nat),
{
    if downloaded >= total {
        return COMPLETE;
    }
    let scaled: u128 = 10000 * (downloaded as u128);
    let t: u128 = total as u128;
    let whole: u128 = scaled / t;
    let rest: u128 = scaled % t;
    if 2 * rest > t || (2 * rest == t && whole % 2 == 1) {
        whole + 1
    } else {
        whole
    }
}

/// Renders a percentage given in hundredths, as in `12.50%`.
pub fn percent_text(hundredths: u128) -> (s: String)
    ensures
        s@ == percent_label(hundredths as nat),
{
    let mut s = String::new();
    push_decimal(&mut s, hundredths / 100);
    s.push('.');
    s.push(digit((hundredths / 10 % 10) as u8));
    s.push(digit((hundredths % 10) as u8));
    s.push('%');
    assert(s@ =~= percent_label(hundredths as nat));
    s
}

/// One progress notification of a job.
#[derive(Clone, Copy, Debug, PartialEq, Eq, Structural)]
pub enum Progress {
    /// The transfer runs and its size is unknown.
    Indeterminate,
    /// So many hundredths of a percent have been transferred.
    Percent(u128),
    /// The archive is being unpacked.
    Extracting,
    /// The archive has been unpacked.
    Extracted,
}

impl Progress {
    /// The text that the notification carries.
    pub open spec fn label_text(self) -> Seq<char> {
        match self {
            Progress::Indeterminate => "Downloading…"@,
            Progress::Percent(h) => percent_label(h as nat),
            Progress::Extracting => "Extracting…"@,
            Progress::Extracted => "Extracted"@,
        }
    }

    /// The hundredths of a percent that the notification carries; 0 for a phase marker.
    pub open spec fn percentage(self) -> int {
        match self {
            Progress::Percent(h) => h as int,
            _ => 0,
        }
    }

    /// Renders the notification for the progress sink.
    pub fn label(&self) -> (s: String)
        ensures
            s@ == self.label_text(),
    {
        match self {
            Progress::Indeterminate => "Downloading…".to_owned(),
            Progress::Percent(h) => percent_text(*h),
            Progress::Extracting => "Extracting…".to_owned(),
            Progress::Extracted => "Extracted".to_owned(),
        }
    }

    /// The percentage of `downloaded` bytes out of a known `total`.
    pub fn of(downloaded: u64, total: u64) -> (p: Progress)
        requires
            total > 0,
        ensures
            p == Progress::Percent(percent_hundredths(downloaded as nat, total as nat) as u128),
    {
        Progress::Percent(hundredths(downloaded, total))
    }

    /// The notification that closes a transfer of known size.
    pub fn complete() -> (p: Progress)
        ensures
            p == Progress::Percent(COMPLETE),
    {
        Progress::Percent(COMPLETE)
    }
}

/// A progress notice of a job as the caller passes it on: the job, and the text of the
/// notice.
#[derive(Clone, Debug, PartialEq, Eq)]
pub struct DownloadProgressPayload {
    pub id: u32,
    pub progress: String,
}

/// The notice that a job is complete, as the caller passes it on.
#[derive(Clone, Copy, Debug, PartialEq, Eq, Structural)]
pub struct DownloadCompletePayload {
    pub id: u32,
}

impl DownloadProgressPayload {
    /// The payload of a notice of the job `id`.
    pub fn new(id: u32, notice: Progress) -> (payload: DownloadProgressPayload)
        ensures
            payload.id == id,
            payload.progress@ == notice.label_text(),
    {
        DownloadProgressPayload { id, progress: notice.label() }
    }
}

/// The rounded quotient never falls when more bytes have arrived.
proof fn lemma_rounded_monotone(earlier: nat, later: nat, total: nat)
    requires
        earlier <= later,
        total > 0,
    ensures
        rounded_hundredths(earlier, total) <= rounded_hundredths(later, total),
{
    let a = (10000 * earlier) as int;
    let b = (10000 * later) as int;
    let t = total as int;
    lemma_div_is_ordered(a, b, t);
    lemma_fundamental_div_mod(a, t);
    lemma_fundamental_div_mod(b, t);
    lemma_mod_bound(a, t);
    lemma_mod_bound(b, t);
    if a / t == b / t {
        assert(t * (a / t) == t * (b / t));
        assert(a % t <= b % t);
    }
}

/// The rounded quotient of all bytes is one hundred percent.
proof fn lemma_rounded_complete(total: nat)
    requires
        total > 0,
    ensures
        rounded_hundredths(total, total) == COMPLETE,
{
    assert(10000 * total == 10000 * total + 0);
    lemma_fundamental_div_mod_converse((10000 * total) as int, total as int, 10000, 0);
}

/// A percentage never falls when more bytes have arrived, whether or not they pass the
/// total.
pub proof fn lemma_percent_monotone(earlier: nat, later: nat, total: nat)
    requires
        earlier <= later,
        total > 0,
    ensures
        percent_hundredths(earlier, total) <= percent_hundredths(later, total),
{
    lemma_rounded_complete(total);
    if later < total {
        lemma_rounded_monotone(earlier, later, total);
    } else if earlier < total {
        lemma_rounded_monotone(earlier, total, total);
    }
}

/// A percentage never passes one hundred, and it is one hundred once all bytes have
/// arrived.
pub proof fn lemma_percent_bounded(downloaded: nat, total: nat)
    requires
        total > 0,
    ensures
        percent_hundredths(downloaded, total) <= COMPLETE,
        downloaded >= total ==> percent_hundredths(downloaded, total) == COMPLETE,
{
    lemma_rounded_complete(total);
    if downloaded < total {
        lemma_rounded_monotone(downloaded, total, total);
    }
}

/// The text of one hundred percent is `100.00%`.
pub proof fn lemma_complete_label()
    ensures
        Progress::Percent(COMPLETE).label_text() == "100.00%"@,
{
    reveal_strlit("100.00%");
    reveal_with_fuel(decimal, 3);
    assert(percent_label(10000) =~= "100.00%"@);
}

} // verus!
