//! The job orchestrator: what one fetch-and-extract job is, and in what order its actions
//! are carried out.
//!
//! A job downloads an archive into the downloads directory, unpacks it into a directory of
//! its own beside it, marks the item as downloaded and tells the caller. The actions
//! follow one another, and the first failure ends the job: nothing is done after it.

use vstd::prelude::*;
use vstd::string::StringExecFns;
use crate::paths::{lemma_segments_nonempty, push_path, pushed, segments};
use crate::text::{ascii_lower, chars_of, string_of, to_ascii_lower};

verus! {

/// How `std::path::Path` shows a path for debugging: the text between double quotes,
/// with the characters escaped that `Debug` escapes.
pub uninterp spec fn path_debug(path: Seq<char>) -> Seq<char>;

/// Renders a path with the `Debug` formatting of `std::path::Path`.
#[verifier::external_body]
fn debug_path(path: &str) -> (text: String)
    ensures
        text@ == path_debug(path@),
{
    format!("{:?}", std::path::Path::new(path))
}

/// Whether a file name ends in `.zip`, in any mix of upper and lower case.
pub open spec fn has_zip_suffix(name: Seq<char>) -> bool {
    &&& name.len() >= 4
    &&& name[name.len() - 4] == '.'
    &&& ascii_lower(name[name.len() - 3]) == 'z'
    &&& ascii_lower(name[name.len() - 2]) == 'i'
    &&& ascii_lower(name[name.len() - 1]) == 'p'
}

/// The name under which the archive is saved: the file name as it is where it ends in
/// `.zip`, and with `.zip` added where it does not.
pub open spec fn archive_name(file_name: Seq<char>) -> Seq<char> {
    if has_zip_suffix(file_name) {
        file_name
    } else {
        file_name + ".zip"@
    }
}

/// The stem of an archive name: what follows the last slash, without its last four
/// characters. A name of four characters or fewer is its own stem. For a name that ends in
/// `.zip` this is the file stem of the path.
pub open spec fn archive_stem(name: Seq<char>) -> Seq<char> {
    let file = segments(name).last();
    if file.len() <= 4 {
        file
    } else {
        file.take(file.len() - 4)
    }
}

/// Computes the name under which the archive is saved.
pub fn archive_file_name(file_name: &str) -> (name: String)
    ensures
        name@ == archive_name(file_name@),
{
    let chars = chars_of(file_name);
    let len: usize = chars.len();
    let mut name: String = file_name.to_owned();
    let suffixed: bool = len >= 4 && chars[len - 4] == '.' && to_ascii_lower(chars[len - 3]) == 'z'
        && to_ascii_lower(chars[len - 2]) == 'i' && to_ascii_lower(chars[len - 1]) == 'p';
    if !suffixed {
        name.append(".zip");
    }
    name
}

/// Computes the stem of an archive name.
pub fn archive_stem_of(name: &str) -> (stem: String)
    ensures
        stem@ == archive_stem(name@),
{
    let mut file: Vec<char> = Vec::new();
    for c in it: name.chars()
        invariant
            it.seq() == name@,
            file@ == segments(name@.take(it.index() as int)).last(),
    {
        let ghost read = name@.take(it.index() as int);
        let ghost next = name@.take(it.index() + 1);
        proof {
            lemma_segments_nonempty(read);
            assert(next.drop_last() =~= read);
            assert(next.last() == c);
        }
        if c == '/' {
            file = Vec::new();
        } else {
            file.push(c);
        }
    }
    assert(name@.take(name@.len() as int) =~= name@);
    if file.len() > 4 {
        file.truncate(file.len() - 4);
    }
    string_of(&file)
}

/// One fetch-and-extract job.
#[derive(Clone, Debug, PartialEq, Eq)]
pub struct FetchJob {
    /// The item that the job fetches.
    pub id: u32,
    /// Where the archive is fetched from.
    pub url: String,
    /// The name under which the archive is saved.
    pub file_name: String,
    /// The file that the archive is saved to.
    pub zip_path: String,
    /// The directory that the archive is unpacked into.
    pub extract_dir: String,
}

impl FetchJob {
    /// The job for an item: the archive is saved in the downloads directory under the
    /// file name, made to end in `.zip`, and unpacked into the directory beside it that
    /// is named by the stem of that name.
    pub fn new(id: u32, url: String, file_name: &str, downloads_dir: &str) -> (job: FetchJob)
        ensures
            job.id == id,
            job.url == url,
            job.file_name@ == archive_name(file_name@),
            job.zip_path@ == pushed(downloads_dir@, archive_name(file_name@)),
            job.extract_dir@ == pushed(downloads_dir@, archive_stem(archive_name(file_name@))),
    {
        let name = archive_file_name(file_name);
        let stem = archive_stem_of(name.as_str());
        let mut zip_path: String = downloads_dir.to_owned();
        push_path(&mut zip_path, name.as_str());
        let mut extract_dir: String = downloads_dir.to_owned();
        push_path(&mut extract_dir, stem.as_str());
        FetchJob { id, url, file_name: name, zip_path, extract_dir }
    }

    /// The text with which a completed job answers.
    pub open spec fn completion_text(self) -> Seq<char> {
        "Downloaded to "@ + path_debug(self.zip_path@) + " and extracted to "@ + path_debug(
            self.extract_dir@,
        )
    }

    /// Renders the answer of a completed job: where the archive was saved and where it
    /// was unpacked.
    pub fn completion_message(&self) -> (message: String)
        ensures
            message@ == self.completion_text(),
    {
        let mut message: String = "Downloaded to ".to_owned();
        let saved = debug_path(self.zip_path.as_str());
        message.append(saved.as_str());
        message.append(" and extracted to ");
        let unpacked = debug_path(self.extract_dir.as_str());
        message.append(unpacked.as_str());
        message
    }
}

/// One action of a job.
#[derive(Clone, Copy, Debug, PartialEq, Eq, Structural)]
pub enum JobAction {
    /// Create the downloads directory.
    PrepareDirectory,
    /// Download the archive to the job's file.
    Download,
    /// Notify that the archive is being unpacked.
    AnnounceExtracting,
    /// Unpack the archive into the job's directory.
    Extract,
    /// Notify that the archive has been unpacked.
    AnnounceExtracted,
    /// Record that the item is downloaded.
    MarkDownloaded,
    /// Notify that the job is complete.
    AnnounceComplete,
}

/// What follows an action.
#[derive(Debug, PartialEq, Eq)]
pub enum JobNext {
    /// The job goes on with this action.
    Continue(JobAction),
    /// The job is complete.
    Completed,
    /// The job has failed, with this message.
    Aborted(String),
}

impl JobAction {
    /// The action after this one in a job that goes well.
    pub open spec fn successor(self) -> Option<JobAction> {
        match self {
            JobAction::PrepareDirectory => Some(JobAction::Download),
            JobAction::Download => Some(JobAction::AnnounceExtracting),
            JobAction::AnnounceExtracting => Some(JobAction::Extract),
            JobAction::Extract => Some(JobAction::AnnounceExtracted),
            JobAction::AnnounceExtracted => Some(JobAction::MarkDownloaded),
            JobAction::MarkDownloaded => Some(JobAction::AnnounceComplete),
            JobAction::AnnounceComplete => None,
        }
    }

    /// The place of the action in a job that goes well, counted from 0.
    pub open spec fn position(self) -> int {
        match self {
            JobAction::PrepareDirectory => 0,
            JobAction::Download => 1,
            JobAction::AnnounceExtracting => 2,
            JobAction::Extract => 3,
            JobAction::AnnounceExtracted => 4,
            JobAction::MarkDownloaded => 5,
            JobAction::AnnounceComplete => 6,
        }
    }

    /// The action that a job starts with.
    pub fn first() -> (action: JobAction)
        ensures
            action == JobAction::PrepareDirectory,
    {
        JobAction::PrepareDirectory
    }
}

/// What follows an action that ended with `outcome`.
pub open spec fn following(done: JobAction, outcome: Result<(), String>) -> JobNextView {
    match outcome {
        Err(message) => JobNextView::Aborted(message@),
        Ok(_) => match done.successor() {
            Some(action) => JobNextView::Continue(action),
            None => JobNextView::Completed,
        },
    }
}

/// What follows an action, as a mathematical value.
#[verifier::ext_equal]
pub enum JobNextView {
    Continue(JobAction),
    Completed,
    Aborted(Seq<char>),
}

impl View for JobNext {
    type V = JobNextView;

    open spec fn view(&self) -> JobNextView {
        match self {
            JobNext::Continue(action) => JobNextView::Continue(*action),
            JobNext::Completed => JobNextView::Completed,
            JobNext::Aborted(message) => JobNextView::Aborted(message@),
        }
    }
}

/// Decides what follows an action of a job, given how the action ended: a failure ends
/// the job with its message, and a success leads to the next action or, after the last,
/// to the end.
pub fn next_action(done: JobAction, outcome: Result<(), String>) -> (next: JobNext)
    ensures
        next@ == following(done, outcome),
{
    match outcome {
        Err(message) => JobNext::Aborted(message),
        Ok(_) => match done {
            JobAction::PrepareDirectory => JobNext::Continue(JobAction::Download),
            JobAction::Download => JobNext::Continue(JobAction::AnnounceExtracting),
            JobAction::AnnounceExtracting => JobNext::Continue(JobAction::Extract),
            JobAction::Extract => JobNext::Continue(JobAction::AnnounceExtracted),
            JobAction::AnnounceExtracted => JobNext::Continue(JobAction::MarkDownloaded),
            JobAction::MarkDownloaded => JobNext::Continue(JobAction::AnnounceComplete),
            JobAction::AnnounceComplete => JobNext::Completed,
        },
    }
}

/// The actions that a job carries out, in order, when its actions end as `outcomes`
/// says, one outcome per action carried out: `true` for a success. The job starts with
/// its first action and goes on after each success; it has `n` outcomes so far.
pub open spec fn actions_taken(outcomes: Seq<bool>, n: int) -> Seq<JobAction>
    decreases n,
{
    if n <= 0 {
        seq![JobAction::PrepareDirectory]
    } else {
        let before = actions_taken(outcomes, n - 1);
        if before.len() == n && outcomes[n - 1] && before.last().successor() is Some {
            before.push(before.last().successor()->0)
        } else {
            before
        }
    }
}

/// The actions of a job are carried out in their order without a gap, and each but the
/// last one carried out has ended with success.
pub proof fn lemma_actions_in_order(outcomes: Seq<bool>, n: int)
    requires
        0 <= n <= outcomes.len(),
    ensures
        1 <= actions_taken(outcomes, n).len() <= n + 1,
        forall|k: int|
            0 <= k < actions_taken(outcomes, n).len() ==> (#[trigger] actions_taken(
                outcomes,
                n,
            )[k]).position() == k,
        forall|j: int| 0 <= j < actions_taken(outcomes, n).len() - 1 ==> #[trigger] outcomes[j],
    decreases n,
{
    if n > 0 {
        lemma_actions_in_order(outcomes, n - 1);
        let before = actions_taken(outcomes, n - 1);
        let now = actions_taken(outcomes, n);
        assert forall|k: int| 0 <= k < now.len() implies (#[trigger] now[k]).position() == k by {
            if k < before.len() {
                assert(now[k] == before[k]);
            }
        }
    }
}

/// The item is marked as downloaded only after the archive was unpacked with success: a
/// job that comes to mark it has downloaded, announced, unpacked and announced again, all
/// with success.
pub proof fn lemma_marked_after_extraction(outcomes: Seq<bool>, n: int, k: int)
    requires
        0 <= n <= outcomes.len(),
        0 <= k < actions_taken(outcomes, n).len(),
        actions_taken(outcomes, n)[k] == JobAction::MarkDownloaded,
    ensures
        k == 5,
        actions_taken(outcomes, n)[3] == JobAction::Extract,
        outcomes[3],
        forall|j: int| 0 <= j < 5 ==> #[trigger] outcomes[j],
{
    lemma_actions_in_order(outcomes, n);
    let taken = actions_taken(outcomes, n);
    assert(taken[k].position() == k);
    assert(taken[3].position() == 3);
}

} // verus!
