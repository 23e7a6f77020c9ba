//! The archive extractor: what is done, in what order, to unpack an archive into a
//! destination directory.
//!
//! The extractor reads the central directory of the archive and plans one step per entry:
//! a directory to create, or a file to write with its parent directory. An entry whose name
//! would lead out of the destination stops the plan there. The caller carries the steps
//! out and copies the contents.

use vstd::prelude::*;
use vstd::string::StringExecFns;
use zip::read::ZipArchiveMetadata;
use crate::paths::{extended, wants_separator};
use crate::sanitize::{
    entry_parts, escapes, join_parts, lemma_accepted_path_stays_inside, lemma_harmless_beginning,
    lemma_joined_parts_stay_inside, lemma_name_parts_harmless, name_parts, part_views,
    relative_text, safe_join_spec, unsafe_entry_message, PartView, PathPart,
};

verus! {

/// The central directory of an archive as the `zip` crate holds it once the archive is
/// open: an ordered list of entry records.
#[verifier::external_type_specification]
#[verifier::external_body]
pub struct ExZipArchiveMetadata(ZipArchiveMetadata);

/// One entry of an archive: its name inside the archive, whether it is a directory, and
/// the permission bits it carries, if any.
#[derive(Clone, Debug, PartialEq, Eq)]
pub struct ArchiveEntry {
    pub name: String,
    pub is_dir: bool,
    pub unix_mode: Option<u32>,
}

/// An entry as a mathematical value.
#[verifier::ext_equal]
pub struct EntryView {
    pub name: Seq<char>,
    pub is_dir: bool,
    pub unix_mode: Option<u32>,
}

impl View for ArchiveEntry {
    type V = EntryView;

    open spec fn view(&self) -> EntryView {
        EntryView { name: self.name@, is_dir: self.is_dir, unix_mode: self.unix_mode }
    }
}

/// What a central directory lists, in its order: for each record the entry it describes,
/// or the text of the error with which the `zip` crate refuses to read it.
pub uninterp spec fn listed_entries(listing: ZipArchiveMetadata) -> Seq<Result<EntryView, Seq<char>>>;

/// An entry read from a listing, or the error text, as mathematical values.
pub open spec fn listed_view(entry: Result<ArchiveEntry, String>) -> Result<EntryView, Seq<char>> {
    match entry {
        Ok(e) => Ok(e@),
        Err(message) => Err(message@),
    }
}

/// `ZipArchiveMetadata::len` gives the number of records in the central directory.
#[verifier::external_body]
fn listing_len(listing: &ZipArchiveMetadata) -> (n: usize)
    ensures
        n == listed_entries(*listing).len(),
{
    listing.len()
}

/// Reads the record at `index` with `ZipArchiveMetadata::entry` and takes its name,
/// directory flag and Unix mode (`ZipFileEntry::name`, `is_dir`, `unix_mode`). An error of
/// the crate is handed on as its text.
#[verifier::external_body]
fn listing_entry(listing: &ZipArchiveMetadata, index: usize) -> (entry: Result<
    ArchiveEntry,
    String,
>)
    requires
        index < listed_entries(*listing).len(),
    ensures
        listed_view(entry) == listed_entries(*listing)[index as int],
{
    let record = listing.entry(index).map_err(|e| e.to_string())?;
    let name = record.name().map_err(|e| e.to_string())?.into_owned();
    Ok(ArchiveEntry { name, is_dir: record.is_dir(), unix_mode: record.unix_mode() })
}

/// One step of an extraction. `index` is the position of the entry in the archive.
#[derive(Clone, Debug, PartialEq, Eq)]
pub enum ExtractStep {
    /// Create the directory at `path`, with the directories above it.
    CreateDir { index: usize, path: String },
    /// Create the directory `parent` with the directories above it, then write the
    /// content of the entry to a new file at `path` and give the file the mode
    /// `unix_mode`, if there is one and the platform has modes.
    WriteFile { index: usize, path: String, parent: String, unix_mode: Option<u32> },
}

/// A step as a mathematical value.
#[verifier::ext_equal]
pub enum StepView {
    CreateDir { index: int, path: Seq<char> },
    WriteFile { index: int, path: Seq<char>, parent: Seq<char>, unix_mode: Option<u32> },
}

impl View for ExtractStep {
    type V = StepView;

    open spec fn view(&self) -> StepView {
        match self {
            ExtractStep::CreateDir { index, path } => StepView::CreateDir {
                index: *index as int,
                path: path@,
            },
            ExtractStep::WriteFile { index, path, parent, unix_mode } => StepView::WriteFile {
                index: *index as int,
                path: path@,
                parent: parent@,
                unix_mode: *unix_mode,
            },
        }
    }
}

impl StepView {
    /// The path that the step creates.
    pub open spec fn target(self) -> Seq<char> {
        match self {
            StepView::CreateDir { path, .. } => path,
            StepView::WriteFile { path, .. } => path,
        }
    }

    /// The position of the entry that the step unpacks.
    pub open spec fn entry_index(self) -> int {
        match self {
            StepView::CreateDir { index, .. } => index,
            StepView::WriteFile { index, .. } => index,
        }
    }
}

/// The plan of an extraction: the destination directory, which is created first, the
/// steps to carry out in order, and the failure with which the extraction ends once they
/// are done, if it fails.
#[derive(Clone, Debug, PartialEq, Eq)]
pub struct ExtractionPlan {
    pub root: String,
    pub steps: Vec<ExtractStep>,
    pub failure: Option<String>,
}

/// A plan as a mathematical value.
#[verifier::ext_equal]
pub struct PlanView {
    pub root: Seq<char>,
    pub steps: Seq<StepView>,
    pub failure: Option<Seq<char>>,
}

/// The steps of a list as mathematical values.
pub open spec fn step_views(steps: Seq<ExtractStep>) -> Seq<StepView> {
    Seq::new(steps.len(), |i: int| steps[i]@)
}

impl View for ExtractionPlan {
    type V = PlanView;

    open spec fn view(&self) -> PlanView {
        PlanView {
            root: self.root@,
            steps: step_views(self.steps@),
            failure: match self.failure {
                Some(message) => Some(message@),
                None => None,
            },
        }
    }
}

/// The relative path of all normal components but the last.
pub open spec fn parent_relative(parts: Seq<PartView>) -> Seq<char>
    decreases parts.len(),
{
    if parts.len() == 0 {
        Seq::empty()
    } else {
        match parts.last() {
            PartView::Normal(_) => relative_text(parts.drop_last()),
            _ => parent_relative(parts.drop_last()),
        }
    }
}

/// The directory that holds the file of an entry: the destination with all normal
/// components but the last pushed onto it, and the destination itself where there is at
/// most one.
pub open spec fn parent_path(dest_dir: Seq<char>, parts: Seq<PartView>) -> Seq<char> {
    if parent_relative(parts).len() == 0 {
        dest_dir
    } else {
        extended(dest_dir, parent_relative(parts))
    }
}

/// The message of a record that cannot be read.
pub open spec fn unreadable_entry_message(error: Seq<char>) -> Seq<char> {
    "Failed reading zip entry: "@ + error
}

/// The step that unpacks one entry, or the message with which the entry is refused: an
/// entry whose name escapes the destination is refused.
pub open spec fn entry_step(dest_dir: Seq<char>, index: int, entry: EntryView) -> Result<
    StepView,
    Seq<char>,
> {
    match safe_join_spec(dest_dir, entry.name) {
        Err(message) => Err(message),
        Ok(path) => if entry.is_dir {
            Ok(StepView::CreateDir { index, path })
        } else {
            Ok(
                StepView::WriteFile {
                    index,
                    path,
                    parent: parent_path(dest_dir, name_parts(entry.name)),
                    unix_mode: entry.unix_mode,
                },
            )
        },
    }
}

/// The step for one record of a listing, or the message of the failure.
pub open spec fn record_step(dest_dir: Seq<char>, index: int, record: Result<
    EntryView,
    Seq<char>,
>) -> Result<StepView, Seq<char>> {
    match record {
        Ok(entry) => entry_step(dest_dir, index, entry),
        Err(error) => Err(unreadable_entry_message(error)),
    }
}

/// The plan for the first `n` records: one step per record up to the first that fails,
/// and the message of that failure.
pub open spec fn plan_of(
    dest_dir: Seq<char>,
    records: Seq<Result<EntryView, Seq<char>>>,
    n: int,
) -> PlanView
    decreases n,
{
    if n <= 0 {
        PlanView { root: dest_dir, steps: Seq::empty(), failure: None }
    } else {
        let before = plan_of(dest_dir, records, n - 1);
        if before.failure is Some {
            before
        } else {
            match record_step(dest_dir, n - 1, records[n - 1]) {
                Ok(step) => PlanView {
                    root: dest_dir,
                    steps: before.steps.push(step),
                    failure: None,
                },
                Err(message) => PlanView {
                    root: dest_dir,
                    steps: before.steps,
                    failure: Some(message),
                },
            }
        }
    }
}

/// The records of a list as mathematical values.
pub open spec fn record_views(records: Seq<Result<ArchiveEntry, String>>) -> Seq<
    Result<EntryView, Seq<char>>,
> {
    Seq::new(records.len(), |i: int| listed_view(records[i]))
}

/// The step of a result as a mathematical value.
pub open spec fn step_result(r: Result<ExtractStep, String>) -> Result<StepView, Seq<char>> {
    match r {
        Ok(step) => Ok(step@),
        Err(message) => Err(message@),
    }
}

/// Computes the directory that holds the file of an entry with this decomposition.
fn parent_of(dest_dir: &str, parts: &Vec<PathPart>) -> (parent: String)
    ensures
        parent@ == parent_path(dest_dir@, part_views(parts@)),
{
    let ghost views = part_views(parts@);
    let mut relative = String::new();
    let mut above = String::new();
    let mut i: usize = 0;
    while i < parts.len()
        invariant
            i <= parts.len(),
            views == part_views(parts@),
            relative@ == relative_text(views.take(i as int)),
            above@ == parent_relative(views.take(i as int)),
        decreases parts.len() - i,
    {
        assert(views.take(i + 1).drop_last() =~= views.take(i as int));
        assert(views.take(i + 1).last() == parts@[i as int]@);
        match &parts[i] {
            PathPart::Normal(name) => {
                above = relative.clone();
                if wants_separator(relative.as_str()) {
                    relative.push('/');
                }
                relative.append(name.as_str());
                assert(relative@ =~= extended(above@, name@));
            },
            _ => {},
        }
        i = i + 1;
    }
    assert(views.take(parts.len() as int) =~= views);
    let mut parent: String = dest_dir.to_owned();
    if above.as_str().unicode_len() > 0 {
        if wants_separator(dest_dir) {
            parent.push('/');
        }
        parent.append(above.as_str());
        assert(parent@ =~= extended(dest_dir@, above@));
    }
    parent
}

/// Plans the step for the entry at position `index`: where it goes under `dest_dir` and
/// what is created there. An entry whose name begins with a separator, holds a
/// parent-directory component or begins with a volume prefix is refused with a message
/// that names it.
pub fn plan_entry(dest_dir: &str, index: usize, entry: &ArchiveEntry) -> (r: Result<
    ExtractStep,
    String,
>)
    ensures
        step_result(r) == entry_step(dest_dir@, index as int, entry@),
        r is Err <==> escapes(name_parts(entry.name@)),
{
    let parts = entry_parts(entry.name.as_str());
    match join_parts(dest_dir, &parts) {
        None => {
            let mut message: String = "Unsafe zip entry path: ".to_owned();
            message.append(entry.name.as_str());
            Err(message)
        },
        Some(path) => {
            if entry.is_dir {
                Ok(ExtractStep::CreateDir { index, path })
            } else {
                let parent = parent_of(dest_dir, &parts);
                Ok(ExtractStep::WriteFile { index, path, parent, unix_mode: entry.unix_mode })
            }
        },
    }
}

/// Reads the records of a central directory, in its order.
pub fn read_listing(listing: &ZipArchiveMetadata) -> (records: Vec<Result<ArchiveEntry, String>>)
    ensures
        record_views(records@) == listed_entries(*listing),
{
    let count: usize = listing_len(listing);
    let mut records: Vec<Result<ArchiveEntry, String>> = Vec::new();
    let mut i: usize = 0;
    while i < count
        invariant
            i <= count == listed_entries(*listing).len(),
            records@.len() == i,
            forall|k: int|
                0 <= k < i ==> listed_view(#[trigger] records@[k]) == listed_entries(*listing)[k],
        decreases count - i,
    {
        let record = listing_entry(listing, i);
        records.push(record);
        i = i + 1;
    }
    assert(record_views(records@) =~= listed_entries(*listing));
    records
}

/// Plans the extraction of the records of an archive, in their order: each entry gets
/// its step, and the plan ends at the first record that could not be read or whose name
/// would lead out of the destination, with the message of that failure.
pub fn plan_extraction(dest_dir: &str, records: &Vec<Result<ArchiveEntry, String>>) -> (plan:
    ExtractionPlan)
    ensures
        plan@ == plan_of(dest_dir@, record_views(records@), records@.len() as int),
{
    let ghost views = record_views(records@);
    let mut steps: Vec<ExtractStep> = Vec::new();
    let mut i: usize = 0;
    while i < records.len()
        invariant
            i <= records.len(),
            views == record_views(records@),
            plan_of(dest_dir@, views, i as int) =~= (PlanView {
                root: dest_dir@,
                steps: step_views(steps@),
                failure: None,
            }),
        decreases records.len() - i,
    {
        let ghost before = step_views(steps@);
        let planned: Result<ExtractStep, String> = match &records[i] {
            Ok(entry) => plan_entry(dest_dir, i, entry),
            Err(error) => {
                let mut message: String = "Failed reading zip entry: ".to_owned();
                message.append(error.as_str());
                Err(message)
            },
        };
        assert(step_result(planned) == record_step(dest_dir@, i as int, views[i as int]));
        match planned {
            Ok(step) => {
                steps.push(step);
                assert(step_views(steps@) =~= before.push(step@));
            },
            Err(message) => {
                proof {
                    lemma_plan_stops(dest_dir@, views, i + 1, records@.len() as int);
                }
                return ExtractionPlan { root: dest_dir.to_owned(), steps, failure: Some(message) };
            },
        }
        i = i + 1;
    }
    ExtractionPlan { root: dest_dir.to_owned(), steps, failure: None }
}

/// Plans the extraction of an archive from its central directory: the destination is
/// created first, then each entry in the order of the directory gets its step. The plan
/// ends at the first entry that cannot be read or whose name would lead out of the
/// destination, with the message of that failure; what was planned before it is still
/// carried out.
pub fn extract_zip(listing: &ZipArchiveMetadata, dest_dir: &str) -> (plan: ExtractionPlan)
    ensures
        plan@ == plan_of(
            dest_dir@,
            listed_entries(*listing),
            listed_entries(*listing).len() as int,
        ),
{
    let records = read_listing(listing);
    plan_extraction(dest_dir, &records)
}

/// Once a plan has failed, further records change nothing.
proof fn lemma_plan_stops(
    dest_dir: Seq<char>,
    records: Seq<Result<EntryView, Seq<char>>>,
    n: int,
    m: int,
)
    requires
        0 <= n <= m,
        plan_of(dest_dir, records, n).failure is Some,
    ensures
        plan_of(dest_dir, records, m) == plan_of(dest_dir, records, n),
    decreases m - n,
{
    if n < m {
        lemma_plan_stops(dest_dir, records, n, m - 1);
    }
}

/// The shape of a plan: it has one step per record, in order, up to the first record that
/// is refused or cannot be read; it fails exactly if there is such a record, and then
/// with the message of the first one.
pub proof fn lemma_plan_shape(
    dest_dir: Seq<char>,
    records: Seq<Result<EntryView, Seq<char>>>,
    n: int,
)
    requires
        0 <= n <= records.len(),
    ensures
        plan_of(dest_dir, records, n).root == dest_dir,
        plan_of(dest_dir, records, n).steps.len() <= n,
        forall|k: int|
            0 <= k < plan_of(dest_dir, records, n).steps.len() ==> record_step(
                dest_dir,
                k,
                #[trigger] records[k],
            ) == Ok::<StepView, Seq<char>>(plan_of(dest_dir, records, n).steps[k]),
        plan_of(dest_dir, records, n).failure is None ==> plan_of(dest_dir, records, n).steps.len()
            == n,
        plan_of(dest_dir, records, n).failure matches Some(message) ==> {
            let stop = plan_of(dest_dir, records, n).steps.len() as int;
            stop < n && record_step(dest_dir, stop, records[stop]) == Err::<StepView, Seq<char>>(
                message,
            )
        },
    decreases n,
{
    if n > 0 {
        lemma_plan_shape(dest_dir, records, n - 1);
    }
}

/// An entry whose name leads out of the destination ends the plan: if the records before
/// position `k` all have their step, the plan has exactly those `k` steps, none for the
/// entry at `k` or for any after it, and fails with the message that names the entry.
pub proof fn lemma_escaping_entry_stops_plan(
    dest_dir: Seq<char>,
    records: Seq<Result<EntryView, Seq<char>>>,
    k: int,
)
    requires
        0 <= k < records.len(),
        forall|j: int| 0 <= j < k ==> record_step(dest_dir, j, #[trigger] records[j]) is Ok,
        records[k] matches Ok(entry) && escapes(name_parts(entry.name)),
    ensures
        plan_of(dest_dir, records, records.len() as int).steps.len() == k,
        plan_of(dest_dir, records, records.len() as int).failure == Some(
            unsafe_entry_message(records[k]->Ok_0.name),
        ),
{
    let n = records.len() as int;
    let plan = plan_of(dest_dir, records, n);
    lemma_plan_shape(dest_dir, records, n);
    let stop = plan.steps.len() as int;
    if stop > k {
        assert(record_step(dest_dir, k, records[k]) is Ok);
    }
    if plan.failure is None {
        assert(record_step(dest_dir, k, records[k]) is Ok);
    }
    if stop < k {
        assert(record_step(dest_dir, stop, records[stop]) is Ok);
    }
}

/// Every path of a plan lies inside the destination: the step at position `k` unpacks the
/// entry at position `k`, and its path is the destination with a relative path pushed onto
/// it that has normal components only.
pub proof fn lemma_plan_stays_inside(
    dest_dir: Seq<char>,
    records: Seq<Result<EntryView, Seq<char>>>,
    k: int,
)
    requires
        0 <= k < plan_of(dest_dir, records, records.len() as int).steps.len(),
    ensures
        records[k] is Ok,
        plan_of(dest_dir, records, records.len() as int).steps[k].entry_index() == k,
        plan_of(dest_dir, records, records.len() as int).steps[k].target() == extended(
            dest_dir,
            relative_text(name_parts(records[k]->Ok_0.name)),
        ),
        !escapes(name_parts(relative_text(name_parts(records[k]->Ok_0.name)))),
{
    lemma_plan_shape(dest_dir, records, records.len() as int);
    let entry = records[k]->Ok_0;
    assert(record_step(dest_dir, k, records[k]) is Ok);
    lemma_accepted_path_stays_inside(dest_dir, entry.name);
}

/// How many leading components make up the parent of an entry: all before its last
/// normal component.
pub open spec fn parent_cut(parts: Seq<PartView>) -> int
    decreases parts.len(),
{
    if parts.len() == 0 {
        0
    } else {
        match parts.last() {
            PartView::Normal(_) => parts.len() - 1,
            _ => parent_cut(parts.drop_last()),
        }
    }
}

/// The parent of an entry is what its components before the last normal one are joined
/// to.
proof fn lemma_parent_is_a_beginning(parts: Seq<PartView>)
    ensures
        0 <= parent_cut(parts) <= parts.len(),
        parent_relative(parts) == relative_text(parts.take(parent_cut(parts))),
    decreases parts.len(),
{
    if parts.len() > 0 {
        let init = parts.drop_last();
        lemma_parent_is_a_beginning(init);
        match parts.last() {
            PartView::Normal(_) => {
                assert(parts.take(parts.len() - 1) =~= init);
            },
            _ => {
                assert(parts.take(parent_cut(init)) =~= init.take(parent_cut(init)));
            },
        }
    } else {
        assert(parts.take(0) =~= parts);
    }
}

/// The parent directory of an accepted entry lies inside the destination as well: it is
/// the destination itself, or the destination with a relative path pushed onto it that
/// has normal components only.
pub proof fn lemma_parent_stays_inside(dest_dir: Seq<char>, entry_name: Seq<char>)
    requires
        !escapes(name_parts(entry_name)),
    ensures
        parent_path(dest_dir, name_parts(entry_name)) == dest_dir || (parent_path(
            dest_dir,
            name_parts(entry_name),
        ) == extended(dest_dir, parent_relative(name_parts(entry_name))) && !escapes(
            name_parts(parent_relative(name_parts(entry_name))),
        )),
{
    let parts = name_parts(entry_name);
    lemma_parent_is_a_beginning(parts);
    let above = parts.take(parent_cut(parts));
    lemma_name_parts_harmless(entry_name);
    lemma_harmless_beginning(parts, parent_cut(parts));
    lemma_joined_parts_stay_inside(dest_dir, above);
}

} // verus!
