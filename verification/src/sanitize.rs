//! The path sanitizer: where an archive entry may be written.
//!
//! An entry name is read in one way on every host, the strictest: `/` and `\` both
//! separate its components, and a drive letter with a colon at its start is a volume
//! prefix. A decomposition that holds a root marker, a parent-directory component or a
//! volume prefix is refused; what is left after dropping current-directory components is
//! joined under the destination directory, with `/` between the names, so that the result
//! never leaves it.

use vstd::prelude::*;
use vstd::string::StringExecFns;
use crate::text::{chars_of, string_of, text_result};
use crate::paths::{extended, push_relative};

verus! {

/// One component of a path.
#[derive(Clone, Debug, PartialEq, Eq)]
pub enum PathPart {
    /// A drive or volume prefix.
    Prefix,
    /// The root marker: the path starts at the root.
    RootDir,
    /// A current-directory component, `.`.
    CurDir,
    /// A parent-directory component, `..`.
    ParentDir,
    /// A normal component: a name.
    Normal(String),
}

/// A component of a path as a mathematical value.
#[verifier::ext_equal]
pub enum PartView {
    Prefix,
    RootDir,
    CurDir,
    ParentDir,
    Normal(Seq<char>),
}

impl View for PathPart {
    type V = PartView;

    open spec fn view(&self) -> PartView {
        match self {
            PathPart::Prefix => PartView::Prefix,
            PathPart::RootDir => PartView::RootDir,
            PathPart::CurDir => PartView::CurDir,
            PathPart::ParentDir => PartView::ParentDir,
            PathPart::Normal(name) => PartView::Normal(name@),
        }
    }
}

/// The components of a list as mathematical values.
pub open spec fn part_views(parts: Seq<PathPart>) -> Seq<PartView> {
    Seq::new(parts.len(), |i: int| parts[i]@)
}

/// Whether a character separates the components of an entry name: a slash or a
/// backslash.
pub open spec fn is_separator(c: char) -> bool {
    c == '/' || c == '\\'
}

/// The pieces of an entry name between its separators: one more than it has separators,
/// and empty where two separators meet or the name starts or ends with one.
pub open spec fn name_segments(s: Seq<char>) -> Seq<Seq<char>>
    decreases s.len(),
{
    if s.len() == 0 {
        seq![Seq::empty()]
    } else if is_separator(s.last()) {
        name_segments(s.drop_last()).push(Seq::empty())
    } else {
        let before = name_segments(s.drop_last());
        before.drop_last().push(before.last().push(s.last()))
    }
}

/// Whether a character is a letter of the ASCII alphabet.
pub open spec fn ascii_letter(c: char) -> bool {
    'a' <= c <= 'z' || 'A' <= c <= 'Z'
}

/// Whether a text begins like a drive: with a letter and a colon.
pub open spec fn drive_form(text: Seq<char>) -> bool {
    text.len() >= 2 && ascii_letter(text[0]) && text[1] == ':'
}

/// Whether a name begins with a separator.
pub open spec fn starts_with_separator(name: Seq<char>) -> bool {
    name.len() > 0 && is_separator(name[0])
}

/// Whether a name begins with two backslashes, as the names of network shares and of
/// devices do.
pub open spec fn starts_with_backslashes(name: Seq<char>) -> bool {
    name.len() >= 2 && name[0] == '\\' && name[1] == '\\'
}

/// Whether components hold no name yet: there is none, or only a current-directory
/// component.
pub open spec fn bare(parts: Seq<PartView>) -> bool {
    parts.len() == 0 || (parts.len() == 1 && parts[0] is CurDir)
}

/// The component that a segment stands for. An empty segment stands for none, and neither
/// does `.` unless the name begins with it. `..` is a parent-directory component. A
/// segment that begins like a drive is a volume prefix where no name stands before it,
/// and every other segment is a name.
pub open spec fn segment_part(segment: Seq<char>, leading: bool, first: bool) -> Option<PartView> {
    if segment.len() == 0 {
        None
    } else if segment =~= seq!['.'] {
        if leading {
            Some(PartView::CurDir)
        } else {
            None
        }
    } else if segment =~= seq!['.', '.'] {
        Some(PartView::ParentDir)
    } else if first && drive_form(segment) {
        Some(PartView::Prefix)
    } else {
        Some(PartView::Normal(segment))
    }
}

/// The components of the first `n` segments, in order.
pub open spec fn segment_parts(segs: Seq<Seq<char>>, n: int) -> Seq<PartView>
    decreases n,
{
    if n <= 0 {
        Seq::empty()
    } else {
        let before = segment_parts(segs, n - 1);
        match segment_part(segs[n - 1], n == 1, bare(before)) {
            Some(part) => before.push(part),
            None => before,
        }
    }
}

/// The components that the start of a name stands for: a volume prefix and the root
/// marker where it begins with two backslashes, the root marker where it begins with any
/// other separator, and none else.
pub open spec fn lead_parts(name: Seq<char>) -> Seq<PartView> {
    if starts_with_backslashes(name) {
        seq![PartView::Prefix, PartView::RootDir]
    } else if starts_with_separator(name) {
        seq![PartView::RootDir]
    } else {
        Seq::empty()
    }
}

/// The decomposition of an entry name: what its start stands for, then one component per
/// segment that stands for one.
pub open spec fn name_parts(name: Seq<char>) -> Seq<PartView> {
    lead_parts(name) + segment_parts(name_segments(name), name_segments(name).len() as int)
}

/// Whether a component would lead out of the destination.
pub open spec fn unsafe_part(part: PartView) -> bool {
    part is Prefix || part is RootDir || part is ParentDir
}

/// Whether a decomposition holds a component that would lead out of the destination.
pub open spec fn escapes(parts: Seq<PartView>) -> bool {
    exists|i: int| 0 <= i < parts.len() && unsafe_part(#[trigger] parts[i])
}

/// The names of the normal components, joined by slashes.
pub open spec fn relative_text(parts: Seq<PartView>) -> Seq<char>
    decreases parts.len(),
{
    if parts.len() == 0 {
        Seq::empty()
    } else {
        match parts.last() {
            PartView::Normal(name) => extended(relative_text(parts.drop_last()), name),
            _ => relative_text(parts.drop_last()),
        }
    }
}

/// Where the entry with a given decomposition goes under `dest_dir`: nowhere if the
/// decomposition escapes, else the destination with the normal components pushed onto it.
pub open spec fn joined_parts(dest_dir: Seq<char>, parts: Seq<PartView>) -> Option<Seq<char>> {
    if escapes(parts) {
        None
    } else {
        Some(extended(dest_dir, relative_text(parts)))
    }
}

/// The message of an entry that is refused.
pub open spec fn unsafe_entry_message(entry_name: Seq<char>) -> Seq<char> {
    "Unsafe zip entry path: "@ + entry_name
}

/// Where the entry named `entry_name` goes under `dest_dir`, or why it is refused.
pub open spec fn safe_join_spec(dest_dir: Seq<char>, entry_name: Seq<char>) -> Result<
    Seq<char>,
    Seq<char>,
> {
    match joined_parts(dest_dir, name_parts(entry_name)) {
        Some(path) => Ok(path),
        None => Err(unsafe_entry_message(entry_name)),
    }
}

/// Tells whether a character separates the components of an entry name.
fn separates(c: char) -> (b: bool)
    ensures
        b == is_separator(c),
{
    c == '/' || c == '\\'
}

/// The component of a finished segment, if it stands for one.
fn part_of_segment(segment: &Vec<char>, leading: bool, first: bool) -> (part: Option<PathPart>)
    ensures
        match part {
            Some(p) => segment_part(segment@, leading, first) == Some(p@),
            None => segment_part(segment@, leading, first) is None,
        },
{
    if segment.len() == 0 {
        None
    } else if segment.len() == 1 && segment[0] == '.' {
        assert(segment@ =~= seq!['.']);
        if leading {
            Some(PathPart::CurDir)
        } else {
            None
        }
    } else if segment.len() == 2 && segment[0] == '.' && segment[1] == '.' {
        assert(segment@ =~= seq!['.', '.']);
        Some(PathPart::ParentDir)
    } else if first && segment.len() >= 2 && (('a' <= segment[0] && segment[0] <= 'z') || ('A'
        <= segment[0] && segment[0] <= 'Z')) && segment[1] == ':' {
        Some(PathPart::Prefix)
    } else {
        Some(PathPart::Normal(string_of(segment)))
    }
}

/// Decomposes an entry name into its components.
pub fn entry_parts(entry_name: &str) -> (parts: Vec<PathPart>)
    ensures
        part_views(parts@) == name_parts(entry_name@),
{
    let chars = chars_of(entry_name);
    let len: usize = chars.len();
    let mut parts: Vec<PathPart> = Vec::new();
    if len >= 2 && chars[0] == '\\' && chars[1] == '\\' {
        parts.push(PathPart::Prefix);
        parts.push(PathPart::RootDir);
    } else if len >= 1 && separates(chars[0]) {
        parts.push(PathPart::RootDir);
    }
    let ghost lead = part_views(parts@);
    assert(lead =~= lead_parts(entry_name@));
    let mut segment: Vec<char> = Vec::new();
    let mut leading: bool = true;
    let mut first: bool = true;
    let mut i: usize = 0;
    assert(chars@.take(0) =~= Seq::<char>::empty());
    assert(part_views(parts@) =~= lead + segment_parts(name_segments(chars@.take(0)), 0));
    while i < len
        invariant
            i <= len == chars@.len(),
            chars@ == entry_name@,
            lead == lead_parts(entry_name@),
            segment@ == name_segments(chars@.take(i as int)).last(),
            leading == (name_segments(chars@.take(i as int)).len() == 1),
            first == bare(
                segment_parts(
                    name_segments(chars@.take(i as int)),
                    name_segments(chars@.take(i as int)).len() - 1,
                ),
            ),
            part_views(parts@) == lead + segment_parts(
                name_segments(chars@.take(i as int)),
                name_segments(chars@.take(i as int)).len() - 1,
            ),
        decreases len - i,
    {
        let c: char = chars[i];
        let ghost read = chars@.take(i as int);
        let ghost next = chars@.take(i + 1);
        let ghost old_views = part_views(parts@);
        let ghost before = segment_parts(name_segments(read), name_segments(read).len() - 1);
        proof {
            lemma_name_segments_nonempty(read);
            assert(next.drop_last() =~= read);
            assert(next.last() == c);
        }
        if separates(c) {
            match part_of_segment(&segment, leading, first) {
                Some(part) => {
                    let curdir: bool = match &part {
                        PathPart::CurDir => true,
                        _ => false,
                    };
                    parts.push(part);
                    assert(part_views(parts@) =~= old_views.push(part@));
                    first = curdir;
                },
                None => {},
            }
            proof {
                let segs = name_segments(next);
                assert(segs == name_segments(read).push(Seq::empty()));
                lemma_segment_parts_prefix(name_segments(read), segs, name_segments(read).len() as int);
                assert(segs[segs.len() - 2] == name_segments(read).last());
                lemma_segment_parts_prefix(name_segments(read), segs, name_segments(read).len() - 1);
            }
            segment = Vec::new();
            leading = false;
        } else {
            segment.push(c);
            proof {
                let segs = name_segments(next);
                let earlier = name_segments(read);
                assert(segs == earlier.drop_last().push(earlier.last().push(c)));
                lemma_segment_parts_prefix(earlier, segs, earlier.len() - 1);
            }
        }
        i = i + 1;
    }
    proof {
        assert(chars@.take(len as int) =~= chars@);
        lemma_name_segments_nonempty(chars@);
    }
    let ghost before_views = part_views(parts@);
    match part_of_segment(&segment, leading, first) {
        Some(part) => {
            parts.push(part);
            assert(part_views(parts@) =~= before_views.push(part@));
        },
        None => {},
    }
    assert(part_views(parts@) =~= name_parts(entry_name@));
    parts
}

/// Joins a decomposition under `dest_dir`: the normal components are pushed onto the
/// destination, current-directory components are dropped, and any other component makes
/// the whole decomposition unsafe.
pub fn join_parts(dest_dir: &str, parts: &Vec<PathPart>) -> (path: Option<String>)
    ensures
        match path {
            Some(p) => joined_parts(dest_dir@, part_views(parts@)) == Some(p@),
            None => joined_parts(dest_dir@, part_views(parts@)) is None,
        },
{
    let ghost views = part_views(parts@);
    let mut relative = String::new();
    let mut i: usize = 0;
    while i < parts.len()
        invariant
            i <= parts.len(),
            views == part_views(parts@),
            !escapes(views.take(i as int)),
            relative@ == relative_text(views.take(i as int)),
        decreases parts.len() - i,
    {
        let ghost read = views.take(i as int);
        let ghost next = views.take(i + 1);
        assert(next.drop_last() =~= read);
        assert(next.last() == parts@[i as int]@);
        match &parts[i] {
            PathPart::Normal(name) => {
                push_relative(&mut relative, name.as_str());
            },
            PathPart::CurDir => {},
            _ => {
                assert(unsafe_part(views[i as int]));
                return None;
            },
        }
        assert(!escapes(next)) by {
            if escapes(next) {
                let j = choose|j: int| 0 <= j < next.len() && unsafe_part(#[trigger] next[j]);
                if j < i {
                    assert(unsafe_part(read[j]));
                }
            }
        }
        i = i + 1;
    }
    assert(views.take(parts.len() as int) =~= views);
    let mut path: String = dest_dir.to_owned();
    push_relative(&mut path, relative.as_str());
    Some(path)
}

/// Computes where the entry named `entry_name` goes under `dest_dir`. A name is refused
/// with a message that names it where it would be written outside the destination on some
/// host: where it begins with a separator, holds a parent-directory component, or begins,
/// before any name, with a drive letter and a colon.
pub fn safe_join(dest_dir: &str, entry_name: &str) -> (r: Result<String, String>)
    ensures
        text_result(r) == safe_join_spec(dest_dir@, entry_name@),
        r is Err <==> escapes(name_parts(entry_name@)),
{
    let parts = entry_parts(entry_name);
    match join_parts(dest_dir, &parts) {
        Some(path) => Ok(path),
        None => {
            let mut message: String = "Unsafe zip entry path: ".to_owned();
            message.append(entry_name);
            Err(message)
        },
    }
}

/// A name has at least one segment.
pub proof fn lemma_name_segments_nonempty(s: Seq<char>)
    ensures
        name_segments(s).len() >= 1,
    decreases s.len(),
{
    if s.len() > 0 {
        lemma_name_segments_nonempty(s.drop_last());
    }
}

/// The segments of a name hold no separator, and the first of them is the beginning of
/// the name up to its first separator.
pub proof fn lemma_name_segments_split(s: Seq<char>)
    ensures
        name_segments(s).len() >= 1,
        forall|i: int, j: int|
            0 <= i < name_segments(s).len() && 0 <= j < name_segments(s)[i].len()
                ==> !is_separator(name_segments(s)[i][j]),
        name_segments(s)[0].len() <= s.len(),
        forall|j: int| 0 <= j < name_segments(s)[0].len() ==> name_segments(s)[0][j] == s[j],
        name_segments(s)[0].len() < s.len() ==> is_separator(s[name_segments(s)[0].len() as int]),
        name_segments(s).len() == 1 <==> name_segments(s)[0].len() == s.len(),
    decreases s.len(),
{
    if s.len() > 0 {
        lemma_name_segments_split(s.drop_last());
        let before = name_segments(s.drop_last());
        let segs = name_segments(s);
        assert forall|i: int, j: int|
            0 <= i < segs.len() && 0 <= j < segs[i].len() implies !is_separator(segs[i][j]) by {
            if is_separator(s.last()) {
                if i < before.len() {
                    assert(segs[i] == before[i]);
                }
            } else {
                if i < before.len() - 1 {
                    assert(segs[i] == before[i]);
                } else {
                    if j < before.last().len() {
                        assert(segs[i][j] == before.last()[j]);
                    }
                }
            }
        }
        let rest = s.drop_last();
        if is_separator(s.last()) {
            assert(segs[0] == before[0]);
            if segs[0].len() < rest.len() {
                assert(rest[segs[0].len() as int] == s[segs[0].len() as int]);
            } else {
                assert(s[segs[0].len() as int] == s.last());
            }
        } else if before.len() == 1 {
            assert(segs[0] =~= before[0].push(s.last()));
        } else {
            assert(segs[0] == before[0]);
            assert(rest[segs[0].len() as int] == s[segs[0].len() as int]);
        }
        assert forall|j: int| 0 <= j < segs[0].len() implies segs[0][j] == s[j] by {
            if j < before[0].len() {
                assert(before[0][j] == rest[j]);
            }
        }
    }
}

/// The components of the first `n` segments depend on those segments only.
proof fn lemma_segment_parts_prefix(a: Seq<Seq<char>>, b: Seq<Seq<char>>, n: int)
    requires
        0 <= n <= a.len(),
        n <= b.len(),
        forall|i: int| 0 <= i < n ==> a[i] == b[i],
    ensures
        segment_parts(a, n) == segment_parts(b, n),
    decreases n,
{
    if n > 0 {
        lemma_segment_parts_prefix(a, b, n - 1);
    }
}

/// A decomposition with a volume prefix, a root marker or a parent-directory component is
/// joined nowhere, whatever the destination.
pub proof fn lemma_unsafe_part_refused(dest_dir: Seq<char>, parts: Seq<PartView>, i: int)
    requires
        0 <= i < parts.len(),
        parts[i] is Prefix || parts[i] is RootDir || parts[i] is ParentDir,
    ensures
        joined_parts(dest_dir, parts) is None,
{
    assert(unsafe_part(parts[i]));
}

/// Whether the segment at position `k` is a volume prefix: it begins like a drive, and no
/// name stands before it.
pub open spec fn volume_at(segs: Seq<Seq<char>>, k: int) -> bool {
    drive_form(segs[k]) && bare(segment_parts(segs, k))
}

/// Whether the segment at position `k` stands for a component that leads out: it is `..`
/// or a volume prefix.
pub open spec fn leads_out_at(segs: Seq<Seq<char>>, k: int) -> bool {
    segs[k] =~= seq!['.', '.'] || volume_at(segs, k)
}

/// If one of the first `n` segments leads out, their components escape.
proof fn lemma_unsafe_segment_escapes(segs: Seq<Seq<char>>, n: int, k: int)
    requires
        0 <= k < n <= segs.len(),
        leads_out_at(segs, k),
    ensures
        escapes(segment_parts(segs, n)),
    decreases n,
{
    let parts = segment_parts(segs, n);
    if k == n - 1 {
        assert(unsafe_part(parts[parts.len() - 1]));
    } else {
        lemma_unsafe_segment_escapes(segs, n - 1, k);
        let before = segment_parts(segs, n - 1);
        let j = choose|j: int| 0 <= j < before.len() && unsafe_part(#[trigger] before[j]);
        assert(parts[j] == before[j]);
        assert(unsafe_part(parts[j]));
    }
}

/// If the components of the first `n` segments escape, one of those segments leads out.
proof fn lemma_escape_has_unsafe_segment(segs: Seq<Seq<char>>, n: int)
    requires
        0 <= n <= segs.len(),
        escapes(segment_parts(segs, n)),
    ensures
        exists|k: int| 0 <= k < n && #[trigger] leads_out_at(segs, k),
    decreases n,
{
    let parts = segment_parts(segs, n);
    let j = choose|j: int| 0 <= j < parts.len() && unsafe_part(#[trigger] parts[j]);
    if n > 0 {
        let before = segment_parts(segs, n - 1);
        if j < before.len() {
            assert(parts[j] == before[j]);
            assert(unsafe_part(before[j]));
            lemma_escape_has_unsafe_segment(segs, n - 1);
        } else {
            assert(leads_out_at(segs, n - 1));
        }
    }
}

/// An entry name is refused, whatever the destination, where it begins with a slash or a
/// backslash, where it begins with a drive letter and a colon, and where `..` stands
/// between two separators, before the first or after the last.
pub proof fn lemma_traversal_refused(dest_dir: Seq<char>, entry_name: Seq<char>)
    requires
        starts_with_separator(entry_name) || drive_form(entry_name) || exists|k: int|
            0 <= k < name_segments(entry_name).len() && #[trigger] name_segments(entry_name)[k]
                =~= seq!['.', '.'],
    ensures
        safe_join_spec(dest_dir, entry_name) == Err::<Seq<char>, Seq<char>>(
            unsafe_entry_message(entry_name),
        ),
{
    let parts = name_parts(entry_name);
    let lead = lead_parts(entry_name);
    let segs = name_segments(entry_name);
    lemma_name_segments_split(entry_name);
    if starts_with_separator(entry_name) {
        assert(unsafe_part(parts[0]));
    } else {
        let k: int = if drive_form(entry_name) {
            assert(segs[0].len() >= 2) by {
                if segs[0].len() < 2 {
                    assert(is_separator(entry_name[segs[0].len() as int]));
                }
            }
            assert(segs[0][0] == entry_name[0]);
            assert(segs[0][1] == entry_name[1]);
            assert(volume_at(segs, 0));
            0
        } else {
            choose|k: int| 0 <= k < segs.len() && #[trigger] segs[k] =~= seq!['.', '.']
        };
        assert(leads_out_at(segs, k));
        lemma_unsafe_segment_escapes(segs, segs.len() as int, k);
        let tail = segment_parts(segs, segs.len() as int);
        let j = choose|j: int| 0 <= j < tail.len() && unsafe_part(#[trigger] tail[j]);
        assert(parts[lead.len() + j] == tail[j]);
        assert(unsafe_part(parts[lead.len() + j]));
    }
}

/// An entry name is refused exactly if it begins with a separator or one of its segments
/// leads out: is `..`, or is a volume prefix. Every other name is accepted, whatever the
/// destination.
pub proof fn lemma_refused_exactly_for_traversal(dest_dir: Seq<char>, entry_name: Seq<char>)
    ensures
        safe_join_spec(dest_dir, entry_name) is Err <==> starts_with_separator(entry_name)
            || exists|k: int|
            0 <= k < name_segments(entry_name).len() && #[trigger] leads_out_at(
                name_segments(entry_name),
                k,
            ),
{
    let parts = name_parts(entry_name);
    let lead = lead_parts(entry_name);
    let segs = name_segments(entry_name);
    let tail = segment_parts(segs, segs.len() as int);
    if starts_with_separator(entry_name) {
        assert(unsafe_part(parts[0]));
    } else {
        assert(parts =~= tail);
        if exists|k: int| 0 <= k < segs.len() && #[trigger] leads_out_at(segs, k) {
            let k = choose|k: int| 0 <= k < segs.len() && #[trigger] leads_out_at(segs, k);
            lemma_unsafe_segment_escapes(segs, segs.len() as int, k);
        }
        if safe_join_spec(dest_dir, entry_name) is Err {
            lemma_escape_has_unsafe_segment(segs, segs.len() as int);
        }
    }
}

/// A plain name: not empty, neither `.` nor `..`, and without a separator. It is one
/// normal component wherever it stands after another name.
pub open spec fn plain_name(name: Seq<char>) -> bool {
    &&& name.len() > 0
    &&& !(name =~= seq!['.'])
    &&& !(name =~= seq!['.', '.'])
    &&& forall|i: int| 0 <= i < name.len() ==> !is_separator(#[trigger] name[i])
}

/// The names of the normal components, in order.
pub open spec fn normal_names(parts: Seq<PartView>) -> Seq<Seq<char>>
    decreases parts.len(),
{
    if parts.len() == 0 {
        Seq::empty()
    } else {
        match parts.last() {
            PartView::Normal(name) => normal_names(parts.drop_last()).push(name),
            _ => normal_names(parts.drop_last()),
        }
    }
}

/// Whether a decomposition is harmless: every component is a current-directory component
/// or a normal one with a plain name, and the first name does not begin like a drive.
pub open spec fn harmless(parts: Seq<PartView>) -> bool {
    &&& forall|i: int|
        0 <= i < parts.len() ==> match #[trigger] parts[i] {
            PartView::CurDir => true,
            PartView::Normal(name) => plain_name(name),
            _ => false,
        }
    &&& normal_names(parts).len() > 0 ==> !drive_form(normal_names(parts)[0])
}

/// The components of segments without separators are harmless unless they escape, and
/// they are bare as long as they hold no name.
proof fn lemma_segment_parts_harmless(segs: Seq<Seq<char>>, n: int)
    requires
        0 <= n <= segs.len(),
        forall|i: int, j: int|
            0 <= i < segs.len() && 0 <= j < segs[i].len() ==> !is_separator(segs[i][j]),
        !escapes(segment_parts(segs, n)),
    ensures
        harmless(segment_parts(segs, n)),
        normal_names(segment_parts(segs, n)).len() == 0 ==> bare(segment_parts(segs, n)),
    decreases n,
{
    if n > 0 {
        let parts = segment_parts(segs, n);
        let before = segment_parts(segs, n - 1);
        assert(!escapes(before)) by {
            if escapes(before) {
                let j = choose|j: int| 0 <= j < before.len() && unsafe_part(#[trigger] before[j]);
                assert(parts[j] == before[j]);
                assert(unsafe_part(parts[j]));
            }
        }
        lemma_segment_parts_harmless(segs, n - 1);
        let added = segment_part(segs[n - 1], n == 1, bare(before));
        if added is Some {
            assert(parts.drop_last() =~= before);
            assert(parts.last() == added->0);
            assert(!unsafe_part(parts[parts.len() - 1]));
        }
        assert forall|i: int| 0 <= i < parts.len() implies match #[trigger] parts[i] {
            PartView::CurDir => true,
            PartView::Normal(name) => plain_name(name),
            _ => false,
        } by {
            if i < before.len() {
                assert(parts[i] == before[i]);
            }
        }
    }
}

/// The decomposition of an entry name is harmless unless it escapes.
pub proof fn lemma_name_parts_harmless(entry_name: Seq<char>)
    requires
        !escapes(name_parts(entry_name)),
    ensures
        harmless(name_parts(entry_name)),
{
    let segs = name_segments(entry_name);
    let tail = segment_parts(segs, segs.len() as int);
    let parts = name_parts(entry_name);
    lemma_name_segments_split(entry_name);
    if starts_with_separator(entry_name) {
        assert(unsafe_part(parts[0]));
    }
    assert(parts =~= tail);
    lemma_segment_parts_harmless(segs, segs.len() as int);
}

/// A beginning of a harmless decomposition is harmless.
pub proof fn lemma_harmless_beginning(parts: Seq<PartView>, k: int)
    requires
        harmless(parts),
        0 <= k <= parts.len(),
    ensures
        harmless(parts.take(k)),
        normal_names(parts.take(k)).len() <= normal_names(parts).len(),
        forall|i: int|
            0 <= i < normal_names(parts.take(k)).len() ==> normal_names(parts.take(k))[i]
                == normal_names(parts)[i],
    decreases parts.len() - k,
{
    let above = parts.take(k);
    assert forall|i: int| 0 <= i < above.len() implies match #[trigger] above[i] {
        PartView::CurDir => true,
        PartView::Normal(name) => plain_name(name),
        _ => false,
    } by {
        assert(above[i] == parts[i]);
    }
    if k < parts.len() {
        let longer = parts.take(k + 1);
        assert forall|i: int| 0 <= i < longer.len() implies match #[trigger] longer[i] {
            PartView::CurDir => true,
            PartView::Normal(name) => plain_name(name),
            _ => false,
        } by {
            assert(longer[i] == parts[i]);
        }
        assert(longer.drop_last() =~= above);
        lemma_harmless_beginning_step(parts, k + 1);
    } else {
        assert(above =~= parts);
    }
}

/// The names of a beginning of a decomposition are the first of its names.
proof fn lemma_harmless_beginning_step(parts: Seq<PartView>, k: int)
    requires
        0 <= k <= parts.len(),
    ensures
        normal_names(parts.take(k)).len() <= normal_names(parts).len(),
        forall|i: int|
            0 <= i < normal_names(parts.take(k)).len() ==> normal_names(parts.take(k))[i]
                == normal_names(parts)[i],
    decreases parts.len() - k,
{
    if k < parts.len() {
        let longer = parts.take(k + 1);
        assert(longer.drop_last() =~= parts.take(k));
        lemma_harmless_beginning_step(parts, k + 1);
    } else {
        assert(parts.take(k) =~= parts);
    }
}

/// Appending a text without separators lengthens the last segment and leaves the others.
proof fn lemma_name_segments_append(s: Seq<char>, t: Seq<char>)
    requires
        forall|i: int| 0 <= i < t.len() ==> !is_separator(t[i]),
    ensures
        name_segments(s).len() >= 1,
        name_segments(s + t) == name_segments(s).drop_last().push(name_segments(s).last() + t),
    decreases t.len(),
{
    lemma_name_segments_nonempty(s);
    if t.len() == 0 {
        assert(s + t =~= s);
        assert(name_segments(s).last() + t =~= name_segments(s).last());
        assert(name_segments(s).drop_last().push(name_segments(s).last()) =~= name_segments(s));
    } else {
        let shorter = t.drop_last();
        lemma_name_segments_append(s, shorter);
        assert((s + t).drop_last() =~= s + shorter);
        assert((s + t).last() == t.last());
        let before = name_segments(s + shorter);
        assert(before.drop_last() =~= name_segments(s).drop_last());
        assert(before.last().push(t.last()) =~= name_segments(s).last() + t);
    }
}

/// Names as normal components.
pub open spec fn as_normal(names: Seq<Seq<char>>) -> Seq<PartView> {
    Seq::new(names.len(), |i: int| PartView::Normal(names[i]))
}

/// Plain names of which the first does not begin like a drive, read as segments, are
/// normal components one for one.
proof fn lemma_plain_segments_are_normal(names: Seq<Seq<char>>, n: int)
    requires
        0 <= n <= names.len(),
        forall|i: int| 0 <= i < names.len() ==> plain_name(#[trigger] names[i]),
        names.len() > 0 ==> !drive_form(names[0]),
    ensures
        segment_parts(names, n) == as_normal(names.take(n)),
    decreases n,
{
    if n > 0 {
        lemma_plain_segments_are_normal(names, n - 1);
        assert(plain_name(names[n - 1]));
        let before = segment_parts(names, n - 1);
        if n > 1 {
            assert(before[0] == PartView::Normal(names.take(n - 1)[0]));
            assert(!bare(before));
        }
        assert(as_normal(names.take(n)) =~= as_normal(names.take(n - 1)).push(
            PartView::Normal(names[n - 1]),
        ));
    } else {
        assert(as_normal(names.take(n)) =~= Seq::<PartView>::empty());
    }
}

/// The relative path of a harmless decomposition reads back as its normal names: it is
/// empty where there is none, and else its segments are those names.
proof fn lemma_relative_text_segments(parts: Seq<PartView>)
    requires
        harmless(parts),
    ensures
        forall|i: int|
            0 <= i < normal_names(parts).len() ==> plain_name(#[trigger] normal_names(parts)[i]),
        normal_names(parts).len() == 0 ==> relative_text(parts).len() == 0,
        normal_names(parts).len() > 0 ==> {
            &&& relative_text(parts).len() > 0
            &&& !is_separator(relative_text(parts)[0])
            &&& relative_text(parts).last() != '/'
            &&& name_segments(relative_text(parts)) == normal_names(parts)
        },
    decreases parts.len(),
{
    if parts.len() > 0 {
        let init = parts.drop_last();
        assert(init =~= parts.take(parts.len() - 1));
        lemma_harmless_beginning(parts, parts.len() - 1);
        lemma_relative_text_segments(init);
        let last = parts[parts.len() - 1];
        match last {
            PartView::Normal(name) => {
                assert(plain_name(name));
                assert(!is_separator(name[0]));
                assert(!is_separator(name[name.len() - 1]));
                let before = relative_text(init);
                if normal_names(init).len() == 0 {
                    assert(relative_text(parts) =~= name);
                    lemma_name_segments_append(Seq::empty(), name);
                    assert(Seq::<char>::empty() + name =~= name);
                    assert(name_segments(Seq::<char>::empty()) =~= seq![Seq::<char>::empty()]);
                    assert(name_segments(name) =~= seq![name]);
                    assert(normal_names(parts) =~= seq![name]);
                } else {
                    let slashed = before + seq!['/'];
                    assert(relative_text(parts) =~= slashed + name);
                    assert(slashed.drop_last() =~= before);
                    assert(name_segments(slashed) == name_segments(before).push(Seq::empty()));
                    lemma_name_segments_append(slashed, name);
                    assert(Seq::<char>::empty() + name =~= name);
                    assert(name_segments(slashed).drop_last() =~= name_segments(before));
                    assert(name_segments(slashed + name) =~= normal_names(init).push(name));
                    assert(relative_text(parts)[0] == before[0]);
                    assert(relative_text(parts).last() == name.last());
                }
            },
            _ => {},
        }
    }
}

/// A harmless decomposition is joined inside the destination: the result is the
/// destination with a relative path pushed onto it, and that relative path reads as normal
/// components only, namely the normal components of the decomposition, one for one.
pub proof fn lemma_joined_parts_stay_inside(dest_dir: Seq<char>, parts: Seq<PartView>)
    requires
        harmless(parts),
    ensures
        joined_parts(dest_dir, parts) == Some(extended(dest_dir, relative_text(parts))),
        name_parts(relative_text(parts)) == as_normal(normal_names(parts)),
        !escapes(name_parts(relative_text(parts))),
{
    let relative = relative_text(parts);
    let names = normal_names(parts);
    assert(!escapes(parts)) by {
        if escapes(parts) {
            let j = choose|j: int| 0 <= j < parts.len() && unsafe_part(#[trigger] parts[j]);
            assert(!unsafe_part(parts[j]));
        }
    }
    lemma_relative_text_segments(parts);
    let again = name_parts(relative);
    if names.len() == 0 {
        assert(relative =~= Seq::<char>::empty());
        assert(name_segments(relative) =~= seq![Seq::<char>::empty()]);
        reveal_with_fuel(segment_parts, 2);
        assert(again =~= as_normal(names));
    } else {
        lemma_plain_segments_are_normal(names, names.len() as int);
        assert(names.take(names.len() as int) =~= names);
        assert(again =~= as_normal(names));
    }
    assert(!escapes(again)) by {
        if escapes(again) {
            let j = choose|j: int| 0 <= j < again.len() && unsafe_part(#[trigger] again[j]);
            assert(again[j] == PartView::Normal(names[j]));
        }
    }
}

/// What the sanitizer accepts stays inside the destination: the result is the destination
/// with a relative path pushed onto it, and that relative path has normal components only,
/// namely the names of the entry's normal components, one for one. It has no root marker,
/// no volume prefix and no parent-directory component, so nothing in it leads back out.
pub proof fn lemma_accepted_path_stays_inside(dest_dir: Seq<char>, entry_name: Seq<char>)
    requires
        safe_join_spec(dest_dir, entry_name) is Ok,
    ensures
        safe_join_spec(dest_dir, entry_name) == Ok::<Seq<char>, Seq<char>>(
            extended(dest_dir, relative_text(name_parts(entry_name))),
        ),
        name_parts(relative_text(name_parts(entry_name))) == as_normal(
            normal_names(name_parts(entry_name)),
        ),
        !escapes(name_parts(relative_text(name_parts(entry_name)))),
{
    lemma_name_parts_harmless(entry_name);
    lemma_joined_parts_stay_inside(dest_dir, name_parts(entry_name));
}

/// Sanitizing what the sanitizer produced changes nothing: the relative path of an
/// accepted entry is accepted, and goes where the entry goes.
pub proof fn lemma_sanitizing_again(dest_dir: Seq<char>, entry_name: Seq<char>)
    requires
        safe_join_spec(dest_dir, entry_name) is Ok,
    ensures
        safe_join_spec(dest_dir, relative_text(name_parts(entry_name))) == safe_join_spec(
            dest_dir,
            entry_name,
        ),
{
    let parts = name_parts(entry_name);
    let names = normal_names(parts);
    lemma_accepted_path_stays_inside(dest_dir, entry_name);
    lemma_name_parts_harmless(entry_name);
    lemma_relative_text_of_names(parts);
    lemma_relative_text_of_names(as_normal(names));
    lemma_normal_names_of_normal(names);
}

/// The relative path of a decomposition is that of its normal components alone.
proof fn lemma_relative_text_of_names(parts: Seq<PartView>)
    ensures
        relative_text(parts) == relative_text(as_normal(normal_names(parts))),
    decreases parts.len(),
{
    if parts.len() > 0 {
        let init = parts.drop_last();
        lemma_relative_text_of_names(init);
        match parts.last() {
            PartView::Normal(name) => {
                let all = as_normal(normal_names(parts));
                assert(all.drop_last() =~= as_normal(normal_names(init)));
                assert(all.last() == PartView::Normal(name));
            },
            _ => {},
        }
    } else {
        assert(as_normal(normal_names(parts)) =~= Seq::<PartView>::empty());
    }
}

/// The normal names of normal components are their names.
proof fn lemma_normal_names_of_normal(names: Seq<Seq<char>>)
    ensures
        normal_names(as_normal(names)) == names,
    decreases names.len(),
{
    if names.len() > 0 {
        lemma_normal_names_of_normal(names.drop_last());
        assert(as_normal(names).drop_last() =~= as_normal(names.drop_last()));
        assert(normal_names(as_normal(names)) =~= names);
    } else {
        assert(normal_names(as_normal(names)) =~= names);
    }
}

} // verus!
