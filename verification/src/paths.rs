//! Paths as texts: how a path splits at its slashes and how one path is pushed onto
//! another.

use vstd::prelude::*;
use vstd::string::StringExecFns;

verus! {

/// The pieces of a text between its slashes: one more than it has slashes, and empty
/// where two slashes meet or the text starts or ends with one.
pub open spec fn segments(s: Seq<char>) -> Seq<Seq<char>>
    decreases s.len(),
{
    if s.len() == 0 {
        seq![Seq::empty()]
    } else if s.last() == '/' {
        segments(s.drop_last()).push(Seq::empty())
    } else {
        let before = segments(s.drop_last());
        before.drop_last().push(before.last().push(s.last()))
    }
}

/// A text has at least one segment.
pub proof fn lemma_segments_nonempty(s: Seq<char>)
    ensures
        segments(s).len() >= 1,
    decreases s.len(),
{
    if s.len() > 0 {
        lemma_segments_nonempty(s.drop_last());
    }
}

/// Pieces put together again, with a slash between each two.
pub open spec fn joined_segments(segs: Seq<Seq<char>>) -> Seq<char>
    decreases segs.len(),
{
    if segs.len() == 0 {
        Seq::empty()
    } else if segs.len() == 1 {
        segs[0]
    } else {
        joined_segments(segs.drop_last()) + seq!['/'] + segs.last()
    }
}

/// The segments of a text are the text split at its slashes: none of them holds a slash,
/// and with slashes put back between them they make up the text.
pub proof fn lemma_segments_split(s: Seq<char>)
    ensures
        segments(s).len() >= 1,
        forall|i: int, j: int|
            0 <= i < segments(s).len() && 0 <= j < segments(s)[i].len() ==> segments(s)[i][j]
                != '/',
        joined_segments(segments(s)) == s,
    decreases s.len(),
{
    if s.len() > 0 {
        lemma_segments_split(s.drop_last());
        let before = segments(s.drop_last());
        let segs = segments(s);
        assert forall|i: int, j: int|
            0 <= i < segs.len() && 0 <= j < segs[i].len() implies segs[i][j] != '/' by {
            if s.last() == '/' {
                if i < before.len() {
                    assert(segs[i] == before[i]);
                }
            } else {
                if i < before.len() - 1 {
                    assert(segs[i] == before[i]);
                } else {
                    if j < before.last().len() {
                        assert(segs[i][j] == before.last()[j]);
                    }
                }
            }
        }
        if s.last() == '/' {
            assert(segs.drop_last() =~= before);
            assert(joined_segments(segs) =~= s.drop_last() + seq!['/'] + Seq::<char>::empty());
            assert(joined_segments(segs) =~= s);
        } else if before.len() == 1 {
            assert(joined_segments(segs) =~= before[0].push(s.last()));
            assert(joined_segments(segs) =~= s);
        } else {
            assert(segs.drop_last() =~= before.drop_last());
            assert(joined_segments(segs) =~= (joined_segments(before.drop_last()) + seq!['/']
                + before.last()).push(s.last()));
            assert(joined_segments(segs) =~= s);
        }
    } else {
        assert(joined_segments(segments(s)) =~= s);
    }
}

/// Whether a path starts at the root.
pub open spec fn rooted(path: Seq<char>) -> bool {
    path.len() > 0 && path[0] == '/'
}

/// Whether anything is written between a path and what is pushed onto it: a slash, unless
/// the path is empty or ends with one.
pub open spec fn needs_separator(path: Seq<char>) -> bool {
    path.len() > 0 && path.last() != '/'
}

/// A path with a relative path pushed onto it.
pub open spec fn extended(path: Seq<char>, relative: Seq<char>) -> Seq<char> {
    if needs_separator(path) {
        path + seq!['/'] + relative
    } else {
        path + relative
    }
}

/// A path with another path pushed onto it: a path that starts at the root replaces the
/// first, and a relative path extends it.
pub open spec fn pushed(path: Seq<char>, other: Seq<char>) -> Seq<char> {
    if rooted(other) {
        other
    } else {
        extended(path, other)
    }
}

/// Tells whether a slash is written before what is pushed onto `path`.
pub fn wants_separator(path: &str) -> (b: bool)
    ensures
        b == needs_separator(path@),
{
    let mut wanted: bool = false;
    for c in it: path.chars()
        invariant
            it.seq() == path@,
            wanted == needs_separator(path@.take(it.index() as int)),
    {
        assert(path@.take(it.index() + 1).last() == c);
        wanted = c != '/';
    }
    assert(path@.take(path@.len() as int) =~= path@);
    wanted
}

/// Pushes a relative path onto `path`, with a slash between the two where one is needed.
pub fn push_relative(path: &mut String, relative: &str)
    ensures
        final(path)@ == extended(old(path)@, relative@),
{
    if wants_separator(path.as_str()) {
        path.push('/');
    }
    path.append(relative);
    assert(path@ =~= extended(old(path)@, relative@));
}

/// Tells whether a path starts at the root.
pub fn is_rooted(path: &str) -> (b: bool)
    ensures
        b == rooted(path@),
{
    let mut seen: bool = false;
    let mut found: bool = false;
    for c in it: path.chars()
        invariant
            it.seq() == path@,
            seen == (it.index() > 0),
            found == rooted(path@.take(it.index() as int)),
    {
        if !seen {
            found = c == '/';
            seen = true;
        }
        assert(path@.take(it.index() + 1)[0] == path@[0]);
    }
    assert(path@.take(path@.len() as int) =~= path@);
    found
}

/// Pushes a path onto `path`.
pub fn push_path(path: &mut String, other: &str)
    ensures
        final(path)@ == pushed(old(path)@, other@),
{
    if is_rooted(other) {
        *path = other.to_owned();
    } else {
        push_relative(path, other);
    }
}

} // verus!
