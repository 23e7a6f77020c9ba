//! The catalog as it is searched: one row per downloadable item, found by a pattern that
//! ignores case, white space and separators.

use vstd::prelude::*;
use crate::text::unicode_whitespace;

verus! {

/// What `str::to_lowercase` returns for a text: its lower-case form by the Unicode rules.
pub uninterp spec fn lowercase_of(s: Seq<char>) -> Seq<char>;

/// `str::to_lowercase` returns the lower-case form of the text as a new `String`.
pub assume_specification[ str::to_lowercase ](s: &str) -> (lower: String)
    ensures
        lower@ == lowercase_of(s@),
;

/// One item of the catalog, as a search returns it.
#[derive(Clone, Debug, PartialEq, Eq)]
pub struct Game {
    pub id: i64,
    pub name: String,
    pub console: String,
    pub size: String,
    pub dl_link: String,
    pub is_downloaded: bool,
}

impl Game {
    /// The item of one row of the catalog. The row holds the download mark as a number:
    /// anything but 0 says that the item is downloaded.
    pub fn from_row(
        id: i64,
        name: String,
        console: String,
        size: String,
        dl_link: String,
        downloaded: i64,
    ) -> (game: Game)
        ensures
            game.id == id,
            game.name == name,
            game.console == console,
            game.size == size,
            game.dl_link == dl_link,
            game.is_downloaded == (downloaded != 0),
    {
        Game { id, name, console, size, dl_link, is_downloaded: downloaded != 0 }
    }
}

/// Whether a character counts in a search: white space, `-`, `_` and `:` do not.
pub open spec fn counts(c: char) -> bool {
    !unicode_whitespace(c) && c != '-' && c != '_' && c != ':'
}

/// The characters of a text that count in a search, in order.
pub open spec fn counted(s: Seq<char>) -> Seq<char>
    decreases s.len(),
{
    if s.len() == 0 {
        Seq::empty()
    } else if counts(s.last()) {
        counted(s.drop_last()).push(s.last())
    } else {
        counted(s.drop_last())
    }
}

/// The pattern that finds a search text anywhere in a name: the text in lower case,
/// without the characters that do not count, between two `%`.
pub open spec fn pattern_of(search: Seq<char>) -> Seq<char> {
    seq!['%'] + counted(lowercase_of(search)) + seq!['%']
}

/// Computes the pattern for a search text.
pub fn search_pattern(search: &str) -> (pattern: String)
    ensures
        pattern@ == pattern_of(search@),
{
    let lower: String = search.to_lowercase();
    let mut pattern = String::new();
    pattern.push('%');
    for c in it: lower.as_str().chars()
        invariant
            it.seq() == lower@,
            pattern@ == seq!['%'] + counted(lower@.take(it.index() as int)),
    {
        let ghost next = lower@.take(it.index() + 1);
        assert(next.drop_last() =~= lower@.take(it.index() as int));
        assert(next.last() == c);
        if !c.is_whitespace() && c != '-' && c != '_' && c != ':' {
            pattern.push(c);
        }
        assert(pattern@ =~= seq!['%'] + counted(next));
    }
    assert(lower@.take(lower@.len() as int) =~= lower@);
    pattern.push('%');
    pattern
}

} // verus!
