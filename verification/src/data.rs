//! The catalog as it is filled: the items that a listing page shows.
//!
//! A listing page is an HTML table with one row per item. The `scraper` crate parses the
//! page and finds rows and cells; what becomes of a row is decided here.

use vstd::prelude::*;
use vstd::string::StringExecFns;
use scraper::{ElementRef, Html, Selector};
use crate::text::{trim, trimmed};

verus! {

/// A parsed HTML document of the `scraper` crate.
#[verifier::external_type_specification]
#[verifier::external_body]
pub struct ExHtml(Html);

/// A parsed CSS selector group of the `scraper` crate.
#[verifier::external_type_specification]
#[verifier::external_body]
pub struct ExSelector(Selector);

/// A reference to an element of a parsed document of the `scraper` crate.
#[verifier::external_type_specification]
#[verifier::external_body]
pub struct ExElementRef<'a>(ElementRef<'a>);

/// Parses a text as an HTML document with `Html::parse_document`, which accepts every
/// text. Nothing is claimed of the document.
#[verifier::external_body]
fn parse_document(html: &str) -> (document: Html) {
    Html::parse_document(html)
}

/// What `Selector::parse` says of a text: nothing where the text is a CSS selector group,
/// and else the text of the error with which it is refused.
pub uninterp spec fn selector_error(text: Seq<char>) -> Option<Seq<char>>;

/// Parses a CSS selector group with `Selector::parse`. The error of a text that is no
/// selector group is handed on as its text. Whether a text is accepted, and with which
/// error it is refused, depends on the text alone; nothing is claimed of the selector.
#[verifier::external_body]
fn parse_selector(text: &str) -> (selector: Result<Selector, String>)
    ensures
        selector is Ok <==> selector_error(text@) is None,
        selector matches Err(error) ==> selector_error(text@) == Some(error@),
{
    Selector::parse(text).map_err(|e| e.to_string())
}

/// Collects what `Html::select` yields: the elements of the document that match the
/// selector. Nothing is claimed of them.
#[verifier::external_body]
fn select_all<'a>(document: &'a Html, selector: &Selector) -> (elements: Vec<ElementRef<'a>>) {
    document.select(selector).collect()
}

/// Takes the first of what `ElementRef::select` yields: a descendant of the element that
/// matches the selector, if there is one. Nothing is claimed of it.
#[verifier::external_body]
fn select_first<'a>(element: &ElementRef<'a>, selector: &Selector) -> (found: Option<
    ElementRef<'a>,
>) {
    element.select(selector).next()
}

/// Collects what `ElementRef::text` yields: the text inside the element. Nothing is
/// claimed of it.
#[verifier::external_body]
fn text_of(element: &ElementRef<'_>) -> (text: String) {
    element.text().collect::<String>()
}

/// Copies what `ElementRef::attr` returns: the value of the attribute, if the element has
/// it. Nothing is claimed of it.
#[verifier::external_body]
fn attr_of(element: &ElementRef<'_>, name: &str) -> (value: Option<String>) {
    element.attr(name).map(|v| v.to_owned())
}

/// One item as a listing page shows it, before it has a place in the catalog.
#[derive(Clone, Debug, PartialEq, Eq)]
pub struct Game {
    pub name: String,
    pub date: String,
    pub size: String,
    pub dl_link: String,
    pub is_downloaded: bool,
}

/// What one row of a listing shows: the text of its link, the target of the link, and the
/// texts of its date and size cells, each as far as the row has it.
#[derive(Clone, Debug, PartialEq, Eq)]
pub struct RowCells {
    pub name: Option<String>,
    pub href: Option<String>,
    pub date: Option<String>,
    pub size: Option<String>,
}

/// A cell text as it goes into an item: trimmed, and `Unknown` for a cell that is missing.
pub open spec fn cell_text(cell: Option<String>) -> Seq<char> {
    match cell {
        Some(text) => trimmed(text@),
        None => "Unknown"@,
    }
}

/// The link of an item: the address of the page followed by the target of the row's
/// link, as it stands, or by `Unknown` where the row has no link.
pub open spec fn link_text(site_url: Seq<char>, href: Option<String>) -> Seq<char> {
    match href {
        Some(target) => site_url + target@,
        None => site_url + "Unknown"@,
    }
}

/// Whether an item is the one that a row with these cells shows on the page at
/// `site_url`. A new item is not downloaded.
pub open spec fn shows(site_url: Seq<char>, cells: RowCells, game: Game) -> bool {
    &&& game.name@ == cell_text(cells.name)
    &&& game.date@ == cell_text(cells.date)
    &&& game.size@ == cell_text(cells.size)
    &&& game.dl_link@ == link_text(site_url, cells.href)
    &&& !game.is_downloaded
}

/// Whether items are those that rows show on the page at `site_url`: one item per row,
/// in the order of the rows.
pub open spec fn shown_in_order(site_url: Seq<char>, rows: Seq<RowCells>, games: Seq<Game>) -> bool {
    &&& games.len() == rows.len()
    &&& forall|i: int| 0 <= i < rows.len() ==> shows(site_url, #[trigger] rows[i], games[i])
}

/// Whether items are those of some rows of the page at `site_url`, one per row in their
/// order.
pub open spec fn listed(site_url: Seq<char>, games: Seq<Game>) -> bool {
    exists|rows: Seq<RowCells>| shown_in_order(site_url, rows, games)
}

fn cell_value(cell: &Option<String>) -> (text: String)
    ensures
        text@ == cell_text(*cell),
{
    match cell {
        Some(text) => trim(text.as_str()),
        None => "Unknown".to_owned(),
    }
}

/// Makes the item of one row of the page at `site_url`.
pub fn game_of_row(site_url: &str, cells: &RowCells) -> (game: Game)
    ensures
        shows(site_url@, *cells, game),
{
    let mut dl_link: String = site_url.to_owned();
    match &cells.href {
        Some(target) => dl_link.append(target.as_str()),
        None => dl_link.append("Unknown"),
    }
    Game {
        name: cell_value(&cells.name),
        date: cell_value(&cells.date),
        size: cell_value(&cells.size),
        dl_link,
        is_downloaded: false,
    }
}

/// Makes the items of the rows of the page at `site_url`: one per row, in their order.
pub fn games_of_rows(site_url: &str, rows: &Vec<RowCells>) -> (games: Vec<Game>)
    ensures
        shown_in_order(site_url@, rows@, games@),
{
    let mut games: Vec<Game> = Vec::new();
    let mut i: usize = 0;
    while i < rows.len()
        invariant
            i <= rows.len(),
            shown_in_order(site_url@, rows@.take(i as int), games@),
        decreases rows.len() - i,
    {
        let game = game_of_row(site_url, &rows[i]);
        let ghost before = games@;
        games.push(game);
        assert forall|k: int| 0 <= k < i + 1 implies shows(
            site_url@,
            #[trigger] rows@.take(i + 1)[k],
            games@[k],
        ) by {
            if k < i {
                assert(rows@.take(i as int)[k] == rows@.take(i + 1)[k]);
                assert(games@[k] == before[k]);
            }
        }
        i = i + 1;
    }
    assert(rows@.take(rows.len() as int) =~= rows@);
    games
}

/// The selector of the rows of a listing.
pub const ROW_SELECTOR: &'static str = "tr";

/// The selector of the link of a row, whose text is the name of the item.
pub const NAME_SELECTOR: &'static str = ".link a";

/// The selector of the date cell of a row.
pub const DATE_SELECTOR: &'static str = "td:nth-child(3)";

/// The selector of the size cell of a row.
pub const SIZE_SELECTOR: &'static str = "td:nth-child(2)";

/// The error with which the reading of a listing fails: that of the first of its four
/// selectors, rows, name, date and size in this order, that the selector parser refuses;
/// none where it accepts them all.
pub open spec fn listing_selector_error() -> Option<Seq<char>> {
    if selector_error(ROW_SELECTOR@) is Some {
        selector_error(ROW_SELECTOR@)
    } else if selector_error(NAME_SELECTOR@) is Some {
        selector_error(NAME_SELECTOR@)
    } else if selector_error(DATE_SELECTOR@) is Some {
        selector_error(DATE_SELECTOR@)
    } else {
        selector_error(SIZE_SELECTOR@)
    }
}

/// Reads the items off a listing page fetched from `site_url`: one per table row, in the
/// order of the page. Which rows the page has and what their cells hold is for the HTML
/// parser to say; the items are made of the rows by `games_of_rows`. The reading succeeds
/// on every page and every address, provided the selector parser accepts the four
/// selectors of a listing; it fails only where the parser refuses one of them, and then
/// with the error of the first that it refuses.
pub fn scrape(html: &str, site_url: &str) -> (r: Result<Vec<Game>, String>)
    ensures
        r is Ok <==> listing_selector_error() is None,
        r matches Err(error) ==> listing_selector_error() == Some(error@),
        r matches Ok(games) ==> listed(site_url@, games@),
{
    let document = parse_document(html);
    let rows = match parse_selector(ROW_SELECTOR) {
        Ok(selector) => selector,
        Err(error) => {
            return Err(error);
        },
    };
    let name = match parse_selector(NAME_SELECTOR) {
        Ok(selector) => selector,
        Err(error) => {
            return Err(error);
        },
    };
    let date = match parse_selector(DATE_SELECTOR) {
        Ok(selector) => selector,
        Err(error) => {
            return Err(error);
        },
    };
    let size = match parse_selector(SIZE_SELECTOR) {
        Ok(selector) => selector,
        Err(error) => {
            return Err(error);
        },
    };
    let found = select_all(&document, &rows);
    let mut cells: Vec<RowCells> = Vec::new();
    let mut i: usize = 0;
    while i < found.len()
        invariant
            i <= found.len(),
            listing_selector_error() is None,
        decreases found.len() - i,
    {
        let link = select_first(&found[i], &name);
        cells.push(
            RowCells {
                name: match &link {
                    Some(element) => Some(text_of(element)),
                    None => None,
                },
                href: match &link {
                    Some(element) => attr_of(element, "href"),
                    None => None,
                },
                date: match select_first(&found[i], &date) {
                    Some(element) => Some(text_of(&element)),
                    None => None,
                },
                size: match select_first(&found[i], &size) {
                    Some(element) => Some(text_of(&element)),
                    None => None,
                },
            },
        );
        i = i + 1;
    }
    let games = games_of_rows(site_url, &cells);
    assert(listed(site_url@, games@)) by {
        assert(shown_in_order(site_url@, cells@, games@));
    }
    Ok(games)
}

} // verus!
