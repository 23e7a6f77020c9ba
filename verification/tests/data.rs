use fetch_extract::data::{game_of_row, games_of_rows, scrape, Game, RowCells};

const PAGE: &str = r#"<!DOCTYPE html>
<html><body>
<table id="list">
<thead><tr><th class="link">File Name</th><th class="size">File Size</th><th class="date">Date</th></tr></thead>
<tbody>
<tr><td class="link"><a href="../">Parent directory/</a></td><td class="size">-</td><td class="date">-</td></tr>
<tr><td class="link"><a href="Alpha%20%28USA%29.zip" title="Alpha (USA).zip">  Alpha (USA).zip </a></td><td class="size"> 12.3 MiB</td><td class="date">01-Jan-2024 10:00 </td></tr>
<tr><td class="link"><a>Beta.zip</a></td><td class="size">1 KiB</td></tr>
</tbody>
</table>
</body></html>"#;

fn game(name: &str, date: &str, size: &str, dl_link: &str) -> Game {
    Game {
        name: name.to_string(),
        date: date.to_string(),
        size: size.to_string(),
        dl_link: dl_link.to_string(),
        is_downloaded: false,
    }
}

#[test]
fn every_table_row_becomes_an_item() {
    let games = scrape(PAGE, "https://host/files/").unwrap();
    assert_eq!(
        games,
        vec![
            game("Unknown", "Unknown", "Unknown", "https://host/files/Unknown"),
            game("Parent directory/", "-", "-", "https://host/files/../"),
            game(
                "Alpha (USA).zip",
                "01-Jan-2024 10:00",
                "12.3 MiB",
                "https://host/files/Alpha%20%28USA%29.zip"
            ),
            game("Beta.zip", "Unknown", "1 KiB", "https://host/files/Unknown"),
        ]
    );
}

#[test]
fn page_without_rows_has_no_items() {
    assert_eq!(scrape("<p>nothing here</p>", "https://host/"), Ok(vec![]));
    assert_eq!(scrape("", "https://host/"), Ok(vec![]));
}

#[test]
fn missing_cells_are_unknown() {
    let cells = RowCells { name: None, href: None, date: None, size: None };
    assert_eq!(game_of_row("u/", &cells), game("Unknown", "Unknown", "Unknown", "u/Unknown"));
}

#[test]
fn cell_texts_are_trimmed_and_the_link_is_not() {
    let cells = RowCells {
        name: Some("\n  Name \t".to_string()),
        href: Some(" x y ".to_string()),
        date: Some("".to_string()),
        size: Some(" \u{a0} ".to_string()),
    };
    assert_eq!(game_of_row("http://h/", &cells), game("Name", "", "", "http://h/ x y "));
}

#[test]
fn rows_become_items_one_for_one_in_order() {
    let rows = vec![
        RowCells { name: Some(" B ".to_string()), href: Some("b.zip".to_string()), date: None, size: None },
        RowCells { name: None, href: None, date: Some("d".to_string()), size: Some("s".to_string()) },
        RowCells { name: Some("A".to_string()), href: Some("a.zip".to_string()), date: None, size: None },
    ];
    assert_eq!(
        games_of_rows("h/", &rows),
        vec![
            game("B", "Unknown", "Unknown", "h/b.zip"),
            game("Unknown", "d", "s", "h/Unknown"),
            game("A", "Unknown", "Unknown", "h/a.zip"),
        ]
    );
    assert_eq!(games_of_rows("h/", &vec![]), vec![]);
}
