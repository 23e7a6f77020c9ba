use fetch_extract::query::{search_pattern, Game};

#[test]
fn pattern_ignores_case_space_and_separators() {
    assert_eq!(search_pattern("Super Mario: World-2_x"), "%supermarioworld2x%");
    assert_eq!(search_pattern(""), "%%");
    assert_eq!(search_pattern(" - _ : \t"), "%%");
    assert_eq!(search_pattern("ZELDA"), "%zelda%");
    assert_eq!(search_pattern("Pokémon ÉMERAUDE"), "%pokémonémeraude%");
    assert_eq!(search_pattern("100%"), "%100%%");
}

#[test]
fn pattern_agrees_with_the_plain_chain() {
    for search in ["Final Fantasy VII", "a-b_c:d e", "İstanbul", "ΣΑΣ", "tab\there"] {
        let normalized: String = search
            .to_lowercase()
            .chars()
            .filter(|c| !c.is_whitespace() && *c != '-' && *c != '_' && *c != ':')
            .collect();
        assert_eq!(search_pattern(search), format!("%{}%", normalized));
    }
}

#[test]
fn row_mark_is_read_as_a_flag() {
    let game = Game::from_row(3, "N".to_string(), "C".to_string(), "1 MiB".to_string(), "u".to_string(), 1);
    assert_eq!(
        game,
        Game {
            id: 3,
            name: "N".to_string(),
            console: "C".to_string(),
            size: "1 MiB".to_string(),
            dl_link: "u".to_string(),
            is_downloaded: true
        }
    );
    assert!(!Game::from_row(3, String::new(), String::new(), String::new(), String::new(), 0).is_downloaded);
    assert!(Game::from_row(3, String::new(), String::new(), String::new(), String::new(), -5).is_downloaded);
}
