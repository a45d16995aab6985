use anime_tui::app::{Action, App, InputMode, Key};
use anime_tui::download::Download;
use anime_tui::sources::ranking::rank_by_seeders;
use anime_tui::sources::TorrentEntry;

fn entry(title: &str, seeders: u32) -> TorrentEntry {
    TorrentEntry {
        title: title.to_string(),
        magnet: format!("magnet:{}", title),
        size: String::new(),
        seeders,
        leechers: 0,
        source: "Nyaa",
    }
}

fn app_with(n: usize) -> App {
    let mut app = App::new();
    app.input_mode = InputMode::Normal;
    app.results = (0..n).map(|i| entry(&format!("e{}", i), 0)).collect();
    app
}

#[test]
fn new_app_starts_searching() {
    let app = App::new();
    assert_eq!(app.input_mode, InputMode::Searching);
    assert_eq!(app.query, "");
    assert!(app.results.is_empty());
    assert_eq!(app.selected, 0);
    assert_eq!(app.scroll_offset, 0);
    assert_eq!(app.status, "Type to search, Enter to search, 'd' download (aria2c), 's' Spanish, 'q' quit");
    assert!(!app.loading);
    assert!(!app.spanish_filter);
    assert!(app.last_search.is_none());
}

#[test]
fn typing_and_erasing() {
    let mut app = App::new();
    app.push_char('a');
    app.push_char('ñ');
    assert_eq!(app.query, "añ");
    app.pop_char();
    assert_eq!(app.query, "a");
    app.pop_char();
    app.pop_char();
    assert_eq!(app.query, "");
}

#[test]
fn next_scrolls_after_fifteen_rows() {
    let mut app = app_with(20);
    for _ in 0..15 {
        app.next();
    }
    assert_eq!(app.selected, 15);
    assert_eq!(app.scroll_offset, 1);
    for _ in 0..10 {
        app.next();
    }
    assert_eq!(app.selected, 19);
    assert_eq!(app.scroll_offset, 5);
}

#[test]
fn previous_scrolls_back_and_stops_at_top() {
    let mut app = app_with(20);
    app.selected = 6;
    app.scroll_offset = 6;
    app.previous();
    assert_eq!(app.selected, 5);
    assert_eq!(app.scroll_offset, 5);
    app.selected = 0;
    app.scroll_offset = 0;
    app.previous();
    assert_eq!(app.selected, 0);
}

#[test]
fn moving_without_results_does_nothing() {
    let mut app = app_with(0);
    app.next();
    app.previous();
    assert_eq!(app.selected, 0);
    assert_eq!(app.scroll_offset, 0);
}

#[test]
fn down_then_up_returns() {
    let mut app = app_with(5);
    app.selected = 2;
    app.next();
    app.previous();
    assert_eq!(app.selected, 2);
}

#[test]
fn selected_magnet() {
    let mut app = app_with(3);
    app.selected = 1;
    assert_eq!(app.get_selected_magnet(), Some("magnet:e1".to_string()));
    app.selected = 3;
    assert_eq!(app.get_selected_magnet(), None);
}

#[test]
fn toggle_spanish_twice() {
    let mut app = App::new();
    app.toggle_spanish();
    assert!(app.spanish_filter);
    assert_eq!(app.status, "Spanish filter ON — searching Latino/Castellano dubs");
    app.toggle_spanish();
    assert!(!app.spanish_filter);
    assert_eq!(app.status, "Spanish filter OFF");
}

#[test]
fn search_blank_query_starts_nothing() {
    let mut app = App::new();
    app.query = "   ".to_string();
    assert!(app.search().is_none());
    assert!(!app.loading);
}

#[test]
fn search_then_finish_ranks_results() {
    let mut app = app_with(4);
    app.selected = 3;
    app.scroll_offset = 1;
    app.query = "  naruto ".to_string();
    let q = app.search().unwrap();
    assert_eq!(q, "naruto");
    assert!(app.loading);
    assert!(app.results.is_empty());
    assert_eq!(app.selected, 0);
    assert_eq!(app.scroll_offset, 0);
    assert_eq!(app.status, "Searching for \"naruto\"...");
    app.finish_search(
        q,
        Ok(vec![entry("a", 5), entry("b", 9), entry("c", 5)]),
        Ok(vec![entry("d", 0), entry("e", 9)]),
    );
    let titles: Vec<&str> = app.results.iter().map(|e| e.title.as_str()).collect();
    assert_eq!(titles, vec!["b", "e", "a", "c", "d"]);
    assert_eq!(
        app.status,
        "Found 5 result(s). Use ↑/↓ to navigate, 'd' to download, Enter to search again"
    );
    assert!(!app.loading);
    assert_eq!(app.last_search.as_deref(), Some("naruto"));
}

#[test]
fn finish_with_failures_reports_nothing_found() {
    let mut app = App::new();
    app.finish_search("x".into(), Err("down".into()), Err("down".into()));
    assert!(app.results.is_empty());
    assert_eq!(app.status, "No results found. Try a different search.");
}

#[test]
fn finish_keeps_a_failed_source_out() {
    let mut app = App::new();
    app.finish_search("x".into(), Err("down".into()), Ok(vec![entry("s", 0)]));
    assert_eq!(app.results.len(), 1);
    assert_eq!(app.status, "Found 1 result(s). Use ↑/↓ to navigate, 'd' to download, Enter to search again");
}

#[test]
fn rank_is_stable_descending() {
    let r = rank_by_seeders(vec![entry("a", 1), entry("b", 3), entry("c", 1), entry("d", 2)]);
    let titles: Vec<&str> = r.iter().map(|e| e.title.as_str()).collect();
    assert_eq!(titles, vec!["b", "d", "a", "c"]);
}

#[test]
fn download_without_selection() {
    let mut app = app_with(0);
    assert!(app.download_selected().is_none());
    assert_eq!(app.status, "No torrent selected");
}

#[test]
fn download_with_selection_and_outcomes() {
    let mut app = app_with(2);
    app.selected = 1;
    let job = app.download_selected().unwrap();
    assert_eq!(job.magnet, "magnet:e1");
    assert_eq!(job.title, "e1");
    app.download_finished(&job.title, Ok(Download { path: "/home/u/Descargas/anime".into() }));
    assert_eq!(app.status, "Downloading: e1 → /home/u/Descargas/anime/");
    app.download_finished(&job.title, Err("no aria2c".into()));
    assert_eq!(app.status, "Download failed: no aria2c");
}

#[test]
fn keys_in_search_mode() {
    let mut app = App::new();
    assert!(matches!(app.handle_key(Key::Char('x')), Action::Nothing));
    assert_eq!(app.query, "x");
    assert!(matches!(app.handle_key(Key::Backspace), Action::Nothing));
    assert_eq!(app.query, "");
    assert!(matches!(app.handle_key(Key::Enter), Action::Nothing));
    assert_eq!(app.input_mode, InputMode::Normal);
    assert!(matches!(app.handle_key(Key::Char('/')), Action::Nothing));
    assert_eq!(app.input_mode, InputMode::Searching);
    app.query = "bleach".into();
    match app.handle_key(Key::Enter) {
        Action::Search(q) => assert_eq!(q, "bleach"),
        _ => panic!("expected a search"),
    }
    assert_eq!(app.input_mode, InputMode::Normal);
}

#[test]
fn keys_in_normal_mode() {
    let mut app = app_with(3);
    assert!(matches!(app.handle_key(Key::Char('j')), Action::Nothing));
    assert_eq!(app.selected, 1);
    assert!(matches!(app.handle_key(Key::Up), Action::Nothing));
    assert_eq!(app.selected, 0);
    match app.handle_key(Key::Char('c')) {
        Action::Copy(m) => assert_eq!(m, "magnet:e0"),
        _ => panic!("expected a copy"),
    }
    assert_eq!(app.status, "Magnet link copied to clipboard");
    match app.handle_key(Key::Char('d')) {
        Action::Download(job) => assert_eq!(job.title, "e0"),
        _ => panic!("expected a download"),
    }
    assert!(matches!(app.handle_key(Key::Char('s')), Action::Nothing));
    assert!(app.spanish_filter);
    assert!(matches!(app.handle_key(Key::Char('z')), Action::Nothing));
    assert!(matches!(app.handle_key(Key::Char('q')), Action::Quit));
    assert!(matches!(app.handle_key(Key::Esc), Action::Quit));
}

#[test]
fn esc_leaves_search_mode() {
    let mut app = App::new();
    assert!(matches!(app.handle_key(Key::Esc), Action::Nothing));
    assert_eq!(app.input_mode, InputMode::Normal);
}

#[test]
fn next_without_results_ignores_a_huge_scroll_offset() {
    let mut app = app_with(0);
    app.scroll_offset = usize::MAX;
    app.next();
    assert_eq!(app.scroll_offset, usize::MAX);
    assert!(matches!(app.handle_key(Key::Down), Action::Nothing));
    assert_eq!(app.selected, 0);
}

#[test]
fn q_is_typed_while_searching() {
    let mut app = App::new();
    assert!(matches!(app.handle_key(Key::Char('q')), Action::Nothing));
    assert_eq!(app.query, "q");
}
