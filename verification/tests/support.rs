use anime_tui::app::{App, InputMode};
use anime_tui::download::{aria2c_args, download_dir};
use anime_tui::sources::TorrentEntry;
use anime_tui::text::{parse_u32, push_decimal, trim, white_space};
use anime_tui::view::{
    placeholder_tone, Tone,
    cursor_column, placeholder_lines, row_cells, row_style, search_border, search_text, search_title,
    status_text, visible_range, BarColor, RowStyle,
};

#[test]
fn trim_removes_unicode_white_space() {
    assert_eq!(trim("  a b \t\n"), "a b");
    assert_eq!(trim("\u{3000}x\u{a0}"), "x");
    assert_eq!(trim("   "), "");
    assert_eq!(trim(""), "");
    assert!(white_space('\u{2028}'));
    assert!(!white_space('x'));
}

#[test]
fn parse_u32_as_std() {
    for s in ["0", "42", "+7", "4294967295", "4294967296", "", "+", "-1", "1a", " 1", "007"] {
        assert_eq!(parse_u32(s), s.parse::<u32>().ok(), "{}", s);
    }
}

#[test]
fn decimal_as_display() {
    for n in [0usize, 7, 10, 99, 12345, usize::MAX] {
        let mut s = String::from("n=");
        push_decimal(&mut s, n);
        assert_eq!(s, format!("n={}", n));
    }
}

#[test]
fn download_dir_and_args() {
    assert_eq!(download_dir(Some("/home/u".into())), "/home/u/Descargas/anime");
    assert_eq!(download_dir(None), "/tmp/Descargas/anime");
    assert_eq!(
        aria2c_args("/d", "magnet:?x"),
        vec![
            "--dir",
            "/d",
            "--seed-time=0",
            "--max-connection-per-server=16",
            "--split=16",
            "--console-log-level=error",
            "--summary-interval=0",
            "magnet:?x",
        ]
    );
}

fn entry(title: &str, seeders: u32) -> TorrentEntry {
    TorrentEntry {
        title: title.to_string(),
        magnet: String::new(),
        size: "1 GiB".to_string(),
        seeders,
        leechers: 3,
        source: "Nyaa",
    }
}

#[test]
fn search_bar_views() {
    let mut app = App::new();
    assert_eq!(search_title(&app), " Search ");
    assert_eq!(search_border(&app), BarColor::Cyan);
    assert_eq!(search_text(&app), "Type anime name and press Enter...");
    assert_eq!(cursor_column(&app), Some(0));
    app.query = "añ".into();
    assert_eq!(cursor_column(&app), Some(3));
    app.spanish_filter = true;
    assert_eq!(search_title(&app), " Search [Español ON] ");
    assert_eq!(search_border(&app), BarColor::Yellow);
    app.loading = true;
    assert_eq!(search_title(&app), " Searching... ");
    app.input_mode = InputMode::Normal;
    app.spanish_filter = false;
    assert_eq!(search_border(&app), BarColor::White);
    assert_eq!(cursor_column(&app), None);
    assert_eq!(search_text(&app), "añ");
}

#[test]
fn results_views() {
    let mut app = App::new();
    assert_eq!(placeholder_lines(&app), vec!["No results yet", "Type a query above and press Enter"]);
    app.loading = true;
    assert_eq!(placeholder_lines(&app), vec!["Searching..."]);
    app.results = (0..10).map(|i| entry("t", i)).collect();
    app.scroll_offset = 4;
    assert_eq!(visible_range(&app, 5), (4, 7));
    assert_eq!(visible_range(&app, 40), (4, 10));
    assert_eq!(visible_range(&app, 1), (4, 4));
    app.selected = 5;
    assert_eq!(row_style(&app, 5), RowStyle::Selected);
    assert_eq!(row_style(&app, 4), RowStyle::Shaded);
    assert_eq!(row_style(&app, 7), RowStyle::Plain);
    assert_eq!(row_cells(&entry("x", 12)), vec!["x", "1 GiB", "12", "3", "Nyaa"]);
}

#[test]
fn status_views() {
    let mut app = App::new();
    assert_eq!(
        status_text(&app),
        "Type and press Enter to search | ↑↓ navigate | d download | c copy | s Spanish | q quit"
    );
    app.input_mode = InputMode::Normal;
    app.status = "hello".into();
    assert_eq!(status_text(&app), "hello");
}

#[test]
fn entry_getters() {
    let e = entry("x", 1);
    assert_eq!(e.fmt_size(), "1 GiB");
    assert_eq!(e.fmt_source(), "Nyaa");
}

#[test]
fn trim_twice_is_trim_once() {
    for s in ["  a  ", "\u{2003}b c\u{2003}", "", " \n "] {
        let once = trim(s);
        assert_eq!(trim(&once), once);
    }
}

#[test]
fn placeholder_tone_follows_loading() {
    let mut app = App::new();
    assert_eq!(placeholder_tone(&app), Tone::Dim);
    app.loading = true;
    assert_eq!(placeholder_tone(&app), Tone::Highlight);
}
