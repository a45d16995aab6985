use anime_tui::sources::subsplease::{
    entry_for_episode, is_listing, listing_entries, search_url, urlencoding, SpDownload, SpEntry,
};

fn dl(res: Option<&str>, magnet: Option<&str>) -> SpDownload {
    SpDownload { res: res.map(|s| s.to_string()), magnet: magnet.map(|s| s.to_string()) }
}

#[test]
fn subsplease_urlencoding_joins_words() {
    assert_eq!(urlencoding("  one   piece \t"), "one%20piece");
    assert_eq!(urlencoding("naruto"), "naruto");
    assert_eq!(urlencoding("   "), "");
    assert_eq!(urlencoding(""), "");
}

#[test]
fn subsplease_search_url() {
    assert_eq!(search_url("one piece"), "https://subsplease.org/api/?f=search&s=one%20piece");
}

#[test]
fn listing_needs_success_and_a_body() {
    assert!(is_listing(true, "{}"));
    assert!(!is_listing(false, "{}"));
    assert!(!is_listing(true, "  \n "));
}

#[test]
fn episode_prefers_a_download_with_magnet() {
    let e = SpEntry {
        show: Some("Show".into()),
        episode: Some("05".into()),
        downloads: vec![dl(Some("480"), None), dl(Some("1080"), Some("magnet:?a"))],
    };
    let x = entry_for_episode(&e).unwrap();
    assert_eq!(x.title, "Show 05 [1080p]");
    assert_eq!(x.magnet, "magnet:?a");
    assert_eq!(x.size, "");
    assert_eq!(x.seeders, 0);
    assert_eq!(x.source, "SubsPlease");
}

#[test]
fn episode_defaults_and_missing_magnet() {
    let e = SpEntry { show: None, episode: None, downloads: vec![dl(None, Some("m"))] };
    assert_eq!(entry_for_episode(&e).unwrap().title, "Unknown  [?p]");
    let none = SpEntry { show: None, episode: None, downloads: vec![dl(Some("720"), None)] };
    assert!(entry_for_episode(&none).is_none());
    let empty = SpEntry { show: None, episode: None, downloads: vec![] };
    assert!(entry_for_episode(&empty).is_none());
}

#[test]
fn listing_entries_skips_unreadable() {
    let listing = vec![
        Some(SpEntry { show: Some("A".into()), episode: Some("1".into()), downloads: vec![dl(Some("720"), Some("m1"))] }),
        None,
        Some(SpEntry { show: Some("B".into()), episode: Some("2".into()), downloads: vec![] }),
        Some(SpEntry { show: Some("C".into()), episode: Some("3".into()), downloads: vec![dl(Some("1080"), Some("m3"))] }),
    ];
    let out = listing_entries(&listing);
    assert_eq!(out.len(), 2);
    assert_eq!(out[0].title, "A 1 [720p]");
    assert_eq!(out[1].magnet, "m3");
}

#[test]
fn subsplease_words_keep_all_non_space_characters() {
    let s = " a\u{3000}bc \t d ";
    let joined = urlencoding(s);
    assert_eq!(joined.replace("%20", ""), s.chars().filter(|c| !c.is_whitespace()).collect::<String>());
    assert!(!joined.chars().any(|c| c.is_whitespace()));
}
