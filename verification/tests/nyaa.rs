use anime_tui::sources::nyaa::{
    build_magnet, capture_text, entry_from_tags, parse_nyaa_rss, search_url, tag, urlencoding,
};

#[test]
fn test_parse_rss() {
    let rss = r#"<?xml version="1.0" encoding="UTF-8"?>
        <rss version="2.0">
          <channel>
            <item>
              <title>Death Note - Test</title>
              <nyaa:seeders>42</nyaa:seeders>
              <nyaa:leechers>7</nyaa:leechers>
              <nyaa:infoHash>abcdef1234567890abcdef1234567890abcdef12</nyaa:infoHash>
              <nyaa:size>1.2 GiB</nyaa:size>
            </item>
            <item>
              <title>Another Anime</title>
              <nyaa:seeders>10</nyaa:seeders>
              <nyaa:leechers>2</nyaa:leechers>
              <nyaa:infoHash>1234567890abcdef1234567890abcdef12345678</nyaa:infoHash>
              <nyaa:size>500 MiB</nyaa:size>
            </item>
          </channel>
        </rss>"#;

    let result = parse_nyaa_rss(rss).unwrap();
    assert_eq!(result.len(), 2);
    assert_eq!(result[0].title, "Death Note - Test");
    assert_eq!(result[0].seeders, 42);
    assert_eq!(result[0].leechers, 7);
    assert_eq!(result[0].size, "1.2 GiB");
    assert!(result[0]
        .magnet
        .starts_with("magnet:?xt=urn:btih:abcdef1234567890abcdef1234567890abcdef12"));
    assert_eq!(result[1].title, "Another Anime");
}

#[test]
fn test_parse_rss_with_special_chars() {
    let rss = r#"<?xml version="1.0" encoding="UTF-8"?>
        <rss version="2.0">
          <channel>
            <item>
              <title>Test [1080p] x265</title>
              <nyaa:seeders>5</nyaa:seeders>
              <nyaa:leechers>1</nyaa:leechers>
              <nyaa:infoHash>deadbeefdeadbeefdeadbeefdeadbeefdeadbeef</nyaa:infoHash>
              <nyaa:size>2.5 GiB</nyaa:size>
            </item>
          </channel>
        </rss>"#;

    let result = parse_nyaa_rss(rss).unwrap();
    assert_eq!(result.len(), 1);
    assert_eq!(result[0].title, "Test [1080p] x265");
}

#[test]
fn test_parse_rss_empty() {
    let rss = r#"<?xml version="1.0" encoding="UTF-8"?>
        <rss version="2.0">
          <channel>
          </channel>
        </rss>"#;

    let result = parse_nyaa_rss(rss).unwrap();
    assert_eq!(result.len(), 0);
}

#[test]
fn test_urlencoding() {
    assert_eq!(urlencoding("hello world"), "hello%20world");
    assert_eq!(urlencoding("abc123"), "abc123");
    assert_eq!(urlencoding("a b"), "a%20b");
}

#[test]
fn urlencoding_escapes_reserved_and_utf8_bytes() {
    assert_eq!(urlencoding("a&b=c/d"), "a%26b%3Dc%2Fd");
    assert_eq!(urlencoding("-_.~"), "-_.~");
    assert_eq!(urlencoding("español"), "espa%C3%B1ol");
    assert_eq!(urlencoding(""), "");
}

#[test]
fn build_magnet_exact() {
    let m = build_magnet("abc", "A B");
    assert_eq!(
        m,
        "magnet:?xt=urn:btih:abc&dn=A%20B\
         &tr=http%3A%2F%2Fnyaa.tracker.wf%3A7777%2Fannounce\
         &tr=udp%3A%2F%2Fopen.stealth.si%3A80%2Fannounce\
         &tr=udp%3A%2F%2Ftracker.opentrackr.org%3A1337%2Fannounce\
         &tr=udp%3A%2F%2Fexodus.desync.com%3A6969%2Fannounce\
         &tr=udp%3A%2F%2Ftracker.torrent.eu.org%3A451%2Fannounce"
    );
}

#[test]
fn tag_reads_plain_and_cdata_text() {
    assert_eq!(tag("<title>  Hello  </title>", "title"), "Hello");
    assert_eq!(tag("<title><![CDATA[Hi & bye]]></title>", "title"), "Hi & bye");
    assert_eq!(tag("<size>1 GiB</size>", "title"), "");
    assert_eq!(tag("<nyaa:seeders>3</nyaa:seeders>", "nyaa:seeders"), "3");
}

#[test]
fn capture_text_trims_or_gives_empty() {
    assert_eq!(capture_text(Some(Some("  x y \n".to_string()))), "x y");
    assert_eq!(capture_text(Some(None)), "");
    assert_eq!(capture_text(None), "");
}

#[test]
fn entry_from_tags_requires_title_and_hash() {
    let e = entry_from_tags("T".into(), "h".into(), "12", "oops", "1 MiB".into()).unwrap();
    assert_eq!(e.title, "T");
    assert_eq!(e.seeders, 12);
    assert_eq!(e.leechers, 0);
    assert_eq!(e.size, "1 MiB");
    assert_eq!(e.source, "Nyaa");
    assert_eq!(e.magnet, build_magnet("h", "T"));
    assert!(entry_from_tags("".into(), "h".into(), "1", "1", "".into()).is_none());
    assert!(entry_from_tags("T".into(), "".into(), "1", "1", "".into()).is_none());
    let plus = entry_from_tags("T".into(), "h".into(), "+7", "4294967296", "".into()).unwrap();
    assert_eq!(plus.seeders, 7);
    assert_eq!(plus.leechers, 0);
}

#[test]
fn search_url_plain_and_spanish() {
    assert_eq!(
        search_url("one piece", false),
        "https://nyaa.si/?page=rss&q=one%20piece&c=0_0&f=0"
    );
    assert_eq!(
        search_url("x", true),
        "https://nyaa.si/?page=rss&q=x%20latino%20OR%20x%20castellano%20OR%20x%20spanish%20OR%20x%20espa%C3%B1ol&c=1_4&f=0"
    );
    assert_eq!(search_url("", true), "https://nyaa.si/?page=rss&q=&c=1_4&f=0");
}

#[test]
fn tag_escapes_the_element_name() {
    assert_eq!(tag("<axb>wrong</axb><a.b>right</a.b>", "a.b"), "right");
}

#[test]
fn urlencoding_output_is_url_safe() {
    let out = urlencoding("Ça va? 100% [1080p] «ok» /\\ \u{1F600}");
    assert!(out
        .chars()
        .all(|c| c.is_ascii_alphanumeric() || "-_.~%".contains(c)));
}

#[test]
fn feed_keeps_attribute_order() {
    let rss = r#"<rss><channel><item>
        <title>T</title>
        <nyaa:infoHash>h</nyaa:infoHash>
        <nyaa:size><b y="2" x="1" z="3">S</b></nyaa:size>
        </item></channel></rss>"#;
    for _ in 0..5 {
        let result = parse_nyaa_rss(rss).unwrap();
        assert_eq!(result[0].size, r#"<b y="2" x="1" z="3">S</b>"#);
    }
}

fn percent_decode(s: &str) -> Vec<u8> {
    let b = s.as_bytes();
    let mut out = Vec::new();
    let mut i = 0;
    while i < b.len() {
        if b[i] == b'%' && i + 2 < b.len() {
            out.push(u8::from_str_radix(&s[i + 1..i + 3], 16).unwrap());
            i += 3;
        } else {
            out.push(b[i]);
            i += 1;
        }
    }
    out
}

#[test]
fn urlencoding_round_trips_and_bounds() {
    for s in ["", "abc", "a b&c", "español ☃", "100%", "~-_."] {
        let e = urlencoding(s);
        assert_eq!(percent_decode(&e), s.as_bytes());
        assert!(s.len() <= e.len() && e.len() <= 3 * s.len());
        let all_unreserved = s
            .bytes()
            .all(|b| b.is_ascii_alphanumeric() || b"-_.~".contains(&b));
        assert_eq!(e == s, all_unreserved);
    }
}
