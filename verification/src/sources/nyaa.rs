//! Nyaa: the RSS search address, and the RSS feed read back into entries.

use vstd::prelude::*;
use vstd::string::*;
use vstd::utf8::*;
use crate::sources::{EntryView, TorrentEntry, entries_view};
use crate::text::{decimal, lemma_parse_decimal, parse_u32, parsed_u32, trim, trimmed};

verus! {

/// Bytes that stand for themselves in a query string: ASCII letters and
/// digits and `-`, `_`, `.`, `~`.
pub open spec fn is_unreserved(b: u8) -> bool {
    ||| 65 <= b <= 90
    ||| 97 <= b <= 122
    ||| 48 <= b <= 57
    ||| b == 45
    ||| b == 95
    ||| b == 46
    ||| b == 126
}

/// The upper-case hexadecimal digit for `n < 16`.
pub open spec fn hex_digit(n: int) -> char {
    if n < 10 {
        (n + 48) as char
    } else {
        (n + 55) as char
    }
}

/// One byte percent-encoded: itself if unreserved, else `%XX`.
pub open spec fn encoded_byte(b: u8) -> Seq<char> {
    if is_unreserved(b) {
        seq![b as char]
    } else {
        seq!['%', hex_digit(b as int / 16), hex_digit(b as int % 16)]
    }
}

/// Each byte of `bytes` percent-encoded, in order.
pub open spec fn percent_encoded(bytes: Seq<u8>) -> Seq<char>
    decreases bytes.len(),
{
    if bytes.len() == 0 {
        Seq::empty()
    } else {
        percent_encoded(bytes.drop_last()) + encoded_byte(bytes.last())
    }
}

/// The UTF-8 bytes of `s`, percent-encoded.
pub open spec fn url_encoded(s: Seq<char>) -> Seq<char> {
    percent_encoded(encode_utf8(s))
}

fn hex_upper(n: u8) -> (c: char)
    requires
        n < 16,
    ensures
        c == hex_digit(n as int),
{
    if n < 10 {
        (n + 48) as char
    } else {
        (n + 55) as char
    }
}

/// Percent-encodes the UTF-8 bytes of `s` for a query string.
pub fn urlencoding(s: &str) -> (r: String)
    ensures
        r@ == url_encoded(s@),
{
    let bytes = s.as_bytes();
    let mut encoded = String::new();
    let mut i: usize = 0;
    while i < bytes.len()
        invariant
            i <= bytes@.len(),
            bytes@ == encode_utf8(s@),
            encoded@ == percent_encoded(bytes@.take(i as int)),
        decreases bytes@.len() - i,
    {
        let byte = bytes[i];
        let ghost before = encoded@;
        if (65 <= byte && byte <= 90) || (97 <= byte && byte <= 122) || (48 <= byte && byte <= 57)
            || byte == 45 || byte == 95 || byte == 46 || byte == 126 {
            crate::text::push_char(&mut encoded, byte as char);
        } else if byte == 32 {
            encoded.append("%20");
            proof {
                reveal_strlit("%20");
                assert(hex_digit(2) == '2' && hex_digit(0) == '0');
            }
        } else {
            crate::text::push_char(&mut encoded, '%');
            crate::text::push_char(&mut encoded, hex_upper(byte / 16));
            crate::text::push_char(&mut encoded, hex_upper(byte % 16));
        }
        proof {
            let t = bytes@.take(i as int + 1);
            assert(t.drop_last() =~= bytes@.take(i as int));
            assert(t.last() == byte);
            assert(encoded@ =~= before + encoded_byte(byte));
        }
        i = i + 1;
    }
    assert(bytes@.take(bytes@.len() as int) =~= bytes@);
    encoded
}


/// The trackers that every magnet link names, in order.
pub open spec fn nyaa_trackers() -> Seq<Seq<char>> {
    seq![
        "http://nyaa.tracker.wf:7777/announce"@,
        "udp://open.stealth.si:80/announce"@,
        "udp://tracker.opentrackr.org:1337/announce"@,
        "udp://exodus.desync.com:6969/announce"@,
        "udp://tracker.torrent.eu.org:451/announce"@,
    ]
}

fn tracker(i: usize) -> (t: &'static str)
    requires
        i < 5,
    ensures
        t@ == nyaa_trackers()[i as int],
{
    if i == 0 {
        "http://nyaa.tracker.wf:7777/announce"
    } else if i == 1 {
        "udp://open.stealth.si:80/announce"
    } else if i == 2 {
        "udp://tracker.opentrackr.org:1337/announce"
    } else if i == 3 {
        "udp://exodus.desync.com:6969/announce"
    } else {
        "udp://tracker.torrent.eu.org:451/announce"
    }
}

/// `&tr=` and the encoded address, for each tracker in turn.
pub open spec fn tracker_params(trackers: Seq<Seq<char>>) -> Seq<char>
    decreases trackers.len(),
{
    if trackers.len() == 0 {
        Seq::empty()
    } else {
        tracker_params(trackers.drop_last()) + "&tr="@ + url_encoded(trackers.last())
    }
}

/// The magnet link for a torrent: its info hash, its encoded display name,
/// then the trackers.
pub open spec fn magnet_link(info_hash: Seq<char>, name: Seq<char>) -> Seq<char> {
    "magnet:?xt=urn:btih:"@ + info_hash + "&dn="@ + url_encoded(name) + tracker_params(nyaa_trackers())
}

/// A magnet link names the info hash as given, then the display name
/// percent-encoded (its `dn` value decodes to the name's UTF-8 bytes), then
/// the trackers.
pub proof fn lemma_magnet_link(info_hash: Seq<char>, name: Seq<char>)
    ensures
        ({
            let mg = magnet_link(info_hash, name);
            let p = "magnet:?xt=urn:btih:"@ + info_hash + "&dn="@;
            let m = url_encoded(name).len() as int;
            &&& mg.subrange(0, p.len() as int) == p
            &&& percent_decoded(mg.subrange(p.len() as int, p.len() + m)) == encode_utf8(name)
            &&& mg.subrange(p.len() + m, mg.len() as int) == tracker_params(nyaa_trackers())
        }),
{
    let mg = magnet_link(info_hash, name);
    let p = "magnet:?xt=urn:btih:"@ + info_hash + "&dn="@;
    let e = url_encoded(name);
    let m = e.len() as int;
    assert(mg =~= p + e + tracker_params(nyaa_trackers()));
    assert(mg.subrange(0, p.len() as int) =~= p);
    assert(mg.subrange(p.len() as int, p.len() + m) =~= e);
    assert(mg.subrange(p.len() + m, mg.len() as int) =~= tracker_params(nyaa_trackers()));
    lemma_url_encoded_decodes(name);
}

/// Builds the magnet link for `info_hash`, displayed as `name`.
pub fn build_magnet(info_hash: &str, name: &str) -> (r: String)
    ensures
        r@ == magnet_link(info_hash@, name@),
{
    let mut tr_params = String::new();
    let mut i: usize = 0;
    while i < 5
        invariant
            i <= 5,
            tr_params@ == tracker_params(nyaa_trackers().take(i as int)),
        decreases 5 - i,
    {
        let t = tracker(i);
        tr_params.append("&tr=");
        let enc = urlencoding(t);
        tr_params.append(enc.as_str());
        proof {
            let ts = nyaa_trackers().take(i as int + 1);
            assert(ts.drop_last() =~= nyaa_trackers().take(i as int));
        }
        i = i + 1;
    }
    assert(nyaa_trackers().take(5) =~= nyaa_trackers());
    let mut out = String::new();
    out.append("magnet:?xt=urn:btih:");
    out.append(info_hash);
    out.append("&dn=");
    let enc_name = urlencoding(name);
    out.append(enc_name.as_str());
    out.append(tr_params.as_str());
    out
}

/// Characters that `regex_lite::escape` puts a backslash before.
pub open spec fn is_regex_meta(c: char) -> bool {
    ||| c == '\\'
    ||| c == '.'
    ||| c == '+'
    ||| c == '*'
    ||| c == '?'
    ||| c == '('
    ||| c == ')'
    ||| c == '|'
    ||| c == '['
    ||| c == ']'
    ||| c == '{'
    ||| c == '}'
    ||| c == '^'
    ||| c == '$'
    ||| c == '#'
    ||| c == '&'
    ||| c == '-'
    ||| c == '~'
}

/// `s` with a backslash before each regex meta character.
pub open spec fn regex_escaped(s: Seq<char>) -> Seq<char>
    decreases s.len(),
{
    if s.len() == 0 {
        Seq::empty()
    } else {
        regex_escaped(s.drop_last()) + if is_regex_meta(s.last()) {
            seq!['\\', s.last()]
        } else {
            seq![s.last()]
        }
    }
}

/// `regex_lite::escape`: the source loops over the characters and pushes a
/// backslash before each meta character (`is_meta_character` in
/// `regex-lite/src/hir/mod.rs`), which is what `regex_escaped` states.
#[verifier::external_body]
fn regex_escape(s: &str) -> (r: String)
    ensures
        r@ == regex_escaped(s@),
{
    regex_lite::escape(s)
}

/// What `regex_lite` reports for `pattern` searched in `haystack`: `None`
/// where `Regex::new` rejects the pattern, else `Some` of the text of capture
/// group `group` in the first match, or `Some(None)` where nothing matches or
/// the group took no part.
pub uninterp spec fn regex_group_match(pattern: Seq<char>, haystack: Seq<char>, group: usize) -> Option<Option<Seq<char>>>;

/// The plain value of a doubly optional string.
pub open spec fn nested_view(r: Option<Option<String>>) -> Option<Option<Seq<char>>> {
    match r {
        None => None,
        Some(None) => Some(None),
        Some(Some(s)) => Some(Some(s@)),
    }
}

/// `regex_lite::Regex::new`, then `Regex::captures` on the haystack and
/// `Captures::get` of the group, the match's text copied out. The contract
/// names the result (`regex_group_match`) as a function of the pattern, the
/// haystack and the group; the matching itself is not stated. The calls
/// stand together because a compiled `Regex` is opaque: only the pattern
/// text, a plain value, lets the name tie the match to the pattern.
#[verifier::external_body]
fn regex_capture(pattern: &str, haystack: &str, group: usize) -> (r: Option<Option<String>>)
    ensures
        nested_view(r) == regex_group_match(pattern@, haystack@, group),
{
    let re = match regex_lite::Regex::new(pattern) {
        Ok(re) => re,
        Err(_) => return None,
    };
    let caps = match re.captures(haystack) {
        Some(caps) => caps,
        None => return Some(None),
    };
    match caps.get(group) {
        Some(m) => Some(Some(m.as_str().to_string())),
        None => Some(None),
    }
}

/// The pattern that finds the text of element `name`, with or without a
/// CDATA wrapper.
pub open spec fn tag_pattern(name: Seq<char>) -> Seq<char> {
    "<"@ + regex_escaped(name) + ">(?:<!\\[CDATA\\[)?(.*?)(?:\\]\\]>)?</"@ + regex_escaped(name) + ">"@
}

/// The trimmed text of a capture, or nothing.
pub open spec fn captured_text(cap: Option<Option<Seq<char>>>) -> Seq<char> {
    match cap {
        Some(Some(m)) => trimmed(m),
        _ => Seq::empty(),
    }
}

/// The text of the first element `name` in `html`, trimmed; empty where
/// there is none.
pub open spec fn tag_text(html: Seq<char>, name: Seq<char>) -> Seq<char> {
    captured_text(regex_group_match(tag_pattern(name), html, 1))
}

/// Reads what a pattern search reported: the capture trimmed, else empty.
pub fn capture_text(cap: Option<Option<String>>) -> (r: String)
    ensures
        r@ == captured_text(nested_view(cap)),
{
    match cap {
        Some(Some(m)) => trim(m.as_str()),
        _ => String::new(),
    }
}

/// The text of the first element `name` in `html`, trimmed.
pub fn tag(html: &str, name: &str) -> (r: String)
    ensures
        r@ == tag_text(html@, name@),
{
    let escaped = regex_escape(name);
    let mut pattern = String::new();
    pattern.append("<");
    pattern.append(escaped.as_str());
    pattern.append(">(?:<!\\[CDATA\\[)?(.*?)(?:\\]\\]>)?</");
    pattern.append(escaped.as_str());
    pattern.append(">");
    let cap = regex_capture(pattern.as_str(), html, 1);
    capture_text(cap)
}


/// A count as the feed writes it; zero where it does not parse.
pub open spec fn count_or_zero(s: Seq<char>) -> u32 {
    match parsed_u32(s) {
        Some(v) => v,
        None => 0,
    }
}

/// The entry that an item's element texts describe; none without a title
/// or an info hash.
pub open spec fn nyaa_entry(
    title: Seq<char>,
    info_hash: Seq<char>,
    seeders: Seq<char>,
    leechers: Seq<char>,
    size: Seq<char>,
) -> Option<EntryView> {
    if title.len() == 0 || info_hash.len() == 0 {
        None
    } else {
        Some(
            EntryView {
                title,
                magnet: magnet_link(info_hash, title),
                size,
                seeders: count_or_zero(seeders),
                leechers: count_or_zero(leechers),
                source: "Nyaa"@,
            },
        )
    }
}

/// An item with a title and an info hash gives an entry with that title and
/// size, listed from Nyaa, whose seeders and leechers are the counts the
/// feed wrote (zero only where the text is not a count); an item missing
/// either gives none.
pub proof fn lemma_entry_counts(
    title: Seq<char>,
    info_hash: Seq<char>,
    seeders: Seq<char>,
    leechers: Seq<char>,
    size: Seq<char>,
    s: u32,
    l: u32,
)
    ensures
        title.len() == 0 || info_hash.len() == 0 <==> nyaa_entry(title, info_hash, seeders, leechers, size) is None,
        title.len() > 0 && info_hash.len() > 0 ==> {
            let e = nyaa_entry(title, info_hash, seeders, leechers, size)->Some_0;
            &&& e.title == title
            &&& e.size == size
            &&& e.source == "Nyaa"@
            &&& parsed_u32(seeders) == Some(s) ==> e.seeders == s
            &&& parsed_u32(leechers) == Some(l) ==> e.leechers == l
            &&& parsed_u32(seeders) is None ==> e.seeders == 0
            &&& parsed_u32(leechers) is None ==> e.leechers == 0
        },
        title.len() > 0 && info_hash.len() > 0 ==> {
            let e = nyaa_entry(title, info_hash, decimal(s as nat), decimal(l as nat), size)->Some_0;
            e.seeders == s && e.leechers == l
        },
{
    lemma_parse_decimal(s);
    lemma_parse_decimal(l);
}

/// The entry that one `<item>` of the feed describes.
pub open spec fn item_entry(inner: Seq<char>) -> Option<EntryView> {
    nyaa_entry(
        tag_text(inner, "title"@),
        tag_text(inner, "nyaa:infohash"@),
        tag_text(inner, "nyaa:seeders"@),
        tag_text(inner, "nyaa:leechers"@),
        tag_text(inner, "nyaa:size"@),
    )
}

/// The entries of a feed's items, in order, leaving out incomplete ones.
pub open spec fn rss_entries(items: Seq<Seq<char>>) -> Seq<EntryView>
    decreases items.len(),
{
    if items.len() == 0 {
        Seq::empty()
    } else {
        let rest = rss_entries(items.drop_last());
        match item_entry(items.last()) {
            Some(e) => rest.push(e),
            None => rest,
        }
    }
}

/// A feed's entries are its items' entries in item order: each item gives
/// its own entry or none, whatever stands around it.
pub proof fn lemma_rss_entries_concat(a: Seq<Seq<char>>, b: Seq<Seq<char>>)
    ensures
        rss_entries(a + b) == rss_entries(a) + rss_entries(b),
    decreases b.len(),
{
    if b.len() == 0 {
        assert(a + b =~= a);
        assert(rss_entries(a) + rss_entries(b) =~= rss_entries(a));
    } else {
        lemma_rss_entries_concat(a, b.drop_last());
        assert((a + b).drop_last() =~= a + b.drop_last());
        assert((a + b).last() == b.last());
        match item_entry(b.last()) {
            Some(e) => {
                assert(rss_entries(a) + rss_entries(b.drop_last()).push(e) =~= (rss_entries(a) + rss_entries(b.drop_last())).push(e));
            },
            None => {},
        }
    }
}

/// A feed of one item gives that item's entry, or nothing.
pub proof fn lemma_rss_entries_single(x: Seq<char>)
    ensures
        rss_entries(seq![x]) == match item_entry(x) {
            Some(e) => seq![e],
            None => Seq::<EntryView>::empty(),
        },
{
    assert(seq![x].drop_last() =~= Seq::<Seq<char>>::empty());
    assert(seq![x].last() == x);
    assert(rss_entries(Seq::<Seq<char>>::empty()) =~= Seq::<EntryView>::empty());
    assert(Seq::<EntryView>::empty().push(item_entry(x)->Some_0) =~= seq![item_entry(x)->Some_0]);
}

/// The plain value of an optional entry.
pub open spec fn opt_entry_view(o: Option<TorrentEntry>) -> Option<EntryView> {
    match o {
        Some(e) => Some(e@),
        None => None,
    }
}

/// The plain values of a list of strings.
pub open spec fn strings_view(v: Seq<String>) -> Seq<Seq<char>> {
    v.map_values(|s: String| s@)
}

/// Builds the entry from an item's element texts.
pub fn entry_from_tags(title: String, info_hash: String, seeders: &str, leechers: &str, size: String) -> (r: Option<TorrentEntry>)
    ensures
        opt_entry_view(r) == nyaa_entry(title@, info_hash@, seeders@, leechers@, size@),
{
    let seeders = match parse_u32(seeders) {
        Some(v) => v,
        None => 0,
    };
    let leechers = match parse_u32(leechers) {
        Some(v) => v,
        None => 0,
    };
    if title.as_str().is_empty() || info_hash.as_str().is_empty() {
        return None;
    }
    let magnet = build_magnet(info_hash.as_str(), title.as_str());
    Some(TorrentEntry { title, magnet, size, seeders, leechers, source: "Nyaa" })
}

/// The entries of the feed's items (each given by its inner markup).
pub fn entries_from_items(items: &Vec<String>) -> (r: Vec<TorrentEntry>)
    ensures
        entries_view(r@) == rss_entries(strings_view(items@)),
{
    let ghost all = strings_view(items@);
    let mut entries: Vec<TorrentEntry> = Vec::new();
    let mut i: usize = 0;
    while i < items.len()
        invariant
            i <= items@.len(),
            all == strings_view(items@),
            entries_view(entries@) == rss_entries(all.take(i as int)),
        decreases items@.len() - i,
    {
        let inner = items[i].as_str();
        let title = tag(inner, "title");
        let info_hash = tag(inner, "nyaa:infohash");
        let seeders = tag(inner, "nyaa:seeders");
        let leechers = tag(inner, "nyaa:leechers");
        let size = tag(inner, "nyaa:size");
        let entry = entry_from_tags(title, info_hash, seeders.as_str(), leechers.as_str(), size);
        let ghost before = entries@;
        proof {
            let t = all.take(i as int + 1);
            assert(t.drop_last() =~= all.take(i as int));
            assert(t.last() == items@[i as int]@);
        }
        match entry {
            Some(e) => {
                entries.push(e);
                assert(entries_view(entries@) =~= entries_view(before).push(e@));
            },
            None => {},
        }
        i = i + 1;
    }
    assert(all.take(items@.len() as int) =~= all);
    entries
}

/// What `scraper` reports for `selector` in the HTML fragment `fragment`:
/// the inner HTML of each matching element in document order, or the
/// selector's parse error as text.
pub uninterp spec fn html_fragment_select(fragment: Seq<char>, selector: Seq<char>) -> Result<Seq<Seq<char>>, Seq<char>>;

/// `scraper::Html::parse_fragment` on the text, `scraper::Selector::parse`
/// on the selector (its error turned into text), then `Html::select` and
/// `ElementRef::inner_html` of each match. With scraper's `deterministic`
/// feature, which this crate turns on, attributes are kept in an
/// order-preserving map and written out in source order, so the output
/// depends on the two texts alone. The contract names the result
/// (`html_fragment_select`) as a function of the two texts; the HTML parsing
/// and selector matching themselves are not stated. The calls stand
/// together because a parsed `Html` and a `Selector` are opaque: only the
/// two texts, plain values, let the name tie the result to its input.
#[verifier::external_body]
fn select_inner_html(fragment: &str, selector: &str) -> (r: Result<Vec<String>, String>)
    ensures
        match r {
            Ok(v) => html_fragment_select(fragment@, selector@) == Ok::<Seq<Seq<char>>, Seq<char>>(strings_view(v@)),
            Err(e) => html_fragment_select(fragment@, selector@) == Err::<Seq<Seq<char>>, Seq<char>>(e@),
        },
{
    let document = scraper::Html::parse_fragment(fragment);
    let sel = match scraper::Selector::parse(selector) {
        Ok(sel) => sel,
        Err(e) => return Err(e.to_string()),
    };
    let mut out = Vec::new();
    for element in document.select(&sel) {
        out.push(element.inner_html());
    }
    Ok(out)
}

/// Reads a Nyaa RSS feed into entries, one per complete `<item>`.
pub fn parse_nyaa_rss(xml: &str) -> (r: Result<Vec<TorrentEntry>, String>)
    ensures
        match html_fragment_select(xml@, "item"@) {
            Ok(items) => r is Ok && entries_view(r->Ok_0@) == rss_entries(items),
            Err(e) => r is Err && r->Err_0@ == e,
        },
{
    let items = select_inner_html(xml, "item");
    match items {
        Ok(items) => Ok(entries_from_items(&items)),
        Err(e) => Err(e),
    }
}

/// The query that Nyaa is asked: with the Spanish filter on, the query
/// is widened to its Spanish-dub variants.
pub open spec fn full_query(query: Seq<char>, spanish: bool) -> Seq<char> {
    if spanish && query.len() > 0 {
        query + " latino OR "@ + query + " castellano OR "@ + query + " spanish OR "@ + query + " español"@
    } else {
        query
    }
}

/// The RSS search address for `query`; the Spanish filter also narrows the
/// category.
pub open spec fn rss_url(query: Seq<char>, spanish: bool) -> Seq<char> {
    "https://nyaa.si/?page=rss&q="@ + url_encoded(full_query(query, spanish)) + "&c="@ + (if spanish {
        "1_4"@
    } else {
        "0_0"@
    }) + "&f=0"@
}

/// With the Spanish filter off, or nothing typed, Nyaa is asked the query
/// as typed. With the filter on, the query is asked in full four times:
/// followed by ` latino OR `, ` castellano OR `, ` spanish OR ` and
/// ` español` in turn.
pub proof fn lemma_full_query(q: Seq<char>, spanish: bool)
    ensures
        !spanish || q.len() == 0 ==> full_query(q, spanish) == q,
        spanish && q.len() > 0 ==> {
            let f = full_query(q, true);
            let n = q.len() as int;
            &&& f.len() == 4 * n + 46
            &&& f.subrange(0, n) == q
            &&& f.subrange(n, n + 11) == " latino OR "@
            &&& f.subrange(n + 11, 2 * n + 11) == q
            &&& f.subrange(2 * n + 11, 2 * n + 26) == " castellano OR "@
            &&& f.subrange(2 * n + 26, 3 * n + 26) == q
            &&& f.subrange(3 * n + 26, 3 * n + 38) == " spanish OR "@
            &&& f.subrange(3 * n + 38, 4 * n + 38) == q
            &&& f.subrange(4 * n + 38, 4 * n + 46) == " español"@
        },
{
    if spanish && q.len() > 0 {
        reveal_strlit(" latino OR ");
        reveal_strlit(" castellano OR ");
        reveal_strlit(" spanish OR ");
        reveal_strlit(" español");
        let f = full_query(q, true);
        let n = q.len() as int;
        assert(f.subrange(0, n) =~= q);
        assert(f.subrange(n, n + 11) =~= " latino OR "@);
        assert(f.subrange(n + 11, 2 * n + 11) =~= q);
        assert(f.subrange(2 * n + 11, 2 * n + 26) =~= " castellano OR "@);
        assert(f.subrange(2 * n + 26, 3 * n + 26) =~= q);
        assert(f.subrange(3 * n + 26, 3 * n + 38) =~= " spanish OR "@);
        assert(f.subrange(3 * n + 38, 4 * n + 38) =~= q);
        assert(f.subrange(4 * n + 38, 4 * n + 46) =~= " español"@);
    }
}

/// The search address asks Nyaa's RSS search for the full query: its `q`
/// value percent-decodes to the query's UTF-8 bytes, and the category that
/// follows is `1_4` with the Spanish filter on, `0_0` without.
pub proof fn lemma_rss_url(q: Seq<char>, spanish: bool)
    ensures
        ({
            let u = rss_url(q, spanish);
            let p = "https://nyaa.si/?page=rss&q="@;
            let m = url_encoded(full_query(q, spanish)).len() as int;
            &&& u.subrange(0, p.len() as int) == p
            &&& percent_decoded(u.subrange(p.len() as int, p.len() + m)) == encode_utf8(full_query(q, spanish))
            &&& u.subrange(p.len() + m, u.len() as int) == "&c="@ + (if spanish {
                "1_4"@
            } else {
                "0_0"@
            }) + "&f=0"@
        }),
{
    let u = rss_url(q, spanish);
    let p = "https://nyaa.si/?page=rss&q="@;
    let e = url_encoded(full_query(q, spanish));
    let m = e.len() as int;
    let cat = if spanish {
        "1_4"@
    } else {
        "0_0"@
    };
    assert(u =~= p + e + ("&c="@ + cat + "&f=0"@));
    assert(u.subrange(0, p.len() as int) =~= p);
    assert(u.subrange(p.len() as int, p.len() + m) =~= e);
    assert(u.subrange(p.len() + m, u.len() as int) =~= "&c="@ + cat + "&f=0"@);
    lemma_url_encoded_decodes(full_query(q, spanish));
}

/// The RSS search address for `query`.
pub fn search_url(query: &str, spanish: bool) -> (r: String)
    ensures
        r@ == rss_url(query@, spanish),
{
    let mut full = String::new();
    if spanish && !query.is_empty() {
        full.append(query);
        full.append(" latino OR ");
        full.append(query);
        full.append(" castellano OR ");
        full.append(query);
        full.append(" spanish OR ");
        full.append(query);
        full.append(" español");
    } else {
        full.append(query);
    }
    let category = if spanish {
        "1_4"
    } else {
        "0_0"
    };
    let mut url = String::new();
    url.append("https://nyaa.si/?page=rss&q=");
    let enc = urlencoding(full.as_str());
    url.append(enc.as_str());
    url.append("&c=");
    url.append(category);
    url.append("&f=0");
    url
}


/// The value of a hexadecimal digit as `hex_digit` writes it.
pub open spec fn hex_value(c: char) -> int {
    if '0' <= c <= '9' {
        c as int - 48
    } else {
        c as int - 55
    }
}

/// Percent-decoding: each `%XY` is the byte `0xXY`, any other character
/// its own byte.
pub open spec fn percent_decoded(cs: Seq<char>) -> Seq<u8>
    decreases cs.len(),
{
    if cs.len() == 0 {
        Seq::empty()
    } else if cs[0] == '%' && cs.len() >= 3 {
        seq![(hex_value(cs[1]) * 16 + hex_value(cs[2])) as u8] + percent_decoded(cs.subrange(3, cs.len() as int))
    } else {
        seq![cs[0] as u8] + percent_decoded(cs.drop_first())
    }
}

proof fn lemma_percent_encoded_front(bytes: Seq<u8>)
    requires
        bytes.len() > 0,
    ensures
        percent_encoded(bytes) == encoded_byte(bytes[0]) + percent_encoded(bytes.drop_first()),
    decreases bytes.len(),
{
    if bytes.len() == 1 {
        assert(bytes.drop_last() =~= Seq::<u8>::empty());
        assert(bytes.drop_first() =~= Seq::<u8>::empty());
        assert(percent_encoded(bytes.drop_last()) =~= Seq::<char>::empty());
        assert(bytes.last() == bytes[0]);
        assert(percent_encoded(bytes) =~= encoded_byte(bytes[0]));
        assert(encoded_byte(bytes[0]) + Seq::<char>::empty() =~= encoded_byte(bytes[0]));
    } else {
        let d = bytes.drop_last();
        lemma_percent_encoded_front(d);
        assert(d.drop_first() =~= bytes.drop_first().drop_last());
        assert(bytes.drop_first().last() == bytes.last());
        assert(percent_encoded(bytes) =~= encoded_byte(bytes[0]) + percent_encoded(bytes.drop_first()));
    }
}

proof fn lemma_hex_round_trip(n: int)
    requires
        0 <= n < 16,
    ensures
        hex_value(hex_digit(n)) == n,
        hex_digit(n) != '%',
{
}

proof fn lemma_decode_encoded_byte(b: u8, rest: Seq<char>)
    ensures
        percent_decoded(encoded_byte(b) + rest) == seq![b] + percent_decoded(rest),
{
    let e = encoded_byte(b) + rest;
    if is_unreserved(b) {
        assert(e[0] == b as char);
        assert(e.drop_first() =~= rest);
        assert((b as char) as u8 == b);
    } else {
        lemma_hex_round_trip(b as int / 16);
        lemma_hex_round_trip(b as int % 16);
        assert(e[0] == '%');
        assert(e[1] == hex_digit(b as int / 16));
        assert(e[2] == hex_digit(b as int % 16));
        assert(e.subrange(3, e.len() as int) =~= rest);
        assert((b as int / 16) * 16 + b as int % 16 == b as int);
    }
}

proof fn lemma_percent_round_trip(bytes: Seq<u8>)
    ensures
        percent_decoded(percent_encoded(bytes)) == bytes,
    decreases bytes.len(),
{
    if bytes.len() > 0 {
        lemma_percent_encoded_front(bytes);
        lemma_percent_round_trip(bytes.drop_first());
        lemma_decode_encoded_byte(bytes[0], percent_encoded(bytes.drop_first()));
        assert(seq![bytes[0]] + bytes.drop_first() =~= bytes);
    }
}

/// Percent-decoding gives back the UTF-8 bytes that were encoded, and
/// decoding those gives back the text: the encoding loses nothing.
pub proof fn lemma_url_encoded_decodes(s: Seq<char>)
    ensures
        percent_decoded(url_encoded(s)) == encode_utf8(s),
        decode_utf8(percent_decoded(url_encoded(s))) == s,
{
    lemma_percent_round_trip(encode_utf8(s));
    encode_utf8_decode_utf8(s);
}

/// Different texts never encode alike.
pub proof fn lemma_url_encoded_injective(a: Seq<char>, b: Seq<char>)
    requires
        url_encoded(a) == url_encoded(b),
    ensures
        a == b,
{
    lemma_url_encoded_decodes(a);
    lemma_url_encoded_decodes(b);
}

/// Each byte becomes one to three characters; exactly one for every byte
/// only when all bytes are unreserved.
pub proof fn lemma_percent_encoded_len(bytes: Seq<u8>)
    ensures
        bytes.len() <= percent_encoded(bytes).len() <= 3 * bytes.len(),
        percent_encoded(bytes).len() == bytes.len() <==> forall|i: int| 0 <= i < bytes.len() ==> is_unreserved(#[trigger] bytes[i]),
    decreases bytes.len(),
{
    if bytes.len() > 0 {
        let d = bytes.drop_last();
        lemma_percent_encoded_len(d);
        if forall|i: int| 0 <= i < bytes.len() ==> is_unreserved(#[trigger] bytes[i]) {
            assert forall|i: int| 0 <= i < d.len() implies is_unreserved(#[trigger] d[i]) by {
                assert(d[i] == bytes[i]);
            }
            assert(is_unreserved(bytes[bytes.len() - 1]));
        }
        if forall|i: int| 0 <= i < d.len() ==> is_unreserved(#[trigger] d[i]) {
            if is_unreserved(bytes.last()) {
                assert forall|i: int| 0 <= i < bytes.len() implies is_unreserved(#[trigger] bytes[i]) by {
                    if i < d.len() {
                        assert(d[i] == bytes[i]);
                    }
                }
            }
        }
    }
}

/// Encoding leaves a text unchanged exactly when all its bytes are
/// unreserved (then every character is an unreserved ASCII character).
pub proof fn lemma_url_encoded_identity(s: Seq<char>)
    ensures
        url_encoded(s) == s <==> forall|i: int| 0 <= i < encode_utf8(s).len() ==> is_unreserved(#[trigger] encode_utf8(s)[i]),
{
    let bytes = encode_utf8(s);
    lemma_percent_encoded_len(bytes);
    lemma_encode_utf8_len(s);
    if forall|i: int| 0 <= i < bytes.len() ==> is_unreserved(#[trigger] bytes[i]) {
        lemma_encoded_unreserved_is_ascii(s);
    }
}

proof fn lemma_encode_utf8_len(s: Seq<char>)
    ensures
        encode_utf8(s).len() >= s.len(),
    decreases s.len(),
{
    if s.len() > 0 {
        encode_utf8_first_scalar(s);
        lemma_encode_utf8_len(s.drop_first());
    }
}

proof fn lemma_unreserved_encoded(bytes: Seq<u8>)
    requires
        forall|i: int| 0 <= i < bytes.len() ==> is_unreserved(#[trigger] bytes[i]),
    ensures
        percent_encoded(bytes) == bytes.map_values(|b: u8| b as char),
    decreases bytes.len(),
{
    if bytes.len() > 0 {
        let d = bytes.drop_last();
        assert forall|i: int| 0 <= i < d.len() implies is_unreserved(#[trigger] d[i]) by {
            assert(d[i] == bytes[i]);
        }
        lemma_unreserved_encoded(d);
        assert(is_unreserved(bytes[bytes.len() - 1]));
        assert(percent_encoded(bytes) =~= bytes.map_values(|b: u8| b as char));
    } else {
        assert(percent_encoded(bytes) =~= bytes.map_values(|b: u8| b as char));
    }
}

proof fn lemma_encoded_unreserved_is_ascii(s: Seq<char>)
    requires
        forall|i: int| 0 <= i < encode_utf8(s).len() ==> is_unreserved(#[trigger] encode_utf8(s)[i]),
    ensures
        url_encoded(s) == s,
    decreases s.len(),
{
    let bytes = encode_utf8(s);
    lemma_unreserved_encoded(bytes);
    if s.len() > 0 {
        encode_utf8_first_scalar(s);
        let rest = s.drop_first();
        let v = s[0] as u32;
        let first = encode_scalar(v);
        char_is_scalar(s[0]);
        assert(bytes =~= first + encode_utf8(rest));
        assert(is_unreserved(bytes[0]));
        assert forall|i: int| 0 <= i < encode_utf8(rest).len() implies is_unreserved(#[trigger] encode_utf8(rest)[i]) by {
            assert(encode_utf8(rest)[i] == bytes[i + first.len()]);
        }
        lemma_encoded_unreserved_is_ascii(rest);
        lemma_unreserved_encoded(encode_utf8(rest));
        assert(first.len() == 1);
        assert(has_width_1_encoding(v));
        assert(v & 0x7f == v) by (bit_vector)
            requires
                v <= 0x7f,
        ;
        assert(bytes[0] == v as u8);
        char_u32_cast(s[0], v);
        assert((bytes[0] as char) == s[0]);
        let f = |b: u8| b as char;
        assert(bytes.map_values(f) =~= seq![bytes[0] as char] + encode_utf8(rest).map_values(f));
        assert(url_encoded(s) =~= s);
    } else {
        assert(url_encoded(s) =~= s);
    }
}

/// The characters that percent-encoding can produce.
pub open spec fn is_url_safe(c: char) -> bool {
    ||| 'A' <= c <= 'Z'
    ||| 'a' <= c <= 'z'
    ||| '0' <= c <= '9'
    ||| c == '-'
    ||| c == '_'
    ||| c == '.'
    ||| c == '~'
    ||| c == '%'
}

/// Percent-encoding leaves nothing but unreserved characters, `%` and hex
/// digits, whatever the input.
pub proof fn lemma_url_encoded_is_url_safe(s: Seq<char>)
    ensures
        forall|i: int| 0 <= i < url_encoded(s).len() ==> is_url_safe(#[trigger] url_encoded(s)[i]),
{
    lemma_percent_encoded_safe(encode_utf8(s));
}

proof fn lemma_percent_encoded_safe(bytes: Seq<u8>)
    ensures
        forall|i: int| 0 <= i < percent_encoded(bytes).len() ==> is_url_safe(#[trigger] percent_encoded(bytes)[i]),
    decreases bytes.len(),
{
    if bytes.len() > 0 {
        let a = percent_encoded(bytes.drop_last());
        let b = encoded_byte(bytes.last());
        lemma_percent_encoded_safe(bytes.drop_last());
        let x = bytes.last();
        assert forall|i: int| 0 <= i < b.len() implies is_url_safe(#[trigger] b[i]) by {
            if !is_unreserved(x) && i > 0 {
                assert(0 <= x as int / 16 < 16);
                assert(0 <= x as int % 16 < 16);
            }
        }
        assert forall|i: int| 0 <= i < (a + b).len() implies is_url_safe(#[trigger] (a + b)[i]) by {
            if i < a.len() {
                assert((a + b)[i] == a[i]);
            } else {
                assert((a + b)[i] == b[i - a.len()]);
            }
        }
    }
}

} // verus!
