//! SubsPlease: the search address, and the listing it answers read back into
//! entries.

use vstd::prelude::*;
use vstd::string::*;
use crate::sources::{EntryView, TorrentEntry, entries_view};
use crate::text::{is_white_space, trim, trimmed, white_space};

verus! {

/// One release file of a show's episode, as the listing gives it.
pub struct SpDownload {
    pub res: Option<String>,
    pub magnet: Option<String>,
}

/// One episode of the listing.
pub struct SpEntry {
    pub show: Option<String>,
    pub episode: Option<String>,
    pub downloads: Vec<SpDownload>,
}

/// The plain value of an optional string.
pub open spec fn opt_view(o: Option<String>) -> Option<Seq<char>> {
    match o {
        Some(s) => Some(s@),
        None => None,
    }
}

/// A release file as plain values.
pub struct DownloadView {
    pub res: Option<Seq<char>>,
    pub magnet: Option<Seq<char>>,
}

/// An episode as plain values.
pub struct EpisodeView {
    pub show: Option<Seq<char>>,
    pub episode: Option<Seq<char>>,
    pub downloads: Seq<DownloadView>,
}

impl View for SpDownload {
    type V = DownloadView;

    open spec fn view(&self) -> DownloadView {
        DownloadView { res: opt_view(self.res), magnet: opt_view(self.magnet) }
    }
}

impl View for SpEntry {
    type V = EpisodeView;

    open spec fn view(&self) -> EpisodeView {
        EpisodeView {
            show: opt_view(self.show),
            episode: opt_view(self.episode),
            downloads: self.downloads@.map_values(|d: SpDownload| d@),
        }
    }
}

/// The maximal runs of non-white-space characters of `s`, in order, as
/// `str::split_whitespace` yields them.
pub open spec fn words(s: Seq<char>) -> Seq<Seq<char>>
    decreases s.len(),
{
    if s.len() == 0 {
        Seq::empty()
    } else {
        let w = words(s.drop_last());
        let c = s.last();
        if is_white_space(c) {
            w
        } else if s.len() == 1 || is_white_space(s[s.len() - 2]) {
            w.push(seq![c])
        } else {
            w.update(w.len() - 1, w.last().push(c))
        }
    }
}

/// The parts of `parts` with `sep` between each two.
pub open spec fn joined(parts: Seq<Seq<char>>, sep: Seq<char>) -> Seq<char>
    decreases parts.len(),
{
    if parts.len() == 0 {
        Seq::empty()
    } else if parts.len() == 1 {
        parts[0]
    } else {
        joined(parts.drop_last(), sep) + sep + parts.last()
    }
}

/// The words of `s` joined by `%20`: how SubsPlease is asked for a query.
pub open spec fn words_joined(s: Seq<char>) -> Seq<char> {
    joined(words(s), "%20"@)
}

proof fn lemma_words_nonempty(s: Seq<char>)
    requires
        s.len() > 0,
        !is_white_space(s.last()),
    ensures
        words(s).len() > 0,
    decreases s.len(),
{
    if s.len() > 1 && !is_white_space(s[s.len() - 2]) {
        lemma_words_nonempty(s.drop_last());
    }
}

proof fn lemma_joined_push(w: Seq<Seq<char>>, x: Seq<char>, sep: Seq<char>)
    ensures
        joined(w.push(x), sep) == if w.len() == 0 {
            x
        } else {
            joined(w, sep) + sep + x
        },
{
    assert(w.push(x).drop_last() =~= w);
}

proof fn lemma_joined_extend_last(w: Seq<Seq<char>>, c: char, sep: Seq<char>)
    requires
        w.len() > 0,
    ensures
        joined(w.update(w.len() - 1, w.last().push(c)), sep) == joined(w, sep).push(c),
{
    let u = w.update(w.len() - 1, w.last().push(c));
    if w.len() == 1 {
        assert(u[0] == w[0].push(c));
    } else {
        assert(u.drop_last() =~= w.drop_last());
        assert(joined(u, sep) =~= joined(w, sep).push(c));
    }
}

/// Joins the white-space separated words of `s` with `%20`.
pub fn urlencoding(s: &str) -> (r: String)
    ensures
        r@ == words_joined(s@),
{
    let n = s.unicode_len();
    let mut out = String::new();
    let mut any = false;
    let mut pending = false;
    let mut i: usize = 0;
    while i < n
        invariant
            n == s@.len(),
            i <= n,
            out@ == words_joined(s@.take(i as int)),
            any == (words(s@.take(i as int)).len() > 0),
            pending == (any && i > 0 && is_white_space(s@[i - 1])),
            i > 0 && !is_white_space(s@[i - 1]) ==> any,
        decreases n - i,
    {
        let c = s.get_char(i);
        let ghost p = s@.take(i as int);
        let ghost q = s@.take(i as int + 1);
        proof {
            assert(q.drop_last() =~= p);
            assert(q.last() == c);
            if i > 0 {
                assert(q[q.len() - 2] == s@[i - 1]);
            }
        }
        if white_space(c) {
            if any {
                pending = true;
            }
        } else {
            if pending {
                out.append("%20");
                pending = false;
            }
            let ghost before = out@;
            crate::text::push_char(&mut out, c);
            proof {
                if i == 0 || is_white_space(s@[i - 1]) {
                    lemma_joined_push(words(p), seq![c], "%20"@);
                    assert(out@ =~= before + seq![c]);
                } else {
                    lemma_joined_extend_last(words(p), c, "%20"@);
                }
                lemma_words_nonempty(q);
            }
            any = true;
        }
        i = i + 1;
    }
    assert(s@.take(n as int) =~= s@);
    out
}


/// A word: at least one character, and no white space.
pub open spec fn is_word(w: Seq<char>) -> bool {
    w.len() > 0 && forall|j: int| 0 <= j < w.len() ==> !is_white_space(#[trigger] w[j])
}

/// Splitting yields words only.
pub proof fn lemma_words_are_words(s: Seq<char>)
    ensures
        forall|i: int| 0 <= i < words(s).len() ==> is_word(#[trigger] words(s)[i]),
    decreases s.len(),
{
    if s.len() > 0 {
        let w = words(s.drop_last());
        let c = s.last();
        lemma_words_are_words(s.drop_last());
        if !is_white_space(c) {
            if s.len() == 1 || is_white_space(s[s.len() - 2]) {
                assert forall|i: int| 0 <= i < words(s).len() implies is_word(#[trigger] words(s)[i]) by {
                    if i < w.len() {
                        assert(words(s)[i] == w[i]);
                    } else {
                        assert(words(s)[i] == seq![c]);
                    }
                }
            } else {
                lemma_words_nonempty(s.drop_last());
                let u = w.last().push(c);
                assert(is_word(w[w.len() - 1]));
                assert(is_word(u)) by {
                    assert forall|j: int| 0 <= j < u.len() implies !is_white_space(#[trigger] u[j]) by {
                        if j < w.last().len() {
                            assert(u[j] == w[w.len() - 1][j]);
                        }
                    }
                }
                assert forall|i: int| 0 <= i < words(s).len() implies is_word(#[trigger] words(s)[i]) by {
                    if i < w.len() - 1 {
                        assert(words(s)[i] == w[i]);
                    }
                }
            }
        }
    }
}


/// The characters that are not white space.
pub open spec fn not_white_space() -> spec_fn(char) -> bool {
    |c: char| !is_white_space(c)
}

/// A text of one or more characters none of which is white space is one
/// word; the empty text has none.
pub proof fn lemma_words_single(s: Seq<char>)
    ensures
        s.len() == 0 ==> words(s) == Seq::<Seq<char>>::empty(),
        s.len() > 0 && (forall|i: int| 0 <= i < s.len() ==> !is_white_space(#[trigger] s[i])) ==> words(s) == seq![s],
    decreases s.len(),
{
    if s.len() > 0 && (forall|i: int| 0 <= i < s.len() ==> !is_white_space(#[trigger] s[i])) {
        let p = s.drop_last();
        assert(!is_white_space(s[s.len() - 1]));
        if s.len() == 1 {
            assert(p =~= Seq::<char>::empty());
            assert(words(p) =~= Seq::<Seq<char>>::empty());
            assert(s.last() == s[0]);
            assert(words(s) =~= seq![seq![s[0]]]);
            assert(seq![s[0]] =~= s);
        } else {
            assert forall|i: int| 0 <= i < p.len() implies !is_white_space(#[trigger] p[i]) by {
                assert(p[i] == s[i]);
            }
            lemma_words_single(p);
            assert(!is_white_space(s[s.len() - 2]));
            assert(p.push(s.last()) =~= s);
            assert(words(s) =~= seq![s]);
        }
    }
}

/// White space splits: the words of `a`, a white-space character, then
/// `b` are the words of `a` followed by the words of `b`.
pub proof fn lemma_words_split(a: Seq<char>, x: char, b: Seq<char>)
    requires
        is_white_space(x),
    ensures
        words(a.push(x) + b) == words(a) + words(b),
    decreases b.len(),
{
    let ax = a.push(x);
    if b.len() == 0 {
        assert(ax + b =~= ax);
        assert(ax.drop_last() =~= a);
        assert(words(a) + words(b) =~= words(a));
    } else {
        let b1 = b.drop_last();
        let c = b.last();
        let s = ax + b;
        let s1 = ax + b1;
        lemma_words_split(a, x, b1);
        assert(s.drop_last() =~= s1);
        assert(s.last() == c);
        if !is_white_space(c) {
            if b1.len() == 0 {
                assert(s[s.len() - 2] == x);
                assert(words(s) == words(s1).push(seq![c]));
                assert(words(b) == words(b1).push(seq![c]));
                assert(words(s) =~= words(a) + words(b));
            } else {
                assert(s[s.len() - 2] == b1.last());
                assert(b[b.len() - 2] == b1.last());
                if is_white_space(b1.last()) {
                    assert(words(s) =~= words(a) + words(b));
                } else {
                    lemma_words_nonempty(b1);
                    let wa = words(a);
                    let wb = words(b1);
                    assert((wa + wb).update((wa + wb).len() - 1, (wa + wb).last().push(c)) =~= wa + wb.update(
                        wb.len() - 1,
                        wb.last().push(c),
                    ));
                }
            }
        }
    }
}

/// Joining two non-empty lists of parts puts one separator between them.
pub proof fn lemma_joined_concat(a: Seq<Seq<char>>, b: Seq<Seq<char>>, sep: Seq<char>)
    requires
        a.len() > 0,
        b.len() > 0,
    ensures
        joined(a + b, sep) == joined(a, sep) + sep + joined(b, sep),
    decreases b.len(),
{
    if b.len() == 1 {
        assert((a + b).drop_last() =~= a);
        assert((a + b).last() == b[0]);
    } else {
        lemma_joined_concat(a, b.drop_last(), sep);
        assert((a + b).drop_last() =~= a + b.drop_last());
        assert((a + b).last() == b.last());
        assert(joined(a + b, sep) =~= joined(a, sep) + sep + joined(b, sep));
    }
}

/// The SubsPlease query of a text is its one word where it has one, and
/// white space between two stretches of text becomes a single `%20`
/// (nothing where either side has no word).
pub proof fn lemma_words_joined_split(a: Seq<char>, x: char, b: Seq<char>)
    requires
        is_white_space(x),
    ensures
        words_joined(a.push(x) + b) == if words(a).len() == 0 {
            words_joined(b)
        } else if words(b).len() == 0 {
            words_joined(a)
        } else {
            words_joined(a) + "%20"@ + words_joined(b)
        },
        a.len() > 0 && (forall|i: int| 0 <= i < a.len() ==> !is_white_space(#[trigger] a[i])) ==> words_joined(a) == a,
{
    lemma_words_split(a, x, b);
    if words(a).len() == 0 {
        assert(words(a) + words(b) =~= words(b));
    } else if words(b).len() == 0 {
        assert(words(a) + words(b) =~= words(a));
    } else {
        lemma_joined_concat(words(a), words(b), "%20"@);
    }
    lemma_words_single(a);
}

/// Splitting keeps every character that is not white space, in order, and
/// nothing else: the words laid end to end are `s` with its white space
/// taken out.
pub proof fn lemma_words_cover(s: Seq<char>)
    ensures
        words(s).flatten() == s.filter(not_white_space()),
    decreases s.len(),
{
    reveal(Seq::filter);
    if s.len() == 0 {
        assert(s.filter(not_white_space()) =~= Seq::<char>::empty());
    } else {
        let p = s.drop_last();
        let c = s.last();
        let w = words(p);
        lemma_words_cover(p);
        assert(s.filter(not_white_space()) == if !is_white_space(c) {
            p.filter(not_white_space()).push(c)
        } else {
            p.filter(not_white_space())
        });
        if !is_white_space(c) {
            if s.len() == 1 || is_white_space(s[s.len() - 2]) {
                w.lemma_flatten_push(seq![c]);
                assert(w.flatten() + seq![c] =~= w.flatten().push(c));
            } else {
                assert(p.last() == s[s.len() - 2]);
                lemma_words_nonempty(p);
                let front = w.drop_last();
                let l = w.last();
                assert(front.push(l) =~= w);
                assert(w.update(w.len() - 1, l.push(c)) =~= front.push(l.push(c)));
                front.lemma_flatten_push(l);
                front.lemma_flatten_push(l.push(c));
                assert(front.flatten() + l.push(c) =~= (front.flatten() + l).push(c));
            }
        }
    }
}

proof fn lemma_joined_no_white_space(parts: Seq<Seq<char>>, sep: Seq<char>)
    requires
        forall|i: int| 0 <= i < parts.len() ==> is_word(#[trigger] parts[i]),
        forall|j: int| 0 <= j < sep.len() ==> !is_white_space(#[trigger] sep[j]),
    ensures
        forall|j: int| 0 <= j < joined(parts, sep).len() ==> !is_white_space(#[trigger] joined(parts, sep)[j]),
    decreases parts.len(),
{
    if parts.len() > 1 {
        let a = joined(parts.drop_last(), sep);
        assert forall|i: int| 0 <= i < parts.drop_last().len() implies is_word(#[trigger] parts.drop_last()[i]) by {
            assert(parts.drop_last()[i] == parts[i]);
        }
        lemma_joined_no_white_space(parts.drop_last(), sep);
        let l = parts.last();
        assert(is_word(parts[parts.len() - 1]));
        assert forall|j: int| 0 <= j < (a + sep + l).len() implies !is_white_space(#[trigger] (a + sep + l)[j]) by {
            if j < a.len() {
                assert((a + sep + l)[j] == a[j]);
            } else if j < a.len() + sep.len() {
                assert((a + sep + l)[j] == sep[j - a.len()]);
            } else {
                assert((a + sep + l)[j] == l[j - a.len() - sep.len()]);
            }
        }
    } else if parts.len() == 1 {
        assert(is_word(parts[0]));
    }
}

/// The SubsPlease query holds no white space, whatever was typed.
pub proof fn lemma_words_joined_has_no_white_space(s: Seq<char>)
    ensures
        forall|j: int| 0 <= j < words_joined(s).len() ==> !is_white_space(#[trigger] words_joined(s)[j]),
{
    lemma_words_are_words(s);
    reveal_strlit("%20");
    lemma_joined_no_white_space(words(s), "%20"@);
}

/// The SubsPlease search address for `query`.
pub open spec fn api_url(query: Seq<char>) -> Seq<char> {
    "https://subsplease.org/api/?f=search&s="@ + words_joined(query)
}

/// The SubsPlease search address for `query`.
pub fn search_url(query: &str) -> (r: String)
    ensures
        r@ == api_url(query@),
{
    let mut url = String::new();
    url.append("https://subsplease.org/api/?f=search&s=");
    let enc = urlencoding(query);
    url.append(enc.as_str());
    url
}


/// The first release file that carries a magnet link.
pub open spec fn first_with_magnet(ds: Seq<DownloadView>) -> Option<DownloadView>
    decreases ds.len(),
{
    if ds.len() == 0 {
        None
    } else if ds[0].magnet is Some {
        Some(ds[0])
    } else {
        first_with_magnet(ds.drop_first())
    }
}

/// The release file an episode is offered by: the first with a magnet
/// link, else the first of all.
pub open spec fn best_download(ds: Seq<DownloadView>) -> Option<DownloadView> {
    match first_with_magnet(ds) {
        Some(d) => Some(d),
        None => if ds.len() > 0 {
            Some(ds[0])
        } else {
            None
        },
    }
}


/// The release file chosen is the earliest one with a magnet link; where
/// none has one it is the first of all, and an episode without files has
/// none.
pub proof fn lemma_best_download(ds: Seq<DownloadView>, i: int)
    ensures
        0 <= i < ds.len() && ds[i].magnet is Some && (forall|j: int| 0 <= j < i ==> ds[j].magnet is None)
            ==> best_download(ds) == Some(ds[i]),
        ds.len() > 0 && (forall|j: int| 0 <= j < ds.len() ==> ds[j].magnet is None) ==> best_download(ds) == Some(ds[0]),
        ds.len() == 0 ==> best_download(ds) is None,
        best_download(ds) matches Some(d) ==> (exists|j: int| 0 <= j < ds.len() && ds[j] == d),
{
    lemma_first_with_magnet(ds, i);
}

proof fn lemma_first_with_magnet(ds: Seq<DownloadView>, i: int)
    ensures
        0 <= i < ds.len() && ds[i].magnet is Some && (forall|j: int| 0 <= j < i ==> ds[j].magnet is None)
            ==> first_with_magnet(ds) == Some(ds[i]),
        (forall|j: int| 0 <= j < ds.len() ==> ds[j].magnet is None) ==> first_with_magnet(ds) is None,
        first_with_magnet(ds) matches Some(d) ==> (exists|j: int| 0 <= j < ds.len() && ds[j] == d),
    decreases ds.len(),
{
    if ds.len() > 0 {
        let t = ds.drop_first();
        lemma_first_with_magnet(t, i - 1);
        if 0 < i < ds.len() && ds[i].magnet is Some && (forall|j: int| 0 <= j < i ==> ds[j].magnet is None) {
            assert(ds[0].magnet is None);
            assert(t[i - 1] == ds[i]);
            assert forall|j: int| 0 <= j < i - 1 implies t[j].magnet is None by {
                assert(t[j] == ds[j + 1]);
            }
        }
        if forall|j: int| 0 <= j < ds.len() ==> ds[j].magnet is None {
            assert(ds[0].magnet is None);
            assert forall|j: int| 0 <= j < t.len() implies t[j].magnet is None by {
                assert(t[j] == ds[j + 1]);
            }
        }
        if ds[0].magnet is None {
            if first_with_magnet(t) is Some {
                let d = first_with_magnet(t)->Some_0;
                let j = choose|j: int| 0 <= j < t.len() && t[j] == d;
                assert(ds[j + 1] == d);
            }
        }
    }
}

/// `o`'s text, or `default`.
pub open spec fn or_default(o: Option<Seq<char>>, default: Seq<char>) -> Seq<char> {
    match o {
        Some(s) => s,
        None => default,
    }
}

/// `show episode [resp]`, with `Unknown`, nothing and `?` in place of what
/// is missing.
pub open spec fn episode_title(show: Option<Seq<char>>, episode: Option<Seq<char>>, res: Option<Seq<char>>) -> Seq<char> {
    or_default(show, "Unknown"@) + " "@ + or_default(episode, ""@) + " ["@ + or_default(res, "?"@) + "p]"@
}

/// The entry an episode gives, if its chosen release file has a magnet link.
pub open spec fn episode_entry(e: EpisodeView) -> Option<EntryView> {
    match best_download(e.downloads) {
        Some(d) => match d.magnet {
            Some(m) => Some(
                EntryView {
                    title: episode_title(e.show, e.episode, d.res),
                    magnet: m,
                    size: Seq::empty(),
                    seeders: 0,
                    leechers: 0,
                    source: "SubsPlease"@,
                },
            ),
            None => None,
        },
        None => None,
    }
}

/// The entries of a listing, in order; an episode that could not be read
/// (`None`) or has no magnet link gives none.
pub open spec fn listing_entries_of(listing: Seq<Option<EpisodeView>>) -> Seq<EntryView>
    decreases listing.len(),
{
    if listing.len() == 0 {
        Seq::empty()
    } else {
        let rest = listing_entries_of(listing.drop_last());
        match listing.last() {
            Some(e) => match episode_entry(e) {
                Some(x) => rest.push(x),
                None => rest,
            },
            None => rest,
        }
    }
}

/// A listing's entries are its episodes' entries in order: each episode
/// gives its own entry or none, whatever stands around it.
pub proof fn lemma_listing_entries_concat(a: Seq<Option<EpisodeView>>, b: Seq<Option<EpisodeView>>)
    ensures
        listing_entries_of(a + b) == listing_entries_of(a) + listing_entries_of(b),
    decreases b.len(),
{
    if b.len() == 0 {
        assert(a + b =~= a);
        assert(listing_entries_of(a) + listing_entries_of(b) =~= listing_entries_of(a));
    } else {
        lemma_listing_entries_concat(a, b.drop_last());
        assert((a + b).drop_last() =~= a + b.drop_last());
        assert((a + b).last() == b.last());
        let r = listing_entries_of(a) + listing_entries_of(b.drop_last());
        assert forall|x: EntryView| #![auto] (listing_entries_of(a) + listing_entries_of(b.drop_last()).push(x)) == r.push(x) by {
            assert(listing_entries_of(a) + listing_entries_of(b.drop_last()).push(x) =~= r.push(x));
        }
    }
}

/// One episode gives an entry exactly when one of its release files has a
/// magnet link; the entry then carries the earliest such file's magnet link,
/// its resolution in the title, no size or counts, and SubsPlease as source.
pub proof fn lemma_episode_entry(e: EpisodeView, i: int)
    requires
        0 <= i < e.downloads.len(),
        e.downloads[i].magnet is Some,
        forall|j: int| 0 <= j < i ==> e.downloads[j].magnet is None,
    ensures
        episode_entry(e) == Some(
            EntryView {
                title: episode_title(e.show, e.episode, e.downloads[i].res),
                magnet: e.downloads[i].magnet->Some_0,
                size: Seq::empty(),
                seeders: 0,
                leechers: 0,
                source: "SubsPlease"@,
            },
        ),
{
    lemma_best_download(e.downloads, i);
}

/// An episode none of whose release files has a magnet link gives no entry.
pub proof fn lemma_episode_without_magnet(e: EpisodeView)
    requires
        forall|j: int| 0 <= j < e.downloads.len() ==> e.downloads[j].magnet is None,
    ensures
        episode_entry(e) is None,
{
    lemma_best_download(e.downloads, 0);
}

/// The plain value of a listing.
pub open spec fn listing_view(listing: Seq<Option<SpEntry>>) -> Seq<Option<EpisodeView>> {
    listing.map_values(
        |o: Option<SpEntry>|
            match o {
                Some(e) => Some(e@),
                None => None,
            },
    )
}

fn push_or(out: &mut String, o: &Option<String>, default: &str)
    ensures
        final(out)@ == old(out)@ + or_default(opt_view(*o), default@),
{
    match o {
        Some(s) => out.append(s.as_str()),
        None => out.append(default),
    }
}

/// The index of the release file an episode is offered by.
fn best_index(ds: &Vec<SpDownload>) -> (r: Option<usize>)
    ensures
        match r {
            Some(i) => i < ds@.len() && best_download(ds@.map_values(|d: SpDownload| d@)) == Some(ds@[i as int]@),
            None => best_download(ds@.map_values(|d: SpDownload| d@)) is None,
        },
{
    let ghost dv = ds@.map_values(|d: SpDownload| d@);
    let mut i: usize = 0;
    assert(dv.skip(0) =~= dv);
    while i < ds.len()
        invariant
            i <= ds@.len(),
            dv == ds@.map_values(|d: SpDownload| d@),
            first_with_magnet(dv) == first_with_magnet(dv.skip(i as int)),
        decreases ds@.len() - i,
    {
        proof {
            let t = dv.skip(i as int);
            assert(t[0] == ds@[i as int]@);
            assert(t.drop_first() =~= dv.skip(i as int + 1));
        }
        if ds[i].magnet.is_some() {
            return Some(i);
        }
        i = i + 1;
    }
    assert(dv.skip(i as int).len() == 0);
    if ds.len() > 0 {
        Some(0)
    } else {
        None
    }
}

/// The entry an episode gives, if its chosen release file has a magnet link.
pub fn entry_for_episode(e: &SpEntry) -> (r: Option<TorrentEntry>)
    ensures
        match r {
            Some(x) => episode_entry(e@) == Some(x@),
            None => episode_entry(e@) is None,
        },
{
    let best = best_index(&e.downloads);
    match best {
        None => None,
        Some(i) => {
            let dl = &e.downloads[i];
            match &dl.magnet {
                None => None,
                Some(magnet) => {
                    let mut title = String::new();
                    push_or(&mut title, &e.show, "Unknown");
                    title.append(" ");
                    push_or(&mut title, &e.episode, "");
                    title.append(" [");
                    push_or(&mut title, &dl.res, "?");
                    title.append("p]");
                    Some(
                        TorrentEntry {
                            title,
                            magnet: magnet.clone(),
                            size: String::new(),
                            seeders: 0,
                            leechers: 0,
                            source: "SubsPlease",
                        },
                    )
                },
            }
        },
    }
}

/// The entries of a listing (each episode given as read, or `None` where it
/// could not be read), in order.
pub fn listing_entries(listing: &Vec<Option<SpEntry>>) -> (r: Vec<TorrentEntry>)
    ensures
        entries_view(r@) == listing_entries_of(listing_view(listing@)),
{
    let ghost all = listing_view(listing@);
    let mut entries: Vec<TorrentEntry> = Vec::new();
    let mut i: usize = 0;
    while i < listing.len()
        invariant
            i <= listing@.len(),
            all == listing_view(listing@),
            entries_view(entries@) == listing_entries_of(all.take(i as int)),
        decreases listing@.len() - i,
    {
        proof {
            let t = all.take(i as int + 1);
            assert(t.drop_last() =~= all.take(i as int));
        }
        let ghost before = entries@;
        match &listing[i] {
            Some(e) => {
                match entry_for_episode(e) {
                    Some(x) => {
                        entries.push(x);
                        assert(entries_view(entries@) =~= entries_view(before).push(x@));
                    },
                    None => {},
                }
            },
            None => {},
        }
        i = i + 1;
    }
    assert(all.take(listing@.len() as int) =~= all);
    entries
}

/// A reply is read as a listing only when it succeeded and its body holds
/// more than white space.
pub fn is_listing(success: bool, body: &str) -> (b: bool)
    ensures
        b == (success && trimmed(body@).len() > 0),
{
    if !success {
        return false;
    }
    let t = trim(body);
    !t.as_str().is_empty()
}

} // verus!
