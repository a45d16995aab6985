//! The application state and every decision the interface makes on it: the
//! query being typed, the results and the selection, the status line, and
//! what a key press asks the outside world to do.

use vstd::prelude::*;
use vstd::string::*;
use crate::download::Download;
use crate::sources::TorrentEntry;
use crate::sources::ranking::{
    lemma_ranked_most_seeded_first, lemma_ranked_permutes, lemma_ranked_stable, most_seeded_first,
    rank_by_seeders, ranked, with_seeders,
};
use crate::text::{decimal, push_decimal, trim, trimmed};

verus! {

/// Whether keys edit the query or act on the results.
#[derive(Debug, Clone, Copy, PartialEq, Eq, Structural)]
pub enum InputMode {
    Normal,
    Searching,
}

/// How many result rows the window keeps in view while moving down.
pub const VISIBLE_ROWS: usize = 15;

#[verifier::external_type_specification]
#[verifier::external_body]
pub struct ExInstant(std::time::Instant);

/// `std::time::Instant::now`: the clock's current reading. Nothing is
/// stated of it; the library only records it.
#[verifier::external_body]
fn instant_now() -> std::time::Instant {
    std::time::Instant::now()
}

/// The whole state of the interface.
pub struct App {
    pub input_mode: InputMode,
    pub query: String,
    pub results: Vec<TorrentEntry>,
    pub selected: usize,
    pub status: String,
    pub loading: bool,
    pub scroll_offset: usize,
    pub spanish_filter: bool,
    pub last_search: Option<String>,
    pub last_search_time: std::time::Instant,
}

/// The state as plain values (the time of the last search left out).
pub struct AppView {
    pub input_mode: InputMode,
    pub query: Seq<char>,
    pub results: Seq<TorrentEntry>,
    pub selected: int,
    pub status: Seq<char>,
    pub loading: bool,
    pub scroll_offset: int,
    pub spanish_filter: bool,
    pub last_search: Option<Seq<char>>,
}

impl View for App {
    type V = AppView;

    open spec fn view(&self) -> AppView {
        AppView {
            input_mode: self.input_mode,
            query: self.query@,
            results: self.results@,
            selected: self.selected as int,
            status: self.status@,
            loading: self.loading,
            scroll_offset: self.scroll_offset as int,
            spanish_filter: self.spanish_filter,
            last_search: match self.last_search {
                Some(s) => Some(s@),
                None => None,
            },
        }
    }
}

/// The selection and the scrolled window fit the results: with no results
/// both are at the top; otherwise the selection is a result, and it lies in
/// the window of `VISIBLE_ROWS` rows that starts at the scroll offset.
pub open spec fn well_placed(len: int, selected: int, scroll_offset: int) -> bool {
    if len == 0 {
        selected == 0 && scroll_offset == 0
    } else {
        0 <= scroll_offset <= selected < len && selected < scroll_offset + VISIBLE_ROWS
    }
}

impl AppView {
    /// The state's invariant.
    pub open spec fn wf(self) -> bool {
        well_placed(self.results.len() as int, self.selected, self.scroll_offset)
    }
}

/// The selection and scroll offset after moving up.
pub open spec fn moved_up(len: int, selected: int, scroll_offset: int) -> (int, int) {
    if len == 0 {
        (selected, scroll_offset)
    } else {
        let s = if selected > 0 {
            selected - 1
        } else {
            selected
        };
        (s, if s < scroll_offset {
            s
        } else {
            scroll_offset
        })
    }
}

/// The selection and scroll offset after moving down.
pub open spec fn moved_down(len: int, selected: int, scroll_offset: int) -> (int, int) {
    if len == 0 {
        (selected, scroll_offset)
    } else {
        let s = if selected < len - 1 {
            selected + 1
        } else {
            selected
        };
        (s, if s >= scroll_offset + VISIBLE_ROWS {
            s - VISIBLE_ROWS + 1
        } else {
            scroll_offset
        })
    }
}

/// The status shown when the application starts.
pub open spec fn welcome_status() -> Seq<char> {
    "Type to search, Enter to search, 'd' download (aria2c), 's' Spanish, 'q' quit"@
}

/// The status after the Spanish filter is switched to `on`.
pub open spec fn spanish_status(on: bool) -> Seq<char> {
    if on {
        "Spanish filter ON — searching Latino/Castellano dubs"@
    } else {
        "Spanish filter OFF"@
    }
}

/// The status while a search for `query` runs.
pub open spec fn searching_status(query: Seq<char>) -> Seq<char> {
    "Searching for \""@ + query + "\"..."@
}

/// The status once a search has returned `n` results.
pub open spec fn found_status(n: nat) -> Seq<char> {
    if n == 0 {
        "No results found. Try a different search."@
    } else {
        "Found "@ + decimal(n) + " result(s). Use ↑/↓ to navigate, 'd' to download, Enter to search again"@
    }
}

/// The status after a download was handed over, or failed to be.
pub open spec fn download_status(title: Seq<char>, outcome: Result<Seq<char>, Seq<char>>) -> Seq<char> {
    match outcome {
        Ok(path) => "Downloading: "@ + title + " → "@ + path + "/"@,
        Err(e) => "Download failed: "@ + e,
    }
}

/// The entries a source returned, or none where it failed.
pub open spec fn entries_or_none(r: Result<Vec<TorrentEntry>, String>) -> Seq<TorrentEntry> {
    match r {
        Ok(v) => v@,
        Err(_) => Seq::empty(),
    }
}

/// The query after typing `c`.
pub open spec fn query_after_push(q: Seq<char>, c: char) -> Seq<char> {
    q.push(c)
}

/// The query after deleting its last character.
pub open spec fn query_after_pop(q: Seq<char>) -> Seq<char> {
    if q.len() == 0 {
        q
    } else {
        q.drop_last()
    }
}

/// What a download request carries: the magnet link and the title.
pub struct DownloadJob {
    pub magnet: String,
    pub title: String,
}


/// A key, as far as the interface tells keys apart.
#[derive(Debug, Clone, Copy, PartialEq, Eq, Structural)]
pub enum Key {
    Enter,
    Char(char),
    Backspace,
    Esc,
    Up,
    Down,
    Other,
}

/// What a key press asks of the outside world.
pub enum Action {
    /// Nothing beyond the change of state.
    Nothing,
    /// Leave the application.
    Quit,
    /// Search both sources for the query, then call `App::finish_search`.
    Search(String),
    /// Hand the magnet link to the downloader, then call
    /// `App::download_finished`.
    Download(DownloadJob),
    /// Put the magnet link on the clipboard.
    Copy(String),
}

/// An action as plain values.
pub enum ActionView {
    Nothing,
    Quit,
    Search(Seq<char>),
    Download(Seq<char>, Seq<char>),
    Copy(Seq<char>),
}

impl View for Action {
    type V = ActionView;

    open spec fn view(&self) -> ActionView {
        match self {
            Action::Nothing => ActionView::Nothing,
            Action::Quit => ActionView::Quit,
            Action::Search(q) => ActionView::Search(q@),
            Action::Download(job) => ActionView::Download(job.magnet@, job.title@),
            Action::Copy(m) => ActionView::Copy(m@),
        }
    }
}

/// Whether `v` has a selected result.
pub open spec fn has_selection(v: AppView) -> bool {
    0 <= v.selected < v.results.len()
}

/// Typing `c`.
pub open spec fn typed(v: AppView, c: char) -> AppView {
    AppView { query: query_after_push(v.query, c), ..v }
}

/// Deleting the last character of the query.
pub open spec fn erased(v: AppView) -> AppView {
    AppView { query: query_after_pop(v.query), ..v }
}

/// Moving the selection up.
pub open spec fn went_up(v: AppView) -> AppView {
    let (s, o) = moved_up(v.results.len() as int, v.selected, v.scroll_offset);
    AppView { selected: s, scroll_offset: o, ..v }
}

/// Moving the selection down.
pub open spec fn went_down(v: AppView) -> AppView {
    let (s, o) = moved_down(v.results.len() as int, v.selected, v.scroll_offset);
    AppView { selected: s, scroll_offset: o, ..v }
}

/// Switching the Spanish filter.
pub open spec fn toggled(v: AppView) -> AppView {
    AppView { spanish_filter: !v.spanish_filter, status: spanish_status(!v.spanish_filter), ..v }
}

/// Starting a search: nothing happens for a blank query; otherwise the
/// results are cleared, the selection goes to the top, and the trimmed
/// query is to be looked up.
pub open spec fn search_started(v: AppView) -> (AppView, Option<Seq<char>>) {
    let q = trimmed(v.query);
    if q.len() == 0 {
        (v, None)
    } else {
        (
            AppView {
                loading: true,
                results: Seq::empty(),
                selected: 0,
                scroll_offset: 0,
                status: searching_status(q),
                ..v
            },
            Some(q),
        )
    }
}

/// The state once a search for `query` returned: the two sources' entries
/// ranked together, and a status that counts them.
pub open spec fn search_finished(v: AppView, query: Seq<char>, nyaa: Seq<TorrentEntry>, subsplease: Seq<TorrentEntry>) -> AppView {
    let results = ranked(nyaa + subsplease);
    AppView {
        results,
        status: found_status(results.len()),
        loading: false,
        last_search: Some(query),
        ..v
    }
}

/// Asking for the selected result to be downloaded: its magnet link and
/// title, or a status saying that nothing is selected.
pub open spec fn download_requested(v: AppView) -> (AppView, Option<(Seq<char>, Seq<char>)>) {
    if has_selection(v) {
        (v, Some((v.results[v.selected].magnet@, v.results[v.selected].title@)))
    } else {
        (AppView { status: "No torrent selected"@, ..v }, None)
    }
}

/// Copying the selected result's magnet link, if there is a selection.
pub open spec fn copy_requested(v: AppView) -> (AppView, Option<Seq<char>>) {
    if has_selection(v) {
        (AppView { status: "Magnet link copied to clipboard"@, ..v }, Some(v.results[v.selected].magnet@))
    } else {
        (v, None)
    }
}

/// What a key press does to the state, and what it asks for.
pub open spec fn key_step(v: AppView, key: Key) -> (AppView, ActionView) {
    match v.input_mode {
        InputMode::Searching => match key {
            Key::Enter => {
                let (w, q) = search_started(AppView { input_mode: InputMode::Normal, ..v });
                (w, match q {
                    Some(q) => ActionView::Search(q),
                    None => ActionView::Nothing,
                })
            },
            Key::Char(c) => (typed(v, c), ActionView::Nothing),
            Key::Backspace => (erased(v), ActionView::Nothing),
            Key::Esc => (AppView { input_mode: InputMode::Normal, ..v }, ActionView::Nothing),
            _ => (v, ActionView::Nothing),
        },
        InputMode::Normal => {
            if key == Key::Char('q') || key == Key::Esc {
                (v, ActionView::Quit)
            } else if key == Key::Up || key == Key::Char('k') {
                (went_up(v), ActionView::Nothing)
            } else if key == Key::Down || key == Key::Char('j') {
                (went_down(v), ActionView::Nothing)
            } else if key == Key::Enter || key == Key::Char('/') {
                (AppView { input_mode: InputMode::Searching, ..v }, ActionView::Nothing)
            } else if key == Key::Char('d') {
                let (w, job) = download_requested(v);
                (w, match job {
                    Some((m, t)) => ActionView::Download(m, t),
                    None => ActionView::Nothing,
                })
            } else if key == Key::Char('c') {
                let (w, m) = copy_requested(v);
                (w, match m {
                    Some(m) => ActionView::Copy(m),
                    None => ActionView::Nothing,
                })
            } else if key == Key::Char('s') {
                (toggled(v), ActionView::Nothing)
            } else {
                (v, ActionView::Nothing)
            }
        },
    }
}

/// The plain value of an optional string.
pub open spec fn opt_string_view(o: Option<String>) -> Option<Seq<char>> {
    match o {
        Some(s) => Some(s@),
        None => None,
    }
}

/// Deleting a character undoes typing it.
pub proof fn lemma_erase_undoes_type(v: AppView, c: char)
    ensures
        erased(typed(v, c)) == v,
{
    assert(v.query.push(c).drop_last() =~= v.query);
}

/// Switching the Spanish filter twice restores it, and the status line
/// then describes the filter as it is.
pub proof fn lemma_toggle_twice(v: AppView)
    ensures
        toggled(toggled(v)) == (AppView { status: spanish_status(v.spanish_filter), ..v }),
{
}

/// Moving down and back up returns to the same result, unless the
/// selection was already the last.
pub proof fn lemma_down_then_up(v: AppView)
    requires
        v.wf(),
        v.selected + 1 < v.results.len(),
    ensures
        went_up(went_down(v)).selected == v.selected,
        went_up(went_down(v)).wf(),
{
}

/// Moving up and back down returns to the same result, unless the
/// selection was already the first.
pub proof fn lemma_up_then_down(v: AppView)
    requires
        v.wf(),
        v.selected > 0,
    ensures
        went_down(went_up(v)).selected == v.selected,
        went_down(went_up(v)).wf(),
{
}

/// A search that was started and then finished leaves the selection on a
/// result in view (or at the top when nothing was found); its results are
/// the two sources' entries, no more and no fewer, most seeded first, and
/// entries with equal seeders stay in the order the sources gave them
/// (Nyaa's before SubsPlease's).
pub proof fn lemma_search_round(v: AppView, nyaa: Seq<TorrentEntry>, subsplease: Seq<TorrentEntry>, seeders: u32)
    requires
        search_started(v).1 is Some,
    ensures
        ({
            let w = search_finished(search_started(v).0, search_started(v).1->Some_0, nyaa, subsplease);
            &&& w.wf()
            &&& most_seeded_first(w.results)
            &&& w.results.to_multiset() == (nyaa + subsplease).to_multiset()
            &&& w.results.filter(with_seeders(seeders)) == (nyaa + subsplease).filter(with_seeders(seeders))
        }),
{
    lemma_ranked_most_seeded_first(nyaa + subsplease);
    lemma_ranked_permutes(nyaa + subsplease);
    lemma_ranked_stable(nyaa + subsplease, seeders);
}

/// Every key keeps the selection placed: `key_step` preserves `wf`.
pub proof fn lemma_keys_keep_placement(v: AppView, key: Key)
    requires
        v.wf(),
    ensures
        key_step(v, key).0.wf(),
{
}

/// On the results, the keys act on the selected result: `c` copies its
/// magnet link, `d` asks to download it by its magnet link and title; with
/// nothing selected `c` does nothing and `d` only says so. The arrows move
/// the selection by one within the list, and `s` switches the Spanish filter.
pub proof fn lemma_result_keys(v: AppView)
    requires
        v.input_mode == InputMode::Normal,
    ensures
        0 <= v.selected < v.results.len() ==> {
            let (w, a) = key_step(v, Key::Char('c'));
            &&& a == ActionView::Copy(v.results[v.selected].magnet@)
            &&& w.status == "Magnet link copied to clipboard"@
            &&& w.results == v.results && w.selected == v.selected && w.query == v.query
        },
        !(0 <= v.selected < v.results.len()) ==> key_step(v, Key::Char('c')) == (v, ActionView::Nothing),
        0 <= v.selected < v.results.len() ==> key_step(v, Key::Char('d')) == (
            v,
            ActionView::Download(v.results[v.selected].magnet@, v.results[v.selected].title@),
        ),
        !(0 <= v.selected < v.results.len()) ==> key_step(v, Key::Char('d')).1 == ActionView::Nothing
            && key_step(v, Key::Char('d')).0.status == "No torrent selected"@,
        v.wf() && v.selected > 0 ==> key_step(v, Key::Up).0.selected == v.selected - 1
            && key_step(v, Key::Char('k')).0.selected == v.selected - 1,
        v.wf() && v.selected == 0 ==> key_step(v, Key::Up).0.selected == 0,
        v.wf() && v.selected + 1 < v.results.len() ==> key_step(v, Key::Down).0.selected == v.selected + 1
            && key_step(v, Key::Char('j')).0.selected == v.selected + 1,
        v.wf() && v.selected + 1 >= v.results.len() ==> key_step(v, Key::Down).0.selected == v.selected,
        key_step(v, Key::Char('s')).0.spanish_filter == !v.spanish_filter,
        key_step(v, Key::Enter).0.input_mode == InputMode::Searching
            && key_step(v, Key::Char('/')).0.input_mode == InputMode::Searching,
{
}

/// While typing, a character goes to the end of the query, Backspace takes
/// the last one off, and Enter leaves the search bar and looks up the
/// trimmed query unless it is blank.
pub proof fn lemma_typing_keys(v: AppView, c: char)
    requires
        v.input_mode == InputMode::Searching,
    ensures
        key_step(v, Key::Char(c)).0.query == v.query.push(c),
        key_step(v, Key::Char(c)).1 == ActionView::Nothing,
        v.query.len() > 0 ==> key_step(v, Key::Backspace).0.query == v.query.subrange(0, v.query.len() - 1),
        key_step(v, Key::Enter).0.input_mode == InputMode::Normal,
        trimmed(v.query).len() > 0 ==> key_step(v, Key::Enter).1 == ActionView::Search(trimmed(v.query))
            && key_step(v, Key::Enter).0.results.len() == 0 && key_step(v, Key::Enter).0.selected == 0,
        trimmed(v.query).len() == 0 ==> key_step(v, Key::Enter).1 == ActionView::Nothing,
{
    if v.query.len() > 0 {
        assert(v.query.drop_last() =~= v.query.subrange(0, v.query.len() - 1));
    }
}

/// The state after handling `keys` in turn, each as `key_step` says (the
/// outside work that the actions ask for left aside).
pub open spec fn after_keys(v: AppView, keys: Seq<Key>) -> AppView
    decreases keys.len(),
{
    if keys.len() == 0 {
        v
    } else {
        after_keys(key_step(v, keys[0]).0, keys.drop_first())
    }
}

/// Only `q` or Esc quits, and only outside the search bar; while typing,
/// `q` is typed into the query and Esc leaves the search bar.
pub proof fn lemma_quit_keys(v: AppView, key: Key)
    ensures
        key_step(v, key).1 is Quit <==> v.input_mode == InputMode::Normal && (key == Key::Char('q') || key == Key::Esc),
        v.input_mode == InputMode::Searching ==> key_step(v, Key::Char('q')) == (typed(v, 'q'), ActionView::Nothing),
        v.input_mode == InputMode::Searching ==> key_step(v, Key::Esc) == (AppView { input_mode: InputMode::Normal, ..v }, ActionView::Nothing),
{
}

/// Any sequence of keys keeps the selection placed.
pub proof fn lemma_key_sequence_keeps_placement(v: AppView, keys: Seq<Key>)
    requires
        v.wf(),
    ensures
        after_keys(v, keys).wf(),
    decreases keys.len(),
{
    if keys.len() > 0 {
        lemma_keys_keep_placement(v, keys[0]);
        lemma_key_sequence_keeps_placement(key_step(v, keys[0]).0, keys.drop_first());
    }
}

impl App {
    /// A fresh state: searching, with an empty query and no results.
    pub fn new() -> (app: App)
        ensures
            app@.input_mode == InputMode::Searching,
            app@.query.len() == 0,
            app@.results.len() == 0,
            app@.selected == 0,
            app@.scroll_offset == 0,
            app@.status == welcome_status(),
            !app@.loading,
            !app@.spanish_filter,
            app@.last_search is None,
            app@.wf(),
    {
        App {
            input_mode: InputMode::Searching,
            query: String::new(),
            results: Vec::new(),
            selected: 0,
            status: String::from_str(
                "Type to search, Enter to search, 'd' download (aria2c), 's' Spanish, 'q' quit",
            ),
            loading: false,
            scroll_offset: 0,
            spanish_filter: false,
            last_search: None,
            last_search_time: instant_now(),
        }
    }

    /// Types `c` at the end of the query.
    pub fn push_char(&mut self, c: char)
        ensures
            final(self)@ == (AppView { query: query_after_push(old(self)@.query, c), ..old(self)@ }),
    {
        crate::text::push_char(&mut self.query, c);
    }

    /// Deletes the last character of the query, if there is one.
    pub fn pop_char(&mut self)
        ensures
            final(self)@ == (AppView { query: query_after_pop(old(self)@.query), ..old(self)@ }),
    {
        let _ = crate::text::pop_char(&mut self.query);
    }

    /// Moves the selection up one result, scrolling to keep it in view.
    pub fn previous(&mut self)
        ensures
            ({
                let (s, o) = moved_up(old(self)@.results.len() as int, old(self)@.selected, old(self)@.scroll_offset);
                final(self)@ == (AppView { selected: s, scroll_offset: o, ..old(self)@ })
            }),
            old(self)@.wf() ==> final(self)@.wf(),
    {
        if !self.results.is_empty() {
            if self.selected > 0 {
                self.selected -= 1;
            }
            if self.selected < self.scroll_offset {
                self.scroll_offset = self.selected;
            }
        }
    }

    /// Moves the selection down one result, scrolling to keep it in view.
    pub fn next(&mut self)
        requires
            old(self).results.len() > 0 ==> old(self).scroll_offset + VISIBLE_ROWS <= usize::MAX,
        ensures
            ({
                let (s, o) = moved_down(old(self)@.results.len() as int, old(self)@.selected, old(self)@.scroll_offset);
                final(self)@ == (AppView { selected: s, scroll_offset: o, ..old(self)@ })
            }),
            old(self)@.wf() ==> final(self)@.wf(),
    {
        if !self.results.is_empty() {
            let max = self.results.len() - 1;
            if self.selected < max {
                self.selected += 1;
            }
            if self.selected >= self.scroll_offset + VISIBLE_ROWS {
                self.scroll_offset = self.selected - VISIBLE_ROWS + 1;
            }
        }
    }

    /// The magnet link of the selected result.
    pub fn get_selected_magnet(&self) -> (r: Option<String>)
        ensures
            match r {
                Some(m) => 0 <= self@.selected < self@.results.len() && m@ == self@.results[self@.selected].magnet@,
                None => !(0 <= self@.selected < self@.results.len()),
            },
    {
        if self.selected < self.results.len() {
            Some(self.results[self.selected].magnet.clone())
        } else {
            None
        }
    }

    /// Switches the Spanish-dub filter and says so in the status line.
    pub fn toggle_spanish(&mut self)
        ensures
            final(self)@ == (AppView {
                spanish_filter: !old(self)@.spanish_filter,
                status: spanish_status(!old(self)@.spanish_filter),
                ..old(self)@
            }),
    {
        self.spanish_filter = !self.spanish_filter;
        if self.spanish_filter {
            self.status = String::from_str("Spanish filter ON — searching Latino/Castellano dubs");
        } else {
            self.status = String::from_str("Spanish filter OFF");
        }
    }

    /// Starts a search for the trimmed query: clears the results, puts the
    /// selection at the top and returns the query to look up; a blank query
    /// starts nothing.
    pub fn search(&mut self) -> (r: Option<String>)
        ensures
            (final(self)@, opt_string_view(r)) == search_started(old(self)@),
    {
        let query = trim(self.query.as_str());
        if query.as_str().is_empty() {
            return None;
        }
        self.loading = true;
        self.results.clear();
        self.selected = 0;
        self.scroll_offset = 0;
        let mut status = String::from_str("Searching for \"");
        status.append(query.as_str());
        status.append("\"...");
        self.status = status;
        Some(query)
    }

    /// Takes in what the two sources returned for `query` (a failed source
    /// contributes nothing), ranks the entries by seeders and reports how
    /// many there are.
    pub fn finish_search(
        &mut self,
        query: String,
        nyaa: Result<Vec<TorrentEntry>, String>,
        subsplease: Result<Vec<TorrentEntry>, String>,
    )
        ensures
            final(self)@ == search_finished(old(self)@, query@, entries_or_none(nyaa), entries_or_none(subsplease)),
            old(self)@.selected == 0 && old(self)@.scroll_offset == 0 ==> final(self)@.wf(),
    {
        let ghost n = entries_or_none(nyaa);
        let ghost sp = entries_or_none(subsplease);
        let mut all: Vec<TorrentEntry> = Vec::new();
        match nyaa {
            Ok(mut entries) => all.append(&mut entries),
            Err(_) => {},
        }
        match subsplease {
            Ok(mut entries) => all.append(&mut entries),
            Err(_) => {},
        }
        assert(all@ =~= n + sp);
        self.results = rank_by_seeders(all);
        if self.results.is_empty() {
            self.status = String::from_str("No results found. Try a different search.");
        } else {
            let mut status = String::from_str("Found ");
            push_decimal(&mut status, self.results.len());
            status.append(" result(s). Use ↑/↓ to navigate, 'd' to download, Enter to search again");
            self.status = status;
        }
        self.loading = false;
        self.last_search = Some(query);
        self.last_search_time = instant_now();
    }

    /// Asks for the selected result to be downloaded: returns its magnet link
    /// and title, or says in the status line that nothing is selected.
    pub fn download_selected(&mut self) -> (r: Option<DownloadJob>)
        ensures
            ({
                let (w, job) = download_requested(old(self)@);
                &&& final(self)@ == w
                &&& match r {
                    Some(j) => job == Some((j.magnet@, j.title@)),
                    None => job is None,
                }
            }),
    {
        let magnet = match self.get_selected_magnet() {
            Some(m) => m,
            None => {
                self.status = String::from_str("No torrent selected");
                return None;
            },
        };
        let title = self.results[self.selected].title.clone();
        Some(DownloadJob { magnet, title })
    }

    /// Reports in the status line how handing `title` to the downloader went.
    pub fn download_finished(&mut self, title: &str, outcome: Result<Download, String>)
        ensures
            final(self)@ == (AppView {
                status: download_status(title@, match outcome {
                    Ok(d) => Ok(d.path@),
                    Err(e) => Err(e@),
                }),
                ..old(self)@
            }),
    {
        let mut status = String::new();
        match outcome {
            Ok(dl) => {
                status.append("Downloading: ");
                status.append(title);
                status.append(" → ");
                status.append(dl.path.as_str());
                status.append("/");
            },
            Err(e) => {
                status.append("Download failed: ");
                status.append(e.as_str());
            },
        }
        self.status = status;
    }

    /// Handles one key press: changes the state as the key means in the
    /// current mode, and returns what the outside world is to do.
    pub fn handle_key(&mut self, key: Key) -> (action: Action)
        requires
            old(self).input_mode == InputMode::Normal && (key == Key::Down || key == Key::Char('j'))
                && old(self).results.len() > 0 ==> old(self).scroll_offset + VISIBLE_ROWS <= usize::MAX,
        ensures
            (final(self)@, action@) == key_step(old(self)@, key),
            old(self)@.wf() ==> final(self)@.wf(),
    {
        match self.input_mode {
            InputMode::Searching => match key {
                Key::Enter => {
                    self.input_mode = InputMode::Normal;
                    match self.search() {
                        Some(q) => Action::Search(q),
                        None => Action::Nothing,
                    }
                },
                Key::Char(c) => {
                    self.push_char(c);
                    Action::Nothing
                },
                Key::Backspace => {
                    self.pop_char();
                    Action::Nothing
                },
                Key::Esc => {
                    self.input_mode = InputMode::Normal;
                    Action::Nothing
                },
                _ => Action::Nothing,
            },
            InputMode::Normal => {
                if key == Key::Char('q') || key == Key::Esc {
                    Action::Quit
                } else if key == Key::Up || key == Key::Char('k') {
                    self.previous();
                    Action::Nothing
                } else if key == Key::Down || key == Key::Char('j') {
                    self.next();
                    Action::Nothing
                } else if key == Key::Enter || key == Key::Char('/') {
                    self.input_mode = InputMode::Searching;
                    Action::Nothing
                } else if key == Key::Char('d') {
                    match self.download_selected() {
                        Some(job) => Action::Download(job),
                        None => Action::Nothing,
                    }
                } else if key == Key::Char('c') {
                    match self.get_selected_magnet() {
                        Some(magnet) => {
                            self.status = String::from_str("Magnet link copied to clipboard");
                            Action::Copy(magnet)
                        },
                        None => Action::Nothing,
                    }
                } else if key == Key::Char('s') {
                    self.toggle_spanish();
                    Action::Nothing
                } else {
                    Action::Nothing
                }
            },
        }
    }
}

} // verus!
