//! What the screen shows for a state: titles, colours, texts, which rows are
//! in view and how each is marked. Drawing itself is left to the terminal
//! front-end.

use vstd::prelude::*;
use vstd::string::*;
use vstd::utf8::*;
use crate::app::{App, InputMode};
use crate::sources::TorrentEntry;
use crate::text::{decimal, push_decimal};

verus! {

/// The colour of the search bar's border.
#[derive(Debug, Clone, Copy, PartialEq, Eq, Structural)]
pub enum BarColor {
    Yellow,
    Cyan,
    White,
}

/// How a result row is drawn.
#[derive(Debug, Clone, Copy, PartialEq, Eq, Structural)]
pub enum RowStyle {
    /// The selected row, highlighted.
    Selected,
    /// An even row, on a darker background.
    Shaded,
    /// An odd row, drawn plainly.
    Plain,
}

/// The search bar's title: a search running, the Spanish filter, or neither.
pub open spec fn search_title_of(loading: bool, spanish: bool) -> Seq<char> {
    if loading {
        " Searching... "@
    } else if spanish {
        " Search [Español ON] "@
    } else {
        " Search "@
    }
}

/// The search bar's title.
pub fn search_title(app: &App) -> (r: &'static str)
    ensures
        r@ == search_title_of(app.loading, app.spanish_filter),
{
    if app.loading {
        " Searching... "
    } else if app.spanish_filter {
        " Search [Español ON] "
    } else {
        " Search "
    }
}

/// The search bar's border: yellow with the Spanish filter on, else cyan
/// while typing, else white.
pub fn search_border(app: &App) -> (r: BarColor)
    ensures
        r == (if app.spanish_filter {
            BarColor::Yellow
        } else if app.input_mode == InputMode::Searching {
            BarColor::Cyan
        } else {
            BarColor::White
        }),
{
    if app.spanish_filter {
        BarColor::Yellow
    } else if app.input_mode == InputMode::Searching {
        BarColor::Cyan
    } else {
        BarColor::White
    }
}

/// The search bar's text: a hint while typing into an empty query,
/// otherwise the query.
pub open spec fn search_text_of(mode: InputMode, query: Seq<char>) -> Seq<char> {
    if mode == InputMode::Searching && query.len() == 0 {
        "Type anime name and press Enter..."@
    } else {
        query
    }
}

/// The search bar's text.
pub fn search_text(app: &App) -> (r: &str)
    ensures
        r@ == search_text_of(app.input_mode, app.query@),
{
    if app.input_mode == InputMode::Searching && app.query.as_str().is_empty() {
        "Type anime name and press Enter..."
    } else {
        app.query.as_str()
    }
}

/// Where the cursor stands in the search bar while typing: after the
/// query's bytes (truncated to a `u16`); no cursor otherwise.
pub fn cursor_column(app: &App) -> (r: Option<u16>)
    ensures
        r == (if app.input_mode == InputMode::Searching {
            Some(#[verifier::truncate] ((encode_utf8(app.query@).len() as usize) as u16))
        } else {
            None
        }),
{
    if app.input_mode == InputMode::Searching {
        let n = app.query.as_str().len();
        Some(#[verifier::truncate] (n as u16))
    } else {
        None
    }
}

/// How strongly the placeholder lines are drawn.
#[derive(Debug, Clone, Copy, PartialEq, Eq, Structural)]
pub enum Tone {
    /// Drawn to catch the eye, while a search runs.
    Highlight,
    /// Drawn dimmed.
    Dim,
}

/// The placeholder is highlighted while a search runs, dimmed otherwise.
pub fn placeholder_tone(app: &App) -> (r: Tone)
    ensures
        r == (if app.loading {
            Tone::Highlight
        } else {
            Tone::Dim
        }),
{
    if app.loading {
        Tone::Highlight
    } else {
        Tone::Dim
    }
}

/// The lines shown in place of an empty result list.
pub open spec fn placeholder_of(loading: bool) -> Seq<Seq<char>> {
    if loading {
        seq!["Searching..."@]
    } else {
        seq!["No results yet"@, "Type a query above and press Enter"@]
    }
}

/// The lines shown in place of an empty result list.
pub fn placeholder_lines(app: &App) -> (r: Vec<&'static str>)
    ensures
        r@.map_values(|s: &'static str| s@) == placeholder_of(app.loading),
{
    let mut lines: Vec<&'static str> = Vec::new();
    if app.loading {
        lines.push("Searching...");
    } else {
        lines.push("No results yet");
        lines.push("Type a query above and press Enter");
    }
    assert(lines@.map_values(|s: &'static str| s@) =~= placeholder_of(app.loading));
    lines
}

/// The rows in view in a panel `height` rows high (two go to its border):
/// from the scroll offset, as many as fit, within the results.
pub open spec fn visible_range_of(len: int, scroll_offset: int, height: int) -> (int, int) {
    let rows = if height >= 2 {
        height - 2
    } else {
        0
    };
    let start = if scroll_offset < len {
        scroll_offset
    } else {
        len
    };
    let end = if start + rows < len {
        start + rows
    } else {
        len
    };
    (start, end)
}

/// The rows in view lie within the results, start at the scroll offset
/// when it is within them, and are as many as the panel holds inside its
/// border or as many as remain.
pub proof fn lemma_visible_range(len: int, scroll_offset: int, height: int)
    requires
        0 <= len,
        0 <= scroll_offset,
        0 <= height,
    ensures
        ({
            let (start, end) = visible_range_of(len, scroll_offset, height);
            let rows = if height >= 2 {
                height - 2
            } else {
                0
            };
            &&& 0 <= start <= end <= len
            &&& scroll_offset < len ==> start == scroll_offset
            &&& end - start == if rows < len - start {
                rows
            } else {
                len - start
            }
        }),
{
}

/// The first row in view and the row after the last.
pub fn visible_range(app: &App, height: u16) -> (r: (usize, usize))
    ensures
        (r.0 as int, r.1 as int) == visible_range_of(app.results@.len() as int, app.scroll_offset as int, height as int),
{
    let rows = height.saturating_sub(2) as usize;
    let len = app.results.len();
    let start = if app.scroll_offset < len {
        app.scroll_offset
    } else {
        len
    };
    let end = if rows < len - start {
        start + rows
    } else {
        len
    };
    (start, end)
}

/// How row `idx` is drawn: the selection highlighted, then every other row
/// shaded.
pub fn row_style(app: &App, idx: usize) -> (r: RowStyle)
    ensures
        r == (if idx == app.selected {
            RowStyle::Selected
        } else if idx % 2 == 0 {
            RowStyle::Shaded
        } else {
            RowStyle::Plain
        }),
{
    if idx == app.selected {
        RowStyle::Selected
    } else if idx % 2 == 0 {
        RowStyle::Shaded
    } else {
        RowStyle::Plain
    }
}

/// The cells of a result row: title, size, seeders, leechers, source.
pub open spec fn row_cells_of(e: TorrentEntry) -> Seq<Seq<char>> {
    seq![e.title@, e.size@, decimal(e.seeders as nat), decimal(e.leechers as nat), e.source@]
}

/// The cells of a result row.
pub fn row_cells(e: &TorrentEntry) -> (r: Vec<String>)
    ensures
        r@.map_values(|s: String| s@) == row_cells_of(*e),
{
    let mut seeders = String::new();
    push_decimal(&mut seeders, e.seeders as usize);
    let mut leechers = String::new();
    push_decimal(&mut leechers, e.leechers as usize);
    let mut cells: Vec<String> = Vec::new();
    cells.push(e.title.clone());
    cells.push(String::from_str(e.fmt_size()));
    cells.push(seeders);
    cells.push(leechers);
    cells.push(String::from_str(e.fmt_source()));
    assert(cells@.map_values(|s: String| s@) =~= row_cells_of(*e));
    cells
}

/// The status bar: key help while typing, otherwise the status line.
pub open spec fn status_text_of(mode: InputMode, status: Seq<char>) -> Seq<char> {
    if mode == InputMode::Searching {
        "Type and press Enter to search | ↑↓ navigate | d download | c copy | s Spanish | q quit"@
    } else {
        status
    }
}

/// The status bar's text.
pub fn status_text(app: &App) -> (r: &str)
    ensures
        r@ == status_text_of(app.input_mode, app.status@),
{
    if app.input_mode == InputMode::Searching {
        "Type and press Enter to search | ↑↓ navigate | d download | c copy | s Spanish | q quit"
    } else {
        app.status.as_str()
    }
}

} // verus!
