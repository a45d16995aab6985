//! Torrent listings as the two sources report them, and their ranking.

pub mod nyaa;
pub mod ranking;
pub mod subsplease;

use vstd::prelude::*;

verus! {

/// One downloadable release, from either source.
#[derive(Debug, Clone)]
pub struct TorrentEntry {
    pub title: String,
    pub magnet: String,
    pub size: String,
    pub seeders: u32,
    pub leechers: u32,
    pub source: &'static str,
}

/// A torrent entry as plain values.
pub struct EntryView {
    pub title: Seq<char>,
    pub magnet: Seq<char>,
    pub size: Seq<char>,
    pub seeders: u32,
    pub leechers: u32,
    pub source: Seq<char>,
}

impl View for TorrentEntry {
    type V = EntryView;

    open spec fn view(&self) -> EntryView {
        EntryView {
            title: self.title@,
            magnet: self.magnet@,
            size: self.size@,
            seeders: self.seeders,
            leechers: self.leechers,
            source: self.source@,
        }
    }
}

/// The plain values of a list of entries.
pub open spec fn entries_view(v: Seq<TorrentEntry>) -> Seq<EntryView> {
    v.map_values(|e: TorrentEntry| e@)
}

impl TorrentEntry {
    /// The size as the source wrote it (SubsPlease gives none).
    pub fn fmt_size(&self) -> (r: &str)
        ensures
            r@ == self.size@,
    {
        self.size.as_str()
    }

    /// The name of the source that listed the entry.
    pub fn fmt_source(&self) -> (r: &str)
        ensures
            r@ == self.source@,
    {
        self.source
    }
}

} // verus!
