# anime_tui

The logic of a terminal anime-torrent finder, verified with Verus: what is
asked of Nyaa (RSS) and SubsPlease (JSON API), how their answers become
torrent entries, how results from both are ranked, and every decision the
interface takes on a key press.

- `src/text.rs` — white space, trimming, decimal numbers.
- `src/sources/` — torrent entries; Nyaa search addresses, magnet links and
  feed reading; SubsPlease search addresses and listings; ranking by seeders.
- `src/app.rs` — the application state, its invariant, and key handling.
- `src/view.rs` — what the screen shows for a state.
- `src/download.rs` — the download directory and the downloader's arguments.
- `app/` — the terminal program: network requests, JSON decoding, starting
  `aria2c`, the clipboard, and drawing.
