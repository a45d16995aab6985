//! Anime torrent search: the query, ranking and navigation logic of a
//! terminal front-end for Nyaa and SubsPlease.

pub mod text;
pub mod sources;
pub mod download;
pub mod app;
pub mod view;
