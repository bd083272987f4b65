//! Verified core of the Kanae music player: the playback session and play
//! queue, the lyric cache and lyric panel, library grouping, ordering and
//! navigation, disc tables of contents and identifiers, and the text layout,
//! input handling and library view of the terminal frontend.

pub mod text;
pub mod paths;
pub mod file_player;
pub mod cd_reader;
pub mod lrclib;
pub mod musicbrainz;
pub mod library;
pub mod library_cache;
pub mod queue;
pub mod lyric_cache;
pub mod lyrics;
pub mod player;
pub mod library_controller;
pub mod romaji;
pub mod discord;
pub mod smtc;
pub mod tui;
pub mod tui_input;
pub mod tui_library;
