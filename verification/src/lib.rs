//! Reads the playlists that DJ software exports and brings them into one
//! form: the tracks in the order in which they were played, with the times
//! that the export gives.

pub mod cli;
pub mod display;
pub mod error;
pub mod fields;
pub mod formatted;
pub mod playlist;
pub mod rekordbox;
pub mod serato;
pub mod text;
pub mod time;
pub mod track;
pub mod types;
pub mod utils;
