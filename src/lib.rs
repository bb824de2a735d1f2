//! Per-match kill statistics from a death-match server log.
pub mod text;
pub mod error;
pub mod means;
pub mod tally;
pub mod game_match;
pub mod game;
pub mod laws;
