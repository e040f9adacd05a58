//! Game engine of a team-competitive 2048 variant with seasonal leaderboards.

pub mod board;
pub mod digest;
pub mod error;
pub mod key;
pub mod leaderboard;
pub mod season;
pub mod session;
pub mod team;
pub mod winner;
