//! Scoring of a multi-player darts match.
//!
//! Players take turns throwing; every counted throw brings a player closer to
//! a fixed points limit, a throw that would pass the limit is a bust and is
//! recorded without being counted, and the first player to reach the limit
//! exactly wins.
//!
//! [`game::Game`] is the match itself. What it does is stated over the
//! rules in [`rules`], and [`laws`] holds what follows from them for every
//! game. [`score_tracker`] and [`tally`] keep score in two simpler ways.
//! [`record`], [`details`] and [`input`] stand between the game and the
//! places where it is stored, shown and entered.

pub mod decimal;
pub mod details;
pub mod error;
pub mod game;
pub mod game_state;
pub mod history;
pub mod id;
pub mod input;
pub mod laws;
pub mod number;
pub mod player;
pub mod player_number;
pub mod player_score;
pub mod points;
pub mod points_limit;
pub mod positive_integer;
pub mod record;
pub mod round;
pub mod rules;
pub mod schedule;
pub mod score;
pub mod score_details;
pub mod score_tracker;
pub mod state;
pub mod tally;
pub mod timestamp;
