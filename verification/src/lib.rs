//! A chess rules and turn/selection engine.
//!
//! The crate models an interactive chess board stripped of all rendering:
//! pieces with colors, types, positions and an alive flag; a legality
//! predicate for each piece type over the current occupancy of the board;
//! and a state machine that turns "square clicked" events into selections,
//! committed moves, captures, turn changes and a game-over signal once a
//! king is taken.

pub mod board;
pub mod game;
pub mod moves;
pub mod pieces;
