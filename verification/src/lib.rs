//! Geometry and move rules of a chess board, with the selection logic of a
//! point-and-click front end.
//!
//! * [`board`]: squares and the relations between them.
//! * [`pieces`]: pieces, occupancy, and the legality of a single move.
//! * [`selection`]: what a click on the board selects, moves and captures.

pub mod board;
pub mod pieces;
pub mod selection;
