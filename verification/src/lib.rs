//! Rules engine for a fractally nested ("ultimate") tic-tac-toe game.
//!
//! A board is either a resolved cell or a 3x3 grid of sub-boards, nested to a
//! fixed depth chosen at game start.  The crate provides board construction,
//! win and stalemate detection at every nesting level, move validation and
//! application, and the cascading collapse of decided sub-boards into
//! resolved cells.

pub mod board;
pub mod game;
pub mod laws;
pub mod model;
