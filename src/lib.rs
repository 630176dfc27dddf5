//! Placement engine for a two-player territory-claiming grid game.
//!
//! Each turn the engine reads the whole board and the piece to place,
//! works out which opponent cells are exposed, enumerates the anchors
//! where the piece may legally go, scores each of them with a greedy
//! heuristic, and picks the best one.

pub mod anfield;
pub mod board;
pub mod laws;
pub mod piece;
pub mod robot;
pub mod scoring;
pub mod state;
pub mod text;

pub use anfield::{Anfield, Cell, Ceil, EMPTY};
pub use board::markers;
pub use piece::Piece;
pub use robot::Robot;
pub use scoring::{best_move, Position};
pub use state::{LineKind, ParseError, Phase, State};
