//! Rules engine of a falling-block puzzle: a grid of cells, a two-cell piece
//! that moves and rotates on it, and the clearing of completed rows.

pub mod board;
pub mod game;
