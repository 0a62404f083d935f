//! Rules engine for Othello/Reversi on a fixed 8x8 board.
//!
//! The library owns the board model, move legality (the eight-direction
//! flanking search), the flips an accepted move performs, score counting,
//! turn alternation, and end-of-game detection. Rendering, window and
//! input handling are collaborators outside this crate: they feed resolved
//! (row, column) cells and reset/pass signals in, and read cells and
//! scores back out.

pub mod board;
pub mod moves;
pub mod score;
pub mod game;
pub mod laws;
