//! A verified engine for turn-based games on a square grid.
//!
//! The crate models the board, decides game outcomes, and chooses the
//! computer's moves by an exhaustive minimax search; every executable
//! function carries a contract that Verus has checked.

pub mod board;
pub mod controller;
pub mod encoded_board;
pub mod encoded_logic;
pub mod game;
pub mod logic;
pub mod minimax;
pub mod outcome;
pub mod players;
pub mod scoring;
