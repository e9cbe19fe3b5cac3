//! Treblecross on a strip of cells: the board, and an exhaustive search that
//! scores every cell for the player about to move.

pub mod bits;
pub mod game;
pub mod laws;
pub mod score;
pub mod session;
pub mod solver;

pub use game::Game;
pub use session::{press, winner, Command};
pub use solver::{negamax, solve, solve_and_collect};
