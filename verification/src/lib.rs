//! A terminal arcade suite: five small board games (snake, tetris, a 2048
//! variant, minesweeper and flappy bird), each with its own simulation
//! engine, driven through a shared menu / play / end lifecycle.
//!
//! The engines and the lifecycle transitions are verified; drawing the
//! boards on a terminal and decoding key presses live outside this crate.

mod games;
pub use games::Games;

pub mod flappy_bird_gm;
pub mod g2048_gm;
pub mod game_manager;
pub mod minesweeper_gm;
mod rng;
pub mod snake_gm;
pub mod tetris_gm;
