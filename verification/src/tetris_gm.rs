//! Tetris: the brick shapes, the board engine and the lifecycle manager
//! driving them.

pub mod board;
pub mod bricks;
pub mod manager;
