//! Minesweeper: the board engine and the lifecycle manager driving it.

pub mod board;
pub mod manager;
