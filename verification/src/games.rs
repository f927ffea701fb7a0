//! The games the suite offers, as the main menu lists them.

use vstd::prelude::*;

verus! {

#[derive(Clone, Copy, PartialEq, Eq, Structural, Debug)]
pub enum Games {
    Snake,
    Tetris,
    Minesweeper,
    FlappyBird,
    G2048,
}

impl Games {
    /// How many games the menu lists.
    pub fn count() -> (r: usize)
        ensures
            r == 5,
    {
        5
    }

    /// The game at the given menu position.
    pub fn from_index(index: usize) -> (r: Option<Games>)
        ensures
            r == (match index {
                0usize => Option::Some(Games::Snake),
                1usize => Option::Some(Games::Tetris),
                2usize => Option::Some(Games::Minesweeper),
                3usize => Option::Some(Games::FlappyBird),
                4usize => Option::Some(Games::G2048),
                _ => Option::None::<Games>,
            }),
    {
        match index {
            0 => Option::Some(Games::Snake),
            1 => Option::Some(Games::Tetris),
            2 => Option::Some(Games::Minesweeper),
            3 => Option::Some(Games::FlappyBird),
            4 => Option::Some(Games::G2048),
            _ => Option::None,
        }
    }

    /// The name the menu shows for the game.
    pub fn name(&self) -> (r: String)
        ensures
            (match *self {
                Games::Snake => r@ == "Snake"@,
                Games::Tetris => r@ == "Tetris"@,
                Games::Minesweeper => r@ == "Minesweeper"@,
                Games::FlappyBird => r@ == "Flappy bird"@,
                Games::G2048 => r@ == "2048"@,
            }),
    {
        match self {
            Games::Snake => "Snake".to_string(),
            Games::Tetris => "Tetris".to_string(),
            Games::Minesweeper => "Minesweeper".to_string(),
            Games::FlappyBird => "Flappy bird".to_string(),
            Games::G2048 => "2048".to_string(),
        }
    }
}

} // verus!
