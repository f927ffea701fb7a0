//! Types shared by every game: grid coordinates, movement directions,
//! difficulty presets and the lifecycle state every game session walks
//! through.

use vstd::prelude::*;

verus! {

/// A cell position on a board grid: `x` is the column, `y` is the line.
#[derive(Clone, Copy, PartialEq, Eq, Structural, Debug)]
pub struct Coord {
    pub x: usize,
    pub y: usize,
}

/// A movement direction, as the input layer hands it to an engine.
#[derive(Clone, Copy, PartialEq, Eq, Structural, Debug)]
pub enum Directions {
    Up,
    Down,
    Left,
    Right,
}

/// The minesweeper difficulty presets.
#[derive(Clone, Copy, PartialEq, Eq, Structural, Debug)]
pub enum Difficult {
    Easy,
    Medium,
    Hard,
}

/// The lifecycle state of one game session. `Quitting` is terminal: no
/// transition leaves it.
#[derive(Clone, Copy, PartialEq, Eq, Structural, Debug)]
pub enum GameState {
    Starting,
    Menu,
    Playing,
    Pause,
    Helping,
    Won,
    Lost,
    AskingToQuit,
    Quitting,
}

/// The help text shown while a game asks whether to quit.
pub fn confirmation_guide() -> String {
    "N or n - go back to playing\nAny key - confirm".to_string()
}

} // verus!
