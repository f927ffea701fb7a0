//! The snake session lifecycle: a finite-state machine that feeds the
//! board one step per tick while playing, pauses the simulation while a
//! quit is being confirmed, and absorbs everything once quitting.

use vstd::prelude::*;

use crate::game_manager::{Directions, GameState};
use crate::snake_gm::board::Board;

verus! {

pub const FPS_CHANGE: u64 = 15;

/// What the menu input resolved to.
#[derive(Clone, Copy, PartialEq, Eq, Structural, Debug)]
pub enum MenuOpt {
    Play,
    Quit,
    Help,
    Idle,
    IncreaseFPS,
    DecreaseFPS,
}

pub struct SnakeGameManager {
    game_state: GameState,
    menu_opt: MenuOpt,
    direction: Directions,
    confirmed: bool,
    board: Board,
    record: u32,
    fps: u64,
    kill_execution: bool,
}

impl SnakeGameManager {
    pub closed spec fn state_spec(self) -> GameState {
        self.game_state
    }

    pub closed spec fn menu_opt_spec(self) -> MenuOpt {
        self.menu_opt
    }

    pub closed spec fn direction_spec(self) -> Directions {
        self.direction
    }

    pub closed spec fn confirmed_spec(self) -> bool {
        self.confirmed
    }

    pub closed spec fn board_spec(self) -> Board {
        self.board
    }

    pub closed spec fn record_spec(self) -> u32 {
        self.record
    }

    pub closed spec fn fps_spec(self) -> u64 {
        self.fps
    }

    pub closed spec fn kill_spec(self) -> bool {
        self.kill_execution
    }

    /// Well-formedness: the board is well formed, the snake is alive
    /// whenever the session is in play, and the frame rate stays usable.
    pub open spec fn inv(self) -> bool {
        &&& self.board_spec().inv()
        &&& self.state_spec() == GameState::Playing ==> !self.board_spec().snake_died_spec()
        &&& self.state_spec() == GameState::AskingToQuit ==> !self.board_spec().snake_died_spec()
        &&& self.state_spec() == GameState::Starting ==> !self.board_spec().snake_died_spec()
        &&& 1 <= self.fps_spec() <= 0xFFFF_FFFFu64
    }

    pub fn new() -> (r: SnakeGameManager)
        ensures
            r.inv(),
            r.state_spec() == GameState::Starting,
            !r.kill_spec(),
            r.record_spec() == 0,
            r.menu_opt_spec() == MenuOpt::Idle,
    {
        SnakeGameManager {
            game_state: GameState::Starting,
            menu_opt: MenuOpt::Idle,
            direction: Directions::Right,
            confirmed: false,
            board: Board::new(12, 20),
            record: 0,
            fps: 15,
            kill_execution: false,
        }
    }

    /// Record what the menu input resolved to.
    pub fn set_menu_option(&mut self, opt: MenuOpt)
        requires
            old(self).inv(),
        ensures
            final(self).inv(),
            final(self).menu_opt_spec() == opt,
            final(self).state_spec() == old(self).state_spec(),
            final(self).board_spec() == old(self).board_spec(),
            final(self).direction_spec() == old(self).direction_spec(),
            final(self).confirmed_spec() == old(self).confirmed_spec(),
            final(self).record_spec() == old(self).record_spec(),
            final(self).fps_spec() == old(self).fps_spec(),
            final(self).kill_spec() == old(self).kill_spec(),
    {
        self.menu_opt = opt;
    }

    /// Record the direction the play input chose.
    pub fn set_direction(&mut self, direction: Directions)
        requires
            old(self).inv(),
        ensures
            final(self).inv(),
            final(self).direction_spec() == direction,
            final(self).state_spec() == old(self).state_spec(),
            final(self).board_spec() == old(self).board_spec(),
            final(self).menu_opt_spec() == old(self).menu_opt_spec(),
            final(self).confirmed_spec() == old(self).confirmed_spec(),
            final(self).record_spec() == old(self).record_spec(),
            final(self).fps_spec() == old(self).fps_spec(),
            final(self).kill_spec() == old(self).kill_spec(),
    {
        self.direction = direction;
    }

    /// Record the answer to the quit confirmation.
    pub fn set_confirmation(&mut self, confirmed: bool)
        requires
            old(self).inv(),
        ensures
            final(self).inv(),
            final(self).confirmed_spec() == confirmed,
            final(self).state_spec() == old(self).state_spec(),
            final(self).board_spec() == old(self).board_spec(),
            final(self).menu_opt_spec() == old(self).menu_opt_spec(),
            final(self).direction_spec() == old(self).direction_spec(),
            final(self).record_spec() == old(self).record_spec(),
            final(self).fps_spec() == old(self).fps_spec(),
            final(self).kill_spec() == old(self).kill_spec(),
    {
        self.confirmed = confirmed;
    }

    /// Mark the whole application for termination; the next update
    /// reaches the terminal state whatever else is pending.
    pub fn force_quit(&mut self)
        requires
            old(self).inv(),
        ensures
            final(self).inv(),
            final(self).kill_spec(),
            final(self).state_spec() == old(self).state_spec(),
            final(self).board_spec() == old(self).board_spec(),
    {
        self.kill_execution = true;
    }

    /// One lifecycle step.
    ///
    /// A pending force-quit reaches the terminal state at once. The
    /// terminal state absorbs every further step unchanged. A cancel
    /// while playing freezes the simulation: the board does not advance
    /// on that tick. Otherwise the state advances by the pending menu or
    /// play input; while playing, the snake moves one step and the
    /// session ends in a win or a loss as the board reports it.
    pub fn update(&mut self)
        requires
            old(self).inv(),
        ensures
            final(self).inv(),
            final(self).kill_spec() == old(self).kill_spec(),
            final(self).fps_spec() >= 1,
            old(self).kill_spec() ==> {
                &&& final(self).state_spec() == GameState::Quitting
                &&& final(self).board_spec() == old(self).board_spec()
                &&& final(self).record_spec() == old(self).record_spec()
                &&& final(self).fps_spec() == old(self).fps_spec()
                &&& final(self).menu_opt_spec() == old(self).menu_opt_spec()
                &&& final(self).direction_spec() == old(self).direction_spec()
                &&& final(self).confirmed_spec() == old(self).confirmed_spec()
            },
            old(self).state_spec() == GameState::Quitting ==> *final(self) == *old(self),
            !old(self).kill_spec() ==> match old(self).state_spec() {
                GameState::Starting => final(self).state_spec() == GameState::Playing && final(self).board_spec() == old(self).board_spec() && final(self).record_spec() == old(self).record_spec()
                    && final(self).fps_spec() == old(self).fps_spec() && final(self).menu_opt_spec() == old(self).menu_opt_spec() && final(self).direction_spec() == old(self).direction_spec()
                    && final(self).confirmed_spec() == old(self).confirmed_spec(),
                GameState::Helping => final(self).state_spec() == GameState::Menu && final(self).board_spec() == old(self).board_spec() && final(self).record_spec() == old(self).record_spec()
                    && final(self).fps_spec() == old(self).fps_spec() && final(self).menu_opt_spec() == old(self).menu_opt_spec() && final(self).direction_spec() == old(self).direction_spec()
                    && final(self).confirmed_spec() == old(self).confirmed_spec(),
                GameState::Menu | GameState::Won | GameState::Lost => {
                    &&& final(self).menu_opt_spec() == old(self).menu_opt_spec()
                    &&& final(self).confirmed_spec() == old(self).confirmed_spec()
                    &&& final(self).record_spec() == old(self).record_spec()
                    &&& match old(self).menu_opt_spec() {
                        MenuOpt::Play => final(self).state_spec() == GameState::Playing && final(self).direction_spec() == Directions::Right && Board::reset_step(
                            old(self).board_spec(),
                            final(self).board_spec(),
                        ) && final(self).fps_spec() == old(self).fps_spec(),
                        MenuOpt::Quit => final(self).state_spec() == GameState::Quitting && final(self).board_spec() == old(self).board_spec() && final(self).fps_spec() == old(self).fps_spec()
                            && final(self).direction_spec() == old(self).direction_spec(),
                        MenuOpt::Help => final(self).state_spec() == GameState::Helping && final(self).board_spec() == old(self).board_spec() && final(self).fps_spec() == old(self).fps_spec()
                            && final(self).direction_spec() == old(self).direction_spec(),
                        MenuOpt::IncreaseFPS => final(self).state_spec() == old(self).state_spec()
                            && final(self).board_spec() == old(self).board_spec() && final(self).direction_spec() == old(self).direction_spec()
                            && final(self).fps_spec() == (if old(self).fps_spec() + FPS_CHANGE
                            <= 0xFFFF_FFFFu64 {
                            old(self).fps_spec() + FPS_CHANGE
                        } else {
                            old(self).fps_spec() as int
                        }),
                        MenuOpt::DecreaseFPS => final(self).state_spec() == old(self).state_spec()
                            && final(self).board_spec() == old(self).board_spec() && final(self).direction_spec() == old(self).direction_spec()
                            && final(self).fps_spec() == (if old(self).fps_spec() > FPS_CHANGE {
                            old(self).fps_spec() - FPS_CHANGE
                        } else {
                            old(self).fps_spec() as int
                        }),
                        MenuOpt::Idle => *final(self) == *old(self),
                    }
                },
                GameState::Playing => {
                    &&& final(self).fps_spec() == old(self).fps_spec()
                    &&& final(self).direction_spec() == old(self).direction_spec()
                    &&& final(self).confirmed_spec() == old(self).confirmed_spec()
                    &&& final(self).record_spec() as int == (if old(self).record_spec() < final(self).board_spec().score_spec() {
                        final(self).board_spec().score_spec() as int
                    } else {
                        old(self).record_spec() as int
                    })
                    &&& final(self).state_spec() == (if final(self).board_spec().snake_died_spec() {
                        GameState::Lost
                    } else if final(self).board_spec().won_spec() {
                        GameState::Won
                    } else if old(self).menu_opt_spec() == MenuOpt::Quit {
                        GameState::AskingToQuit
                    } else {
                        GameState::Playing
                    })
                    &&& if old(self).menu_opt_spec() == MenuOpt::Quit {
                        // a cancel freezes the simulation for this tick
                        final(self).board_spec() == old(self).board_spec() && final(self).menu_opt_spec() == MenuOpt::Idle
                    } else {
                        Board::move_step(
                            old(self).board_spec(),
                            final(self).board_spec(),
                            old(self).direction_spec(),
                        ) && final(self).menu_opt_spec() == old(self).menu_opt_spec()
                    }
                },
                GameState::AskingToQuit => {
                    &&& final(self).fps_spec() == old(self).fps_spec()
                    &&& final(self).direction_spec() == old(self).direction_spec()
                    &&& final(self).confirmed_spec() == old(self).confirmed_spec()
                    &&& final(self).menu_opt_spec() == old(self).menu_opt_spec()
                    &&& final(self).record_spec() == old(self).record_spec()
                    &&& if old(self).confirmed_spec() {
                        final(self).state_spec() == GameState::Menu && Board::reset_step(
                            old(self).board_spec(),
                            final(self).board_spec(),
                        )
                    } else {
                        final(self).state_spec() == GameState::Playing && final(self).board_spec()
                            == old(self).board_spec()
                    }
                },
                _ => *final(self) == *old(self),
            },
    {
        if self.kill_execution {
            self.game_state = GameState::Quitting;
            return ;
        }
        match self.game_state {
            GameState::Starting => {
                self.game_state = GameState::Playing;
            },
            GameState::Helping => {
                self.game_state = GameState::Menu;
            },
            GameState::Menu | GameState::Won | GameState::Lost => {
                match self.menu_opt {
                    MenuOpt::Play => {
                        self.game_state = GameState::Playing;
                        self.direction = Directions::Right;
                        proof {
                            self.board.lemma_inv_dims();
                        }
                        self.board.reset_board();
                    },
                    MenuOpt::Quit => {
                        self.game_state = GameState::Quitting;
                    },
                    MenuOpt::Help => {
                        self.game_state = GameState::Helping;
                    },
                    MenuOpt::IncreaseFPS => {
                        if self.fps + FPS_CHANGE <= 0xFFFF_FFFF {
                            self.fps = self.fps + FPS_CHANGE;
                        }
                    },
                    MenuOpt::DecreaseFPS => {
                        if self.fps > FPS_CHANGE {
                            self.fps = self.fps - FPS_CHANGE;
                        }
                    },
                    MenuOpt::Idle => (),
                }
            },
            GameState::Playing => {
                if matches!(self.menu_opt, MenuOpt::Quit) {
                    self.menu_opt = MenuOpt::Idle;
                    let died = self.board.snake_died();
                    let won = self.board.won();
                    let score = self.board.consult_score();
                    if self.record < score {
                        self.record = score;
                    }
                    if died {
                        self.game_state = GameState::Lost;
                    } else if won {
                        self.game_state = GameState::Won;
                    } else {
                        self.game_state = GameState::AskingToQuit;
                    }
                } else {
                    let direction = self.direction;
                    self.board.move_snake(&direction);
                    let died = self.board.snake_died();
                    let won = self.board.won();
                    if died {
                        self.game_state = GameState::Lost;
                    } else if won {
                        self.game_state = GameState::Won;
                    }
                    let score = self.board.consult_score();
                    if self.record < score {
                        self.record = score;
                    }
                }
            },
            GameState::AskingToQuit => {
                if self.confirmed {
                    proof {
                        self.board.lemma_inv_dims();
                    }
                    self.board.reset_board();
                    self.game_state = GameState::Menu;
                } else {
                    self.game_state = GameState::Playing;
                }
            },
            GameState::Quitting => (),
            _ => (),
        }
    }

    /// The session is over once the terminal state is reached.
    pub fn ended(&self) -> (r: bool)
        ensures
            r == (self.state_spec() == GameState::Quitting),
    {
        matches!(self.game_state, GameState::Quitting)
    }

    /// Whether the whole application should terminate with this session.
    pub fn kill_execution(&self) -> (r: bool)
        ensures
            r == self.kill_spec(),
    {
        self.kill_execution
    }

    /// Put the session back at its start, board included.
    pub fn reset(&mut self)
        requires
            old(self).inv(),
        ensures
            final(self).inv(),
            final(self).state_spec() == GameState::Starting,
    {
        proof {
            self.board.lemma_inv_dims();
        }
        self.board.reset_board();
        self.game_state = GameState::Starting;
    }

    pub fn consult_state(&self) -> (r: GameState)
        ensures
            r == self.state_spec(),
    {
        self.game_state
    }

    pub fn consult_record(&self) -> (r: u32)
        ensures
            r == self.record_spec(),
    {
        self.record
    }

    pub fn consult_fps(&self) -> (r: u64)
        ensures
            r == self.fps_spec(),
    {
        self.fps
    }

    /// The board, for rendering.
    pub fn consult_board(&self) -> (r: &Board)
        ensures
            *r == self.board_spec(),
    {
        &self.board
    }

    pub fn play_guide() -> String {
        "w or k - Move up\ns or j - Move down\nd or l - Move right\na or h - Move left\nESC or q - Go to menu".to_string()
    }

    pub fn menu_guide() -> String {
        "ENTER or p - Play\nf - Decrease fps\nF - Increase fps\n? - Display game rules\nESC or q - Go to main menu\n".to_string()
    }
}

} // verus!
