//! The 2048 session lifecycle: each play input slides the board one way;
//! a stuck board ends the round, and the shared menu / play / end shape
//! frames it.

use vstd::prelude::*;

use crate::g2048_gm::board::Board;
use crate::game_manager::{Directions, GameState};

verus! {

#[derive(Clone, Copy, PartialEq, Eq, Structural, Debug)]
pub enum MenuOpt {
    Play,
    Quit,
    Help,
    Idle,
}

#[derive(Clone, Copy, PartialEq, Eq, Structural, Debug)]
pub enum PlayOpt {
    Direction(Directions),
    Quit,
    Idle,
}

pub struct G2048GameManager {
    game_state: GameState,
    menu_opt: MenuOpt,
    play_opts: PlayOpt,
    confirmed: bool,
    board: Board,
    record: u32,
    kill_execution: bool,
}

impl G2048GameManager {
    pub closed spec fn state_spec(self) -> GameState {
        self.game_state
    }

    pub closed spec fn menu_opt_spec(self) -> MenuOpt {
        self.menu_opt
    }

    pub closed spec fn play_opt_spec(self) -> PlayOpt {
        self.play_opts
    }

    pub closed spec fn confirmed_spec(self) -> bool {
        self.confirmed
    }

    pub closed spec fn board_spec(self) -> Board {
        self.board
    }

    pub closed spec fn record_spec(self) -> u32 {
        self.record
    }

    pub closed spec fn kill_spec(self) -> bool {
        self.kill_execution
    }

    pub open spec fn inv(self) -> bool {
        self.board_spec().inv()
    }

    pub fn new() -> (r: G2048GameManager)
        ensures
            r.inv(),
            r.state_spec() == GameState::Starting,
            !r.kill_spec(),
            r.record_spec() == 0,
    {
        G2048GameManager {
            game_state: GameState::Starting,
            menu_opt: MenuOpt::Idle,
            play_opts: PlayOpt::Idle,
            confirmed: false,
            board: Board::new(),
            record: 0,
            kill_execution: false,
        }
    }

    pub fn set_menu_option(&mut self, opt: MenuOpt)
        requires
            old(self).inv(),
        ensures
            final(self).inv(),
            final(self).menu_opt_spec() == opt,
            final(self).state_spec() == old(self).state_spec(),
            final(self).board_spec() == old(self).board_spec(),
            final(self).play_opt_spec() == old(self).play_opt_spec(),
            final(self).confirmed_spec() == old(self).confirmed_spec(),
            final(self).record_spec() == old(self).record_spec(),
            final(self).kill_spec() == old(self).kill_spec(),
    {
        self.menu_opt = opt;
    }

    pub fn set_play_option(&mut self, opt: PlayOpt)
        requires
            old(self).inv(),
        ensures
            final(self).inv(),
            final(self).play_opt_spec() == opt,
            final(self).state_spec() == old(self).state_spec(),
            final(self).board_spec() == old(self).board_spec(),
            final(self).menu_opt_spec() == old(self).menu_opt_spec(),
            final(self).confirmed_spec() == old(self).confirmed_spec(),
            final(self).record_spec() == old(self).record_spec(),
            final(self).kill_spec() == old(self).kill_spec(),
    {
        self.play_opts = opt;
    }

    pub fn set_confirmation(&mut self, confirmed: bool)
        requires
            old(self).inv(),
        ensures
            final(self).inv(),
            final(self).confirmed_spec() == confirmed,
            final(self).state_spec() == old(self).state_spec(),
            final(self).board_spec() == old(self).board_spec(),
            final(self).kill_spec() == old(self).kill_spec(),
    {
        self.confirmed = confirmed;
    }

    /// Mark the whole application for termination; the next update
    /// reaches the terminal state whatever else is pending.
    pub fn force_quit(&mut self)
        requires
            old(self).inv(),
        ensures
            final(self).inv(),
            final(self).kill_spec(),
            final(self).state_spec() == old(self).state_spec(),
            final(self).board_spec() == old(self).board_spec(),
    {
        self.kill_execution = true;
    }

    /// One lifecycle step: a pending force-quit reaches the terminal
    /// state at once, the terminal state absorbs every further step, and
    /// in play a chosen direction slides the board once.
    pub fn update(&mut self)
        requires
            old(self).inv(),
            old(self).state_spec() == GameState::Playing ==> old(self).board_spec().headroom_spec(),
        ensures
            final(self).inv(),
            final(self).kill_spec() == old(self).kill_spec(),
            old(self).kill_spec() ==> {
                &&& final(self).state_spec() == GameState::Quitting
                &&& final(self).board_spec() == old(self).board_spec()
                &&& final(self).record_spec() == old(self).record_spec()
                &&& final(self).menu_opt_spec() == old(self).menu_opt_spec()
                &&& final(self).play_opt_spec() == old(self).play_opt_spec()
                &&& final(self).confirmed_spec() == old(self).confirmed_spec()
            },
            old(self).state_spec() == GameState::Quitting ==> *final(self) == *old(self),
            !old(self).kill_spec() ==> match old(self).state_spec() {
                GameState::Starting => final(self).state_spec() == GameState::Playing
                    && final(self).board_spec() == old(self).board_spec() && final(self).record_spec() == old(self).record_spec(),
                GameState::Helping => final(self).state_spec() == GameState::Menu && final(self).board_spec() == old(self).board_spec() && final(self).record_spec() == old(self).record_spec(),
                GameState::Menu | GameState::Lost => {
                    &&& final(self).record_spec() == old(self).record_spec()
                    &&& match old(self).menu_opt_spec() {
                        MenuOpt::Play => {
                            &&& final(self).state_spec() == GameState::Playing
                            &&& final(self).board_spec().inv()
                            &&& if old(self).state_spec() == GameState::Lost {
                                // a fresh round: counters zeroed and exactly
                                // two tiles, each a two or a four
                                &&& final(self).board_spec().score_spec() == 0
                                &&& final(self).board_spec().moves_spec() == 0
                                &&& !final(self).board_spec().lost_spec()
                                &&& exists|j1: int, j2: int|
                                    {
                                        &&& 0 <= j1 < 16
                                        &&& 0 <= j2 < 16
                                        &&& j1 != j2
                                        &&& (final(self).board_spec().cells_spec()[j1] == 2 || final(self).board_spec().cells_spec()[j1] == 4)
                                        &&& (final(self).board_spec().cells_spec()[j2] == 2 || final(self).board_spec().cells_spec()[j2] == 4)
                                        &&& forall|n: int|
                                            0 <= n < 16 && n != j1 && n != j2
                                                ==> #[trigger] final(self).board_spec().cells_spec()[n] == 0
                                    }
                            } else {
                                // replaying from the menu keeps the board
                                // and sows new tiles on it
                                &&& final(self).board_spec().score_spec() == old(self).board_spec().score_spec()
                                &&& final(self).board_spec().moves_spec() == old(self).board_spec().moves_spec()
                                &&& forall|n: int|
                                    0 <= n < 16 ==> #[trigger] final(self).board_spec().cells_spec()[n]
                                        == old(self).board_spec().cells_spec()[n] || final(self).board_spec().cells_spec()[n] == 2
                                        || final(self).board_spec().cells_spec()[n] == 4
                            }
                        },
                        MenuOpt::Quit => final(self).state_spec() == GameState::Quitting && final(self).board_spec() == old(self).board_spec(),
                        MenuOpt::Help => final(self).state_spec() == GameState::Helping && final(self).board_spec() == old(self).board_spec(),
                        MenuOpt::Idle => final(self).state_spec() == old(self).state_spec()
                            && final(self).board_spec() == old(self).board_spec(),
                    }
                },
                GameState::Playing => match old(self).play_opt_spec() {
                    PlayOpt::Quit => final(self).state_spec() == GameState::AskingToQuit
                        && final(self).board_spec() == old(self).board_spec() && final(self).record_spec() == old(self).record_spec(),
                    PlayOpt::Direction(direction) => {
                        &&& final(self).board_spec().inv()
                        &&& Board::move_step(
                            old(self).board_spec(),
                            final(self).board_spec(),
                            direction,
                        )
                        &&& final(self).state_spec() == (if final(self).board_spec().lost_spec() {
                            GameState::Lost
                        } else {
                            GameState::Playing
                        })
                        &&& final(self).record_spec() as int == (if old(self).record_spec()
                            < final(self).board_spec().score_spec() {
                            final(self).board_spec().score_spec() as int
                        } else {
                            old(self).record_spec() as int
                        })
                    },
                    PlayOpt::Idle => {
                        &&& final(self).board_spec() == old(self).board_spec()
                        &&& final(self).state_spec() == (if final(self).board_spec().lost_spec() {
                            GameState::Lost
                        } else {
                            GameState::Playing
                        })
                        &&& final(self).record_spec() as int == (if old(self).record_spec()
                            < final(self).board_spec().score_spec() {
                            final(self).board_spec().score_spec() as int
                        } else {
                            old(self).record_spec() as int
                        })
                    },
                },
                GameState::AskingToQuit => {
                    &&& final(self).record_spec() == old(self).record_spec()
                    &&& if old(self).confirmed_spec() {
                        // the round is abandoned: back to the menu over an
                        // emptied board
                        &&& final(self).state_spec() == GameState::Menu
                        &&& final(self).board_spec().score_spec() == 0
                        &&& final(self).board_spec().moves_spec() == 0
                        &&& !final(self).board_spec().lost_spec()
                        &&& forall|n: int|
                            0 <= n < 16 ==> #[trigger] final(self).board_spec().cells_spec()[n]
                                == 0
                    } else {
                        final(self).state_spec() == GameState::Playing && final(self).board_spec()
                            == old(self).board_spec()
                    }
                },
                _ => *final(self) == *old(self),
            },
    {
        if self.kill_execution {
            self.game_state = GameState::Quitting;
            return ;
        }
        match self.game_state {
            GameState::Starting => {
                self.game_state = GameState::Playing;
            },
            GameState::Helping => {
                self.game_state = GameState::Menu;
            },
            GameState::Menu | GameState::Lost => {
                match self.menu_opt {
                    MenuOpt::Play => {
                        if matches!(self.game_state, GameState::Lost) {
                            self.board.reset_board();
                        }
                        self.board.start_game();
                        self.game_state = GameState::Playing;
                    },
                    MenuOpt::Quit => {
                        self.game_state = GameState::Quitting;
                    },
                    MenuOpt::Help => {
                        self.game_state = GameState::Helping;
                    },
                    MenuOpt::Idle => (),
                }
            },
            GameState::Playing => {
                match self.play_opts {
                    PlayOpt::Direction(direction) => {
                        self.board.move_pieces(&direction);
                    },
                    PlayOpt::Quit => {
                        self.game_state = GameState::AskingToQuit;
                    },
                    PlayOpt::Idle => (),
                }
                if !matches!(self.play_opts, PlayOpt::Quit) {
                    if self.board.defeated() {
                        self.game_state = GameState::Lost;
                    }
                    let score = self.board.consult_score();
                    if self.record < score {
                        self.record = score;
                    }
                }
            },
            GameState::AskingToQuit => {
                if self.confirmed {
                    self.board.reset_board();
                    self.game_state = GameState::Menu;
                } else {
                    self.game_state = GameState::Playing;
                }
            },
            GameState::Quitting => (),
            _ => (),
        }
    }

    pub fn ended(&self) -> (r: bool)
        ensures
            r == (self.state_spec() == GameState::Quitting),
    {
        matches!(self.game_state, GameState::Quitting)
    }

    pub fn kill_execution(&self) -> (r: bool)
        ensures
            r == self.kill_spec(),
    {
        self.kill_execution
    }

    pub fn reset(&mut self)
        requires
            old(self).inv(),
        ensures
            final(self).inv(),
            final(self).state_spec() == GameState::Starting,
    {
        self.board.reset_board();
        self.game_state = GameState::Starting;
    }

    pub fn consult_state(&self) -> (r: GameState)
        ensures
            r == self.state_spec(),
    {
        self.game_state
    }

    pub fn consult_record(&self) -> (r: u32)
        ensures
            r == self.record_spec(),
    {
        self.record
    }

    pub fn consult_board(&self) -> (r: &Board)
        ensures
            *r == self.board_spec(),
    {
        &self.board
    }

    pub fn menu_guide() -> String {
        "ENTER or p - Play\n? - Display game rules\nESC or q - Go to main menu\n".to_string()
    }

    pub fn play_guide() -> String {
        "w or k - Move up\ns or j - Move down\nd or l - Move right\na or h - Move left\nESC or q - Go to menu".to_string()
    }
}

} // verus!
