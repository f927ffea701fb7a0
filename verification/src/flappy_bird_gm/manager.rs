//! The flappy bird session lifecycle: each tick in play advances the
//! bird, jumping when the player asked for it; losing, pausing and
//! quitting follow the shared menu / play / end shape.

use vstd::prelude::*;

use crate::flappy_bird_gm::board::{Board, BOARD_HEIGHT, NUMBER_OF_PIPES, PIPES_DISTANCE};
use crate::game_manager::GameState;

verus! {

pub const FPS_CHANGE: u64 = 4;

#[derive(Clone, Copy, PartialEq, Eq, Structural, Debug)]
pub enum PlayOpt {
    Jump,
    Pause,
    Quit,
    Idle,
}

#[derive(Clone, Copy, PartialEq, Eq, Structural, Debug)]
pub enum MenuOpt {
    Play,
    Quit,
    Help,
    IncreaseFPS,
    DecreaseFPS,
    Idle,
}

pub struct FlappyBirdGameManager {
    game_state: GameState,
    menu_opt: MenuOpt,
    play_opt: PlayOpt,
    confirmed: bool,
    board: Board,
    record: u32,
    fps: u64,
    kill_execution: bool,
}

impl FlappyBirdGameManager {
    pub closed spec fn state_spec(self) -> GameState {
        self.game_state
    }

    pub closed spec fn menu_opt_spec(self) -> MenuOpt {
        self.menu_opt
    }

    pub closed spec fn play_opt_spec(self) -> PlayOpt {
        self.play_opt
    }

    pub closed spec fn confirmed_spec(self) -> bool {
        self.confirmed
    }

    pub closed spec fn board_spec(self) -> Board {
        self.board
    }

    pub closed spec fn record_spec(self) -> u32 {
        self.record
    }

    pub closed spec fn fps_spec(self) -> u64 {
        self.fps
    }

    pub closed spec fn kill_spec(self) -> bool {
        self.kill_execution
    }

    /// Well-formedness: the board is well formed, the bird is alive in
    /// every state that can step or resume the simulation, and the frame
    /// rate stays usable.
    pub open spec fn inv(self) -> bool {
        &&& self.board_spec().inv()
        &&& (self.state_spec() == GameState::Playing || self.state_spec() == GameState::Pause
            || self.state_spec() == GameState::AskingToQuit || self.state_spec()
            == GameState::Starting) ==> !self.board_spec().lost_spec()
        &&& FPS_CHANGE <= self.fps_spec() <= 0xFFFF_FFFFu64
    }

    pub fn new() -> (r: FlappyBirdGameManager)
        ensures
            r.inv(),
            r.state_spec() == GameState::Starting,
            !r.kill_spec(),
            r.record_spec() == 0,
    {
        FlappyBirdGameManager {
            game_state: GameState::Starting,
            menu_opt: MenuOpt::Idle,
            play_opt: PlayOpt::Idle,
            confirmed: false,
            board: Board::new(),
            record: 0,
            fps: FPS_CHANGE * 2,
            kill_execution: false,
        }
    }

    pub fn set_menu_option(&mut self, opt: MenuOpt)
        requires
            old(self).inv(),
        ensures
            final(self).inv(),
            final(self).menu_opt_spec() == opt,
            final(self).state_spec() == old(self).state_spec(),
            final(self).board_spec() == old(self).board_spec(),
            final(self).play_opt_spec() == old(self).play_opt_spec(),
            final(self).confirmed_spec() == old(self).confirmed_spec(),
            final(self).record_spec() == old(self).record_spec(),
            final(self).fps_spec() == old(self).fps_spec(),
            final(self).kill_spec() == old(self).kill_spec(),
    {
        self.menu_opt = opt;
    }

    pub fn set_play_option(&mut self, opt: PlayOpt)
        requires
            old(self).inv(),
        ensures
            final(self).inv(),
            final(self).play_opt_spec() == opt,
            final(self).state_spec() == old(self).state_spec(),
            final(self).board_spec() == old(self).board_spec(),
            final(self).menu_opt_spec() == old(self).menu_opt_spec(),
            final(self).confirmed_spec() == old(self).confirmed_spec(),
            final(self).record_spec() == old(self).record_spec(),
            final(self).fps_spec() == old(self).fps_spec(),
            final(self).kill_spec() == old(self).kill_spec(),
    {
        self.play_opt = opt;
    }

    pub fn set_confirmation(&mut self, confirmed: bool)
        requires
            old(self).inv(),
        ensures
            final(self).inv(),
            final(self).confirmed_spec() == confirmed,
            final(self).state_spec() == old(self).state_spec(),
            final(self).board_spec() == old(self).board_spec(),
            final(self).kill_spec() == old(self).kill_spec(),
    {
        self.confirmed = confirmed;
    }

    /// Mark the whole application for termination; the next update
    /// reaches the terminal state whatever else is pending.
    pub fn force_quit(&mut self)
        requires
            old(self).inv(),
        ensures
            final(self).inv(),
            final(self).kill_spec(),
            final(self).state_spec() == old(self).state_spec(),
            final(self).board_spec() == old(self).board_spec(),
    {
        self.kill_execution = true;
    }

    /// One lifecycle step: a pending force-quit reaches the terminal
    /// state at once, the terminal state absorbs every further step, and
    /// in play the bird advances one tick, jumping when asked.
    pub fn update(&mut self)
        requires
            old(self).inv(),
            old(self).state_spec() == GameState::Playing ==> old(self).board_spec().score_spec()
                < u32::MAX,
        ensures
            final(self).inv(),
            final(self).kill_spec() == old(self).kill_spec(),
            old(self).kill_spec() ==> {
                &&& final(self).state_spec() == GameState::Quitting
                &&& final(self).board_spec() == old(self).board_spec()
                &&& final(self).record_spec() == old(self).record_spec()
                &&& final(self).fps_spec() == old(self).fps_spec()
                &&& final(self).menu_opt_spec() == old(self).menu_opt_spec()
                &&& final(self).play_opt_spec() == old(self).play_opt_spec()
                &&& final(self).confirmed_spec() == old(self).confirmed_spec()
            },
            old(self).state_spec() == GameState::Quitting ==> *final(self) == *old(self),
            !old(self).kill_spec() ==> match old(self).state_spec() {
                GameState::Starting => final(self).state_spec() == GameState::Playing
                    && final(self).board_spec() == old(self).board_spec() && final(self).record_spec() == old(self).record_spec() && final(self).fps_spec() == old(self).fps_spec(),
                GameState::Helping => final(self).state_spec() == GameState::Menu
                    && final(self).board_spec() == old(self).board_spec() && final(self).record_spec() == old(self).record_spec() && final(self).fps_spec() == old(self).fps_spec(),
                GameState::Pause => final(self).state_spec() == GameState::Playing
                    && final(self).board_spec() == old(self).board_spec() && final(self).record_spec() == old(self).record_spec() && final(self).fps_spec() == old(self).fps_spec(),
                GameState::Menu | GameState::Lost => {
                    &&& final(self).record_spec() == old(self).record_spec()
                    &&& match old(self).menu_opt_spec() {
                        MenuOpt::Play => {
                            // a fresh round: score zero, full hole queue,
                            // bird and first hole centered, countdown reset
                            &&& final(self).state_spec() == GameState::Playing
                            &&& !final(self).board_spec().lost_spec()
                            &&& final(self).board_spec().score_spec() == 0
                            &&& final(self).board_spec().holes_spec().len() == NUMBER_OF_PIPES
                            &&& final(self).board_spec().bird_height_spec() == BOARD_HEIGHT / 2
                            &&& final(self).board_spec().holes_spec()[0] == BOARD_HEIGHT / 2
                            &&& final(self).board_spec().distance_spec() == PIPES_DISTANCE
                            &&& final(self).board_spec().in_pipe_spec() == 0
                            &&& final(self).fps_spec() == old(self).fps_spec()
                        },
                        MenuOpt::Quit => final(self).state_spec() == GameState::Quitting
                            && final(self).board_spec() == old(self).board_spec() && final(self).fps_spec() == old(self).fps_spec(),
                        MenuOpt::Help => final(self).state_spec() == GameState::Helping
                            && final(self).board_spec() == old(self).board_spec() && final(self).fps_spec() == old(self).fps_spec(),
                        MenuOpt::IncreaseFPS => final(self).state_spec() == old(self).state_spec()
                            && final(self).board_spec() == old(self).board_spec()
                            && final(self).fps_spec() == (if old(self).fps_spec() + FPS_CHANGE
                            <= 0xFFFF_FFFFu64 {
                            old(self).fps_spec() + FPS_CHANGE
                        } else {
                            old(self).fps_spec() as int
                        }),
                        MenuOpt::DecreaseFPS => final(self).state_spec() == old(self).state_spec()
                            && final(self).board_spec() == old(self).board_spec()
                            && final(self).fps_spec() == (if old(self).fps_spec() - FPS_CHANGE
                            >= FPS_CHANGE {
                            old(self).fps_spec() - FPS_CHANGE
                        } else {
                            FPS_CHANGE as int
                        }),
                        MenuOpt::Idle => final(self).state_spec() == old(self).state_spec()
                            && final(self).board_spec() == old(self).board_spec() && final(self).fps_spec() == old(self).fps_spec(),
                    }
                },
                GameState::Playing => {
                    &&& final(self).fps_spec() == old(self).fps_spec()
                    &&& match old(self).play_opt_spec() {
                        PlayOpt::Pause => final(self).state_spec() == GameState::Pause
                            && final(self).board_spec() == old(self).board_spec() && final(self).record_spec() == old(self).record_spec(),
                        PlayOpt::Quit => final(self).state_spec() == GameState::AskingToQuit
                            && final(self).board_spec() == old(self).board_spec() && final(self).record_spec() == old(self).record_spec(),
                        PlayOpt::Jump => {
                            &&& final(self).board_spec().inv()
                            &&& Board::advance_step(
                                old(self).board_spec(),
                                final(self).board_spec(),
                                true,
                            )
                            &&& final(self).state_spec() == (if final(self).board_spec().lost_spec() {
                                GameState::Lost
                            } else {
                                GameState::Playing
                            })
                            &&& final(self).record_spec() as int == (if old(self).record_spec()
                                < final(self).board_spec().score_spec() {
                                final(self).board_spec().score_spec() as int
                            } else {
                                old(self).record_spec() as int
                            })
                        },
                        PlayOpt::Idle => {
                            &&& final(self).board_spec().inv()
                            &&& Board::advance_step(
                                old(self).board_spec(),
                                final(self).board_spec(),
                                false,
                            )
                            &&& final(self).state_spec() == (if final(self).board_spec().lost_spec() {
                                GameState::Lost
                            } else {
                                GameState::Playing
                            })
                            &&& final(self).record_spec() as int == (if old(self).record_spec()
                                < final(self).board_spec().score_spec() {
                                final(self).board_spec().score_spec() as int
                            } else {
                                old(self).record_spec() as int
                            })
                        },
                    }
                },
                GameState::AskingToQuit => {
                    &&& final(self).record_spec() == old(self).record_spec()
                    &&& final(self).fps_spec() == old(self).fps_spec()
                    &&& if old(self).confirmed_spec() {
                        // the round is abandoned: back to the menu over a
                        // fresh board
                        &&& final(self).state_spec() == GameState::Menu
                        &&& !final(self).board_spec().lost_spec()
                        &&& final(self).board_spec().score_spec() == 0
                        &&& final(self).board_spec().holes_spec().len() == NUMBER_OF_PIPES
                        &&& final(self).board_spec().bird_height_spec() == BOARD_HEIGHT / 2
                    } else {
                        final(self).state_spec() == GameState::Playing && final(self).board_spec()
                            == old(self).board_spec()
                    }
                },
                _ => *final(self) == *old(self),
            },
    {
        if self.kill_execution {
            self.game_state = GameState::Quitting;
            return ;
        }
        match self.game_state {
            GameState::Starting => {
                self.game_state = GameState::Playing;
            },
            GameState::Helping => {
                self.game_state = GameState::Menu;
            },
            GameState::Pause => {
                self.game_state = GameState::Playing;
            },
            GameState::Menu | GameState::Lost => {
                match self.menu_opt {
                    MenuOpt::Play => {
                        self.board.reset_board();
                        self.game_state = GameState::Playing;
                    },
                    MenuOpt::Quit => {
                        self.game_state = GameState::Quitting;
                    },
                    MenuOpt::Help => {
                        self.game_state = GameState::Helping;
                    },
                    MenuOpt::IncreaseFPS => {
                        if self.fps + FPS_CHANGE <= 0xFFFF_FFFF {
                            self.fps = self.fps + FPS_CHANGE;
                        }
                    },
                    MenuOpt::DecreaseFPS => {
                        if self.fps - FPS_CHANGE >= FPS_CHANGE {
                            self.fps = self.fps - FPS_CHANGE;
                        } else {
                            self.fps = FPS_CHANGE;
                        }
                    },
                    MenuOpt::Idle => (),
                }
            },
            GameState::Playing => {
                match self.play_opt {
                    PlayOpt::Idle => {
                        self.board.advance(false);
                    },
                    PlayOpt::Jump => {
                        self.board.advance(true);
                    },
                    PlayOpt::Pause => {
                        self.game_state = GameState::Pause;
                    },
                    PlayOpt::Quit => {
                        self.game_state = GameState::AskingToQuit;
                    },
                }
                if matches!(self.play_opt, PlayOpt::Idle) || matches!(self.play_opt, PlayOpt::Jump)
                 {
                    if self.board.lost() {
                        self.game_state = GameState::Lost;
                    }
                    let score = self.board.consult_score();
                    if self.record < score {
                        self.record = score;
                    }
                }
            },
            GameState::AskingToQuit => {
                if self.confirmed {
                    self.board.reset_board();
                    self.game_state = GameState::Menu;
                } else {
                    self.game_state = GameState::Playing;
                }
            },
            GameState::Quitting => (),
            _ => (),
        }
    }

    pub fn ended(&self) -> (r: bool)
        ensures
            r == (self.state_spec() == GameState::Quitting),
    {
        matches!(self.game_state, GameState::Quitting)
    }

    pub fn kill_execution(&self) -> (r: bool)
        ensures
            r == self.kill_spec(),
    {
        self.kill_execution
    }

    pub fn reset(&mut self)
        requires
            old(self).inv(),
        ensures
            final(self).inv(),
            final(self).state_spec() == GameState::Starting,
    {
        self.board.reset_board();
        self.game_state = GameState::Starting;
    }

    pub fn consult_state(&self) -> (r: GameState)
        ensures
            r == self.state_spec(),
    {
        self.game_state
    }

    pub fn consult_record(&self) -> (r: u32)
        ensures
            r == self.record_spec(),
    {
        self.record
    }

    pub fn consult_fps(&self) -> (r: u64)
        ensures
            r == self.fps_spec(),
    {
        self.fps
    }

    pub fn consult_board(&self) -> (r: &Board)
        ensures
            *r == self.board_spec(),
    {
        &self.board
    }

    pub fn increase_fps(&mut self)
        requires
            old(self).inv(),
        ensures
            final(self).inv(),
            final(self).fps_spec() == (if old(self).fps_spec() + FPS_CHANGE <= 0xFFFF_FFFFu64 {
                old(self).fps_spec() + FPS_CHANGE
            } else {
                old(self).fps_spec() as int
            }),
    {
        if self.fps + FPS_CHANGE <= 0xFFFF_FFFF {
            self.fps = self.fps + FPS_CHANGE;
        }
    }

    pub fn decrease_fps(&mut self)
        requires
            old(self).inv(),
        ensures
            final(self).inv(),
            final(self).fps_spec() == (if old(self).fps_spec() - FPS_CHANGE >= FPS_CHANGE {
                old(self).fps_spec() - FPS_CHANGE
            } else {
                FPS_CHANGE as int
            }),
    {
        if self.fps - FPS_CHANGE >= FPS_CHANGE {
            self.fps = self.fps - FPS_CHANGE;
        } else {
            self.fps = FPS_CHANGE;
        }
    }

    pub fn menu_guide() -> String {
        "ENTER or p - Play\nf - Decrease fps\nF - Increase fps\n? - Display game rules\nESC or q - Go to main menu\n".to_string()
    }

    pub fn play_guide() -> String {
        "w or k or SPACE - Jump\np - Pause game\nESC or q - Go back to menu".to_string()
    }
}

} // verus!
