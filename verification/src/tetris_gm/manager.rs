//! The tetris session lifecycle: gravity drops the piece every few ticks,
//! play inputs shift, rotate or drop it, and the shared menu / play / end
//! shape frames the round.

use vstd::prelude::*;

use crate::game_manager::{Coord, GameState};
use crate::tetris_gm::board::{lemma_kept_count, Board, BoardPossibilities, LINE_CAP, SCORE_CAP};

verus! {

/// Ticks between two gravity drops.
pub const GRAVITY_TICKS: usize = 3;

#[derive(Clone, Copy, PartialEq, Eq, Structural, Debug)]
pub enum MenuOpt {
    Play,
    Quit,
    Help,
    Idle,
}

#[derive(Clone, Copy, PartialEq, Eq, Structural, Debug)]
pub enum PlayOpt {
    Left,
    Right,
    Rotate,
    SoftDrop,
    HardDrop,
    Pause,
    Quit,
    Idle,
}

pub struct TetrisGameManager {
    game_state: GameState,
    menu_opt: MenuOpt,
    play_opt: PlayOpt,
    confirmed: bool,
    board: Board,
    counter: usize,
    score_record: u32,
    line_record: u32,
    kill_execution: bool,
}

impl TetrisGameManager {
    pub closed spec fn state_spec(self) -> GameState {
        self.game_state
    }

    pub closed spec fn menu_opt_spec(self) -> MenuOpt {
        self.menu_opt
    }

    pub closed spec fn play_opt_spec(self) -> PlayOpt {
        self.play_opt
    }

    pub closed spec fn confirmed_spec(self) -> bool {
        self.confirmed
    }

    pub closed spec fn board_spec(self) -> Board {
        self.board
    }

    pub closed spec fn counter_spec(self) -> usize {
        self.counter
    }

    pub closed spec fn score_record_spec(self) -> u32 {
        self.score_record
    }

    pub closed spec fn line_record_spec(self) -> u32 {
        self.line_record
    }

    pub closed spec fn kill_spec(self) -> bool {
        self.kill_execution
    }

    pub open spec fn inv(self) -> bool {
        &&& self.board_spec().inv()
        &&& self.counter_spec() <= GRAVITY_TICKS + 1
    }

    pub fn new() -> (r: TetrisGameManager)
        ensures
            r.inv(),
            r.state_spec() == GameState::Starting,
            !r.kill_spec(),
            r.score_record_spec() == 0,
            r.line_record_spec() == 0,
    {
        TetrisGameManager {
            game_state: GameState::Starting,
            menu_opt: MenuOpt::Idle,
            play_opt: PlayOpt::Idle,
            confirmed: false,
            board: Board::new(),
            counter: 0,
            score_record: 0,
            line_record: 0,
            kill_execution: false,
        }
    }

    pub fn set_menu_option(&mut self, opt: MenuOpt)
        requires
            old(self).inv(),
        ensures
            final(self).inv(),
            final(self).menu_opt_spec() == opt,
            final(self).state_spec() == old(self).state_spec(),
            final(self).board_spec() == old(self).board_spec(),
            final(self).play_opt_spec() == old(self).play_opt_spec(),
            final(self).confirmed_spec() == old(self).confirmed_spec(),
            final(self).kill_spec() == old(self).kill_spec(),
    {
        self.menu_opt = opt;
    }

    pub fn set_play_option(&mut self, opt: PlayOpt)
        requires
            old(self).inv(),
        ensures
            final(self).inv(),
            final(self).play_opt_spec() == opt,
            final(self).state_spec() == old(self).state_spec(),
            final(self).board_spec() == old(self).board_spec(),
            final(self).menu_opt_spec() == old(self).menu_opt_spec(),
            final(self).confirmed_spec() == old(self).confirmed_spec(),
            final(self).kill_spec() == old(self).kill_spec(),
    {
        self.play_opt = opt;
    }

    pub fn set_confirmation(&mut self, confirmed: bool)
        requires
            old(self).inv(),
        ensures
            final(self).inv(),
            final(self).confirmed_spec() == confirmed,
            final(self).state_spec() == old(self).state_spec(),
            final(self).board_spec() == old(self).board_spec(),
            final(self).kill_spec() == old(self).kill_spec(),
    {
        self.confirmed = confirmed;
    }

    /// Mark the whole application for termination; the next update
    /// reaches the terminal state whatever else is pending.
    pub fn force_quit(&mut self)
        requires
            old(self).inv(),
        ensures
            final(self).inv(),
            final(self).kill_spec(),
            final(self).state_spec() == old(self).state_spec(),
            final(self).board_spec() == old(self).board_spec(),
    {
        self.kill_execution = true;
    }

    /// How the board evolves over one play tick, from a session whose
    /// gravity counter stood at `counter`: gravity drops the piece once
    /// when its tick has come, and the pending input then shifts, rotates
    /// or drops it.
    pub open spec fn play_step(
        pre: Board,
        mid: Board,
        post: Board,
        counter: usize,
        opt: PlayOpt,
    ) -> bool {
        &&& if counter + 1 > GRAVITY_TICKS {
            Board::drop_step(pre, mid)
        } else {
            mid == pre
        }
        &&& match opt {
            PlayOpt::Left => Board::left_step(mid, post),
            PlayOpt::Right => Board::right_step(mid, post),
            PlayOpt::Rotate => Board::rotate_step(mid, post),
            PlayOpt::SoftDrop => Board::soft_step(mid, post),
            PlayOpt::HardDrop => Board::hard_step(mid, post),
            PlayOpt::Pause | PlayOpt::Quit | PlayOpt::Idle => post == mid,
        }
    }

    /// One lifecycle step: a pending force-quit reaches the terminal
    /// state at once, the terminal state absorbs every further step, and
    /// in play gravity drops the piece every few ticks while the pending
    /// input shifts, rotates or drops it.
    #[verifier::rlimit(100)]
    pub fn update(&mut self)
        requires
            old(self).inv(),
            old(self).state_spec() == GameState::Playing ==> {
                &&& old(self).board_spec().score_spec() <= SCORE_CAP - 20008
                &&& old(self).board_spec().lines_spec() <= LINE_CAP - 70
            },
        ensures
            final(self).inv(),
            final(self).kill_spec() == old(self).kill_spec(),
            old(self).kill_spec() ==> {
                &&& final(self).state_spec() == GameState::Quitting
                &&& final(self).board_spec() == old(self).board_spec()
                &&& final(self).score_record_spec() == old(self).score_record_spec()
                &&& final(self).line_record_spec() == old(self).line_record_spec()
                &&& final(self).menu_opt_spec() == old(self).menu_opt_spec()
                &&& final(self).play_opt_spec() == old(self).play_opt_spec()
                &&& final(self).confirmed_spec() == old(self).confirmed_spec()
            },
            old(self).state_spec() == GameState::Quitting ==> *final(self) == *old(self),
            !old(self).kill_spec() ==> match old(self).state_spec() {
                GameState::Starting => final(self).state_spec() == GameState::Playing
                    && final(self).board_spec() == old(self).board_spec() && final(self).score_record_spec() == old(self).score_record_spec() && final(self).line_record_spec() == old(self).line_record_spec(),
                GameState::Helping => final(self).state_spec() == GameState::Menu
                    && final(self).board_spec() == old(self).board_spec() && final(self).score_record_spec() == old(self).score_record_spec() && final(self).line_record_spec() == old(self).line_record_spec(),
                GameState::Pause => final(self).state_spec() == GameState::Playing
                    && final(self).board_spec() == old(self).board_spec() && final(self).score_record_spec() == old(self).score_record_spec() && final(self).line_record_spec() == old(self).line_record_spec(),
                GameState::Menu | GameState::Lost => {
                    &&& final(self).score_record_spec() == old(self).score_record_spec()
                    &&& final(self).line_record_spec() == old(self).line_record_spec()
                    &&& match old(self).menu_opt_spec() {
                        MenuOpt::Play => {
                            // a fresh round: an emptied grid, zeroed
                            // counters, the lookahead piece promoted and a
                            // spawn anchor
                            &&& final(self).state_spec() == GameState::Playing
                            &&& final(self).board_spec().inv()
                            &&& !final(self).board_spec().lost_spec()
                            &&& final(self).board_spec().score_spec() == 0
                            &&& final(self).board_spec().lines_spec() == 0
                            &&& final(self).board_spec().coord_spec() == (Coord { x: 5, y: 0 })
                            &&& (forall|i: int|
                                0 <= i < 200 ==> #[trigger] final(self).board_spec().cells_spec()[i]
                                    == BoardPossibilities::Empty)
                            &&& final(self).board_spec().brick_spec().coord_spec() == old(self).board_spec().next_brick_spec().coord_spec()
                            &&& final(self).board_spec().brick_spec().rotation_spec() == old(self).board_spec().next_brick_spec().rotation_spec()
                            &&& final(self).board_spec().brick_spec().color_spec() == old(self).board_spec().next_brick_spec().color_spec()
                            &&& final(self).board_spec().brick_spec().rotations_spec() == old(self).board_spec().next_brick_spec().rotations_spec()
                        },
                        MenuOpt::Quit => final(self).state_spec() == GameState::Quitting
                            && final(self).board_spec() == old(self).board_spec(),
                        MenuOpt::Help => final(self).state_spec() == GameState::Helping
                            && final(self).board_spec() == old(self).board_spec(),
                        MenuOpt::Idle => final(self).state_spec() == old(self).state_spec()
                            && final(self).board_spec() == old(self).board_spec(),
                    }
                },
                GameState::Playing => {
                    let gravity = old(self).counter_spec() + 1 > GRAVITY_TICKS;
                    let opt = old(self).play_opt_spec();
                    &&& final(self).menu_opt_spec() == old(self).menu_opt_spec()
                    &&& final(self).confirmed_spec() == old(self).confirmed_spec()
                    &&& final(self).board_spec().inv()
                    &&& exists|mid: Board| #[trigger] TetrisGameManager::play_step(
                        old(self).board_spec(),
                        mid,
                        final(self).board_spec(),
                        old(self).counter_spec(),
                        opt,
                    )
                    &&& final(self).counter_spec() == (if gravity || opt == PlayOpt::SoftDrop
                        || opt == PlayOpt::HardDrop {
                        0int
                    } else {
                        old(self).counter_spec() + 1
                    })
                    &&& final(self).state_spec() == (if final(self).board_spec().lost_spec() {
                        GameState::Lost
                    } else if opt == PlayOpt::Pause {
                        GameState::Pause
                    } else if opt == PlayOpt::Quit {
                        GameState::AskingToQuit
                    } else {
                        GameState::Playing
                    })
                    &&& if final(self).board_spec().lost_spec() || opt == PlayOpt::Quit {
                        &&& final(self).score_record_spec() == (if old(self).score_record_spec()
                            < final(self).board_spec().score_spec() {
                            final(self).board_spec().score_spec()
                        } else {
                            old(self).score_record_spec()
                        })
                        &&& final(self).line_record_spec() == (if old(self).line_record_spec()
                            < final(self).board_spec().lines_spec() {
                            final(self).board_spec().lines_spec()
                        } else {
                            old(self).line_record_spec()
                        })
                    } else {
                        final(self).score_record_spec() == old(self).score_record_spec() && final(self).line_record_spec() == old(self).line_record_spec()
                    }
                },
                GameState::AskingToQuit => {
                    &&& final(self).score_record_spec() == old(self).score_record_spec()
                    &&& final(self).line_record_spec() == old(self).line_record_spec()
                    &&& if old(self).confirmed_spec() {
                        // the round is abandoned: back to the menu over a
                        // fresh board
                        &&& final(self).state_spec() == GameState::Menu
                        &&& !final(self).board_spec().lost_spec()
                        &&& final(self).board_spec().score_spec() == 0
                        &&& final(self).board_spec().lines_spec() == 0
                        &&& (forall|i: int|
                            0 <= i < 200 ==> #[trigger] final(self).board_spec().cells_spec()[i]
                                == BoardPossibilities::Empty)
                    } else {
                        final(self).state_spec() == GameState::Playing && final(self).board_spec()
                            == old(self).board_spec()
                    }
                },
                _ => *final(self) == *old(self),
            },
    {
        if self.kill_execution {
            self.game_state = GameState::Quitting;
            return ;
        }
        match self.game_state {
            GameState::Starting => {
                self.game_state = GameState::Playing;
            },
            GameState::Helping => {
                self.game_state = GameState::Menu;
            },
            GameState::Pause => {
                self.game_state = GameState::Playing;
            },
            GameState::Menu | GameState::Lost => {
                match self.menu_opt {
                    MenuOpt::Play => {
                        self.board.reset_board();
                        self.game_state = GameState::Playing;
                    },
                    MenuOpt::Quit => {
                        self.game_state = GameState::Quitting;
                    },
                    MenuOpt::Help => {
                        self.game_state = GameState::Helping;
                    },
                    MenuOpt::Idle => (),
                }
            },
            GameState::Playing => {
                self.counter += 1;
                if self.counter > GRAVITY_TICKS {
                    let ghost before_drop = self.board;
                    self.board.drop();
                    self.counter = 0;
                    proof {
                        lemma_kept_count(before_drop.fixed_cells(), 20);
                    }
                }
                let ghost mid_board = self.board;
                match self.play_opt {
                    PlayOpt::Left => {
                        self.board.move_left();
                    },
                    PlayOpt::Right => {
                        self.board.move_right();
                    },
                    PlayOpt::Pause => (),
                    PlayOpt::Rotate => {
                        self.board.rotate();
                    },
                    PlayOpt::SoftDrop => {
                        self.board.soft_drop();
                        self.counter = 0;
                    },
                    PlayOpt::HardDrop => {
                        self.board.hard_drop();
                        self.counter = 0;
                    },
                    PlayOpt::Quit => {
                        self.update_record();
                    },
                    PlayOpt::Idle => (),
                }
                proof {
                    assert(TetrisGameManager::play_step(
                        old(self).board_spec(),
                        mid_board,
                        self.board,
                        old(self).counter_spec(),
                        old(self).play_opt_spec(),
                    ));
                }
                let defeated = self.board.defeated();
                if defeated {
                    self.game_state = GameState::Lost;
                    self.update_record();
                } else if matches!(self.play_opt, PlayOpt::Pause) {
                    self.game_state = GameState::Pause;
                } else if matches!(self.play_opt, PlayOpt::Quit) {
                    self.game_state = GameState::AskingToQuit;
                }
                proof {
                    assert(exists|mid: Board| #[trigger] TetrisGameManager::play_step(
                        old(self).board_spec(),
                        mid,
                        self.board,
                        old(self).counter_spec(),
                        old(self).play_opt_spec(),
                    ));
                }
            },
            GameState::AskingToQuit => {
                if self.confirmed {
                    self.board.reset_board();
                    self.game_state = GameState::Menu;
                } else {
                    self.game_state = GameState::Playing;
                }
            },
            GameState::Quitting => (),
            _ => (),
        }
    }

    /// Keep the best score and line count seen so far.
    fn update_record(&mut self)
        requires
            old(self).inv(),
        ensures
            final(self).inv(),
            final(self).state_spec() == old(self).state_spec(),
            final(self).board_spec() == old(self).board_spec(),
            final(self).kill_spec() == old(self).kill_spec(),
            final(self).play_opt_spec() == old(self).play_opt_spec(),
            final(self).menu_opt_spec() == old(self).menu_opt_spec(),
            final(self).confirmed_spec() == old(self).confirmed_spec(),
            final(self).counter_spec() == old(self).counter_spec(),
            final(self).score_record_spec() == (if old(self).score_record_spec() < old(self).board_spec().score_spec() {
                old(self).board_spec().score_spec()
            } else {
                old(self).score_record_spec()
            }),
            final(self).line_record_spec() == (if old(self).line_record_spec() < old(self).board_spec().lines_spec() {
                old(self).board_spec().lines_spec()
            } else {
                old(self).line_record_spec()
            }),
    {
        let score = self.board.consult_score();
        if self.score_record < score {
            self.score_record = score;
        }
        let lines = self.board.consult_lines_completed();
        if self.line_record < lines {
            self.line_record = lines;
        }
    }

    pub fn ended(&self) -> (r: bool)
        ensures
            r == (self.state_spec() == GameState::Quitting),
    {
        matches!(self.game_state, GameState::Quitting)
    }

    pub fn kill_execution(&self) -> (r: bool)
        ensures
            r == self.kill_spec(),
    {
        self.kill_execution
    }

    pub fn reset(&mut self)
        requires
            old(self).inv(),
        ensures
            final(self).inv(),
            final(self).state_spec() == GameState::Starting,
    {
        self.board.reset_board();
        self.game_state = GameState::Starting;
    }

    pub fn consult_state(&self) -> (r: GameState)
        ensures
            r == self.state_spec(),
    {
        self.game_state
    }

    pub fn consult_score_record(&self) -> (r: u32)
        ensures
            r == self.score_record_spec(),
    {
        self.score_record
    }

    pub fn consult_line_record(&self) -> (r: u32)
        ensures
            r == self.line_record_spec(),
    {
        self.line_record
    }

    pub fn consult_board(&self) -> (r: &Board)
        ensures
            *r == self.board_spec(),
    {
        &self.board
    }

    pub fn menu_guide() -> String {
        "ENTER or p - Play\n? - Display game rules\nESC or q - Go to main menu\n".to_string()
    }

    pub fn play_guide() -> String {
        "a or h - Move left\nd or l - Move right\nw or k - Rotate\ns or j - Soft drop\nSPACE - Hard drop\np - Pause\nESC or q - Go to menu".to_string()
    }
}

} // verus!
