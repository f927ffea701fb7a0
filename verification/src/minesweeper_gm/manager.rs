//! The minesweeper session lifecycle: the play inputs move the cursor,
//! mark a square or reveal it; the round ends in a win when everything
//! safe is opened and in a loss when a bomb is revealed.

use vstd::prelude::*;

use crate::game_manager::{Difficult, Directions, GameState};
use crate::minesweeper_gm::board::{Board, Square};

verus! {

#[derive(Clone, Copy, PartialEq, Eq, Structural, Debug)]
pub enum MenuOpt {
    Play(Difficult),
    Quit,
    Help,
    Idle,
}

#[derive(Clone, Copy, PartialEq, Eq, Structural, Debug)]
pub enum PlayOpt {
    Reveal,
    Mark,
    Direction(Directions),
    Quit,
    Idle,
}

pub struct MinesweeperGameManager {
    game_state: GameState,
    menu_opt: MenuOpt,
    play_opt: PlayOpt,
    confirmed: bool,
    difficult: Difficult,
    board: Board,
    record: usize,
    kill_execution: bool,
}

impl MinesweeperGameManager {
    pub closed spec fn state_spec(self) -> GameState {
        self.game_state
    }

    pub closed spec fn menu_opt_spec(self) -> MenuOpt {
        self.menu_opt
    }

    pub closed spec fn play_opt_spec(self) -> PlayOpt {
        self.play_opt
    }

    pub closed spec fn confirmed_spec(self) -> bool {
        self.confirmed
    }

    pub closed spec fn difficult_spec(self) -> Difficult {
        self.difficult
    }

    pub closed spec fn board_spec(self) -> Board {
        self.board
    }

    pub closed spec fn record_spec(self) -> usize {
        self.record
    }

    pub closed spec fn kill_spec(self) -> bool {
        self.kill_execution
    }

    pub open spec fn inv(self) -> bool {
        self.board_spec().inv()
    }

    pub fn new() -> (r: MinesweeperGameManager)
        ensures
            r.inv(),
            r.state_spec() == GameState::Starting,
            !r.kill_spec(),
            r.record_spec() == 0,
    {
        MinesweeperGameManager {
            game_state: GameState::Starting,
            menu_opt: MenuOpt::Idle,
            play_opt: PlayOpt::Idle,
            confirmed: false,
            difficult: Difficult::Medium,
            board: Board::new(),
            record: 0,
            kill_execution: false,
        }
    }

    pub fn set_menu_option(&mut self, opt: MenuOpt)
        requires
            old(self).inv(),
        ensures
            final(self).inv(),
            final(self).menu_opt_spec() == opt,
            final(self).state_spec() == old(self).state_spec(),
            final(self).board_spec() == old(self).board_spec(),
            final(self).play_opt_spec() == old(self).play_opt_spec(),
            final(self).confirmed_spec() == old(self).confirmed_spec(),
            final(self).record_spec() == old(self).record_spec(),
            final(self).kill_spec() == old(self).kill_spec(),
    {
        self.menu_opt = opt;
    }

    pub fn set_play_option(&mut self, opt: PlayOpt)
        requires
            old(self).inv(),
        ensures
            final(self).inv(),
            final(self).play_opt_spec() == opt,
            final(self).state_spec() == old(self).state_spec(),
            final(self).board_spec() == old(self).board_spec(),
            final(self).menu_opt_spec() == old(self).menu_opt_spec(),
            final(self).confirmed_spec() == old(self).confirmed_spec(),
            final(self).record_spec() == old(self).record_spec(),
            final(self).kill_spec() == old(self).kill_spec(),
    {
        self.play_opt = opt;
    }

    pub fn set_confirmation(&mut self, confirmed: bool)
        requires
            old(self).inv(),
        ensures
            final(self).inv(),
            final(self).confirmed_spec() == confirmed,
            final(self).state_spec() == old(self).state_spec(),
            final(self).board_spec() == old(self).board_spec(),
            final(self).kill_spec() == old(self).kill_spec(),
    {
        self.confirmed = confirmed;
    }

    /// Mark the whole application for termination; the next update
    /// reaches the terminal state whatever else is pending.
    pub fn force_quit(&mut self)
        requires
            old(self).inv(),
        ensures
            final(self).inv(),
            final(self).kill_spec(),
            final(self).state_spec() == old(self).state_spec(),
            final(self).board_spec() == old(self).board_spec(),
    {
        self.kill_execution = true;
    }

    /// One lifecycle step: a pending force-quit reaches the terminal
    /// state at once, the terminal state absorbs every further step, and
    /// in play the chosen action moves the cursor, marks or reveals.
    pub fn update(&mut self)
        requires
            old(self).inv(),
            old(self).state_spec() == GameState::Playing ==> {
                &&& old(self).board_spec().score_spec() + old(self).board_spec().cells_spec().len()
                    <= usize::MAX
                &&& i32::MIN < old(self).board_spec().bombs_spec() < i32::MAX
            },
        ensures
            final(self).inv(),
            final(self).kill_spec() == old(self).kill_spec(),
            old(self).kill_spec() ==> {
                &&& final(self).state_spec() == GameState::Quitting
                &&& final(self).board_spec() == old(self).board_spec()
                &&& final(self).record_spec() == old(self).record_spec()
                &&& final(self).menu_opt_spec() == old(self).menu_opt_spec()
                &&& final(self).play_opt_spec() == old(self).play_opt_spec()
                &&& final(self).confirmed_spec() == old(self).confirmed_spec()
                &&& final(self).difficult_spec() == old(self).difficult_spec()
            },
            old(self).state_spec() == GameState::Quitting ==> *final(self) == *old(self),
            !old(self).kill_spec() ==> match old(self).state_spec() {
                GameState::Starting => final(self).state_spec() == GameState::Playing
                    && final(self).board_spec() == old(self).board_spec() && final(self).record_spec() == old(self).record_spec(),
                GameState::Helping => final(self).state_spec() == GameState::Menu
                    && final(self).board_spec() == old(self).board_spec() && final(self).record_spec() == old(self).record_spec(),
                GameState::Menu | GameState::Won | GameState::Lost => {
                    &&& final(self).record_spec() == old(self).record_spec()
                    &&& match old(self).menu_opt_spec() {
                        MenuOpt::Play(difficult) => final(self).state_spec() == GameState::Playing
                            && final(self).board_spec().inv() && Board::fresh_round(
                            final(self).board_spec(),
                            difficult,
                        ) && final(self).difficult_spec() == difficult,
                        MenuOpt::Quit => final(self).state_spec() == GameState::Quitting
                            && final(self).board_spec() == old(self).board_spec(),
                        MenuOpt::Help => final(self).state_spec() == GameState::Helping
                            && final(self).board_spec() == old(self).board_spec(),
                        MenuOpt::Idle => final(self).state_spec() == old(self).state_spec()
                            && final(self).board_spec() == old(self).board_spec(),
                    }
                },
                GameState::Playing => match old(self).play_opt_spec() {
                    PlayOpt::Reveal => {
                        &&& final(self).board_spec().inv()
                        &&& Board::reveal_step(old(self).board_spec(), final(self).board_spec())
                        &&& final(self).state_spec() == (if final(self).board_spec().won_spec() {
                            GameState::Won
                        } else if final(self).board_spec().lost_spec() {
                            GameState::Lost
                        } else {
                            GameState::Playing
                        })
                        &&& final(self).record_spec() == (if old(self).record_spec() < final(self).board_spec().score_spec() {
                            final(self).board_spec().score_spec()
                        } else {
                            old(self).record_spec()
                        })
                        &&& (old(self).board_spec().zero_closed() ==> final(self).board_spec().zero_closed())
                    },
                    PlayOpt::Mark => final(self).state_spec() == GameState::Playing
                        && Board::mark_step(old(self).board_spec(), final(self).board_spec())
                        && final(self).record_spec() == old(self).record_spec(),
                    PlayOpt::Direction(direction) => final(self).state_spec() == GameState::Playing
                        && Board::cursor_step(
                        old(self).board_spec(),
                        final(self).board_spec(),
                        direction,
                    ) && final(self).record_spec() == old(self).record_spec(),
                    PlayOpt::Quit => final(self).state_spec() == GameState::AskingToQuit
                        && final(self).board_spec() == old(self).board_spec() && final(self).record_spec() == old(self).record_spec(),
                    PlayOpt::Idle => final(self).state_spec() == GameState::Playing
                        && final(self).board_spec() == old(self).board_spec() && final(self).record_spec() == old(self).record_spec(),
                },
                GameState::AskingToQuit => {
                    &&& final(self).record_spec() == old(self).record_spec()
                    &&& if old(self).confirmed_spec() {
                        // the round is abandoned: back to the menu over a
                        // board whose squares are all closed again, with
                        // the cursor hidden
                        &&& final(self).state_spec() == GameState::Menu
                        &&& final(self).board_spec().height_spec() == old(self).board_spec().height_spec()
                        &&& final(self).board_spec().width_spec() == old(self).board_spec().width_spec()
                        &&& final(self).board_spec().cursor_hidden_spec()
                        &&& final(self).board_spec().revealed_bomb_spec() == old(self).board_spec().revealed_bomb_spec()
                        &&& forall|l: int, c: int|
                            final(self).board_spec().in_bounds_spec(l, c)
                                ==> #[trigger] final(self).board_spec().cell(l, c)
                                == Square::Close(0)
                    } else {
                        final(self).state_spec() == GameState::Playing && final(self).board_spec()
                            == old(self).board_spec()
                    }
                },
                _ => *final(self) == *old(self),
            },
    {
        if self.kill_execution {
            self.game_state = GameState::Quitting;
            return ;
        }
        match self.game_state {
            GameState::Starting => {
                self.game_state = GameState::Playing;
            },
            GameState::Helping => {
                self.game_state = GameState::Menu;
            },
            GameState::Menu | GameState::Won | GameState::Lost => {
                match self.menu_opt {
                    MenuOpt::Play(difficult) => {
                        self.difficult = difficult;
                        self.board.reset(&difficult);
                        let ghost after_reset = self.board;
                        self.game_state = GameState::Playing;
                        proof {
                            assert(self.board == after_reset);
                            assert(self.board_spec().zero_closed());
                        }
                    },
                    MenuOpt::Quit => {
                        self.game_state = GameState::Quitting;
                    },
                    MenuOpt::Help => {
                        self.game_state = GameState::Helping;
                    },
                    MenuOpt::Idle => (),
                }
            },
            GameState::Playing => {
                match self.play_opt {
                    PlayOpt::Reveal => {
                        self.board.reveal_square();
                        let ghost revealed = self.board;
                        proof {
                            if old(self).board_spec().zero_closed() {
                                let l = old(self).board_spec().cursor_line_spec() as int;
                                let c = old(self).board_spec().cursor_column_spec() as int;
                                match old(self).board_spec().cell(l, c) {
                                    Square::Close(_) => {},
                                    _ => {
                                        Board::lemma_zero_closed_frame(
                                            old(self).board_spec(),
                                            revealed,
                                        );
                                    },
                                }
                            }
                            assert(old(self).board_spec().zero_closed() ==> revealed.zero_closed());
                        }
                        let won = self.board.won();
                        let lost = self.board.lost();
                        if won {
                            self.game_state = GameState::Won;
                        } else if lost {
                            self.game_state = GameState::Lost;
                        }
                        let score = self.board.score();
                        if self.record < score {
                            self.record = score;
                        }
                        proof {
                            assert(self.board == revealed);
                            assert(old(self).board_spec().zero_closed()
                                ==> self.board_spec().zero_closed());
                        }
                    },
                    PlayOpt::Mark => {
                        self.board.mark();
                    },
                    PlayOpt::Direction(direction) => {
                        self.board.move_cursor(&direction);
                    },
                    PlayOpt::Quit => {
                        self.game_state = GameState::AskingToQuit;
                    },
                    PlayOpt::Idle => (),
                }
            },
            GameState::AskingToQuit => {
                if self.confirmed {
                    self.board.clear();
                    self.game_state = GameState::Menu;
                } else {
                    self.game_state = GameState::Playing;
                }
            },
            GameState::Quitting => (),
            _ => (),
        }
    }

    pub fn ended(&self) -> (r: bool)
        ensures
            r == (self.state_spec() == GameState::Quitting),
    {
        matches!(self.game_state, GameState::Quitting)
    }

    pub fn kill_execution(&self) -> (r: bool)
        ensures
            r == self.kill_spec(),
    {
        self.kill_execution
    }

    pub fn reset(&mut self)
        requires
            old(self).inv(),
        ensures
            final(self).inv(),
            final(self).state_spec() == GameState::Starting,
    {
        let difficult = self.difficult;
        self.board.reset(&difficult);
        self.game_state = GameState::Starting;
    }

    pub fn consult_state(&self) -> (r: GameState)
        ensures
            r == self.state_spec(),
    {
        self.game_state
    }

    pub fn consult_record(&self) -> (r: usize)
        ensures
            r == self.record_spec(),
    {
        self.record
    }

    pub fn consult_board(&self) -> (r: &Board)
        ensures
            *r == self.board_spec(),
    {
        &self.board
    }

    pub fn menu_guide() -> String {
        "ENTER - Play last difficult played\ne - Play easy game\nm - Play medium game\nh - Play hard game\n? - Display game rules\nESC or q - Go to main menu\n".to_string()
    }

    pub fn play_guide() -> String {
        "ENTER or r - Reveal square\n! or m - Mark square\nw or k - Move up\ns or j - Move down\nd or l - Move right\na or h - Move left\nESC or q - Go to menu".to_string()
    }
}

} // verus!
