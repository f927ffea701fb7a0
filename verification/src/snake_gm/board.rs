//! The snake simulation: a rectangular grid of cells, an ordered body
//! sequence (head at the front), and a score that always equals the body
//! length. Moving against a wall or into the body marks the head cell dead
//! and freezes the board; eating food grows the body by one and spawns a
//! fresh food cell.

use vstd::prelude::*;
use vstd::set_lib::{lemma_int_range, lemma_len_subset, set_int_range};

use crate::game_manager::{Coord, Directions};
use crate::rng::random_below;

use std::collections::VecDeque;

verus! {

/// What one grid cell holds.
#[derive(Clone, Copy, PartialEq, Eq, Structural, Debug)]
pub enum BoardPossibilities {
    SnakeBody,
    SnakeHead,
    SnakeDead,
    Food,
    Empty,
}

pub struct Board {
    board: Vec<BoardPossibilities>,
    height: usize,
    width: usize,
    score: u32,
    snake: VecDeque<Coord>,
}

pub open spec fn is_snake_cell(p: BoardPossibilities) -> bool {
    p == BoardPossibilities::SnakeBody || p == BoardPossibilities::SnakeHead
        || p == BoardPossibilities::SnakeDead
}

/// One food cell appeared on a cell of `pre` that was empty; every other
/// cell of `post` is as it was in `pre`.
pub open spec fn food_spawned(pre: Board, post: Board, l: int, c: int) -> bool {
    &&& 0 <= l < pre.height_spec()
    &&& 0 <= c < pre.width_spec()
    &&& pre.cell_spec(l, c) == BoardPossibilities::Empty
    &&& post.cell_spec(l, c) == BoardPossibilities::Food
    &&& forall|l2: int, c2: int|
        0 <= l2 < pre.height_spec() && 0 <= c2 < pre.width_spec() && !(l2 == l && c2 == c)
            ==> #[trigger] post.cell_spec(l2, c2) == pre.cell_spec(l2, c2)
}

/// In a step that ate food: the cell at `(l, c)` was empty and now holds
/// the fresh food, and every cell away from the old head, the new head
/// and that cell is unchanged.
pub open spec fn food_respawned(
    pre: Board,
    post: Board,
    head: Coord,
    nh: Coord,
    l: int,
    c: int,
) -> bool {
    &&& 0 <= l < pre.height_spec()
    &&& 0 <= c < pre.width_spec()
    &&& !(l == head.y && c == head.x)
    &&& !(l == nh.y && c == nh.x)
    &&& pre.cell_spec(l, c) == BoardPossibilities::Empty
    &&& post.cell_spec(l, c) == BoardPossibilities::Food
    &&& forall|l2: int, c2: int|
        0 <= l2 < pre.height_spec() && 0 <= c2 < pre.width_spec() && !(l2 == l && c2 == c) && !(l2
            == head.y && c2 == head.x) && !(l2 == nh.y && c2 == nh.x)
            ==> #[trigger] post.cell_spec(l2, c2) == pre.cell_spec(l2, c2)
}

/// Two distinct positions of one grid have distinct row-major indices.
proof fn lemma_grid_index_injective(w: int, l1: int, c1: int, l2: int, c2: int)
    requires
        0 <= c1 < w,
        0 <= c2 < w,
        0 <= l1,
        0 <= l2,
        l1 * w + c1 == l2 * w + c2,
    ensures
        l1 == l2 && c1 == c2,
{
    assert(l1 == l2 && c1 == c2) by (nonlinear_arith)
        requires
            0 <= c1 < w,
            0 <= c2 < w,
            0 <= l1,
            0 <= l2,
            l1 * w + c1 == l2 * w + c2,
    ;
}

/// A sequence of pairwise distinct positions of a `width` by `height` grid
/// is no longer than the number of grid cells.
proof fn lemma_distinct_coords_bounded(s: Seq<Coord>, width: int, height: int)
    requires
        0 < width,
        0 < height,
        forall|i: int|
            0 <= i < s.len() ==> (#[trigger] s[i]).x < width && s[i].y < height,
        forall|i: int, j: int| 0 <= i < j < s.len() ==> s[i] != s[j],
    ensures
        s.len() <= width * height,
{
    let t = s.map_values(|c: Coord| c.y as int * width + c.x as int);
    assert forall|i: int, j: int| 0 <= i < j < t.len() implies t[i] != t[j] by {
        if t[i] == t[j] {
            lemma_grid_index_injective(
                width,
                s[i].y as int,
                s[i].x as int,
                s[j].y as int,
                s[j].x as int,
            );
        }
    }
    assert(t.no_duplicates());
    t.unique_seq_to_set();
    assert forall|e: int| t.to_set().contains(e) implies set_int_range(
        0,
        width * height,
    ).contains(e) by {
        let i = choose|i: int| 0 <= i < t.len() && t[i] == e;
        let yi = s[i].y as int;
        let xi = s[i].x as int;
        assert(0 <= yi * width + xi && yi * width + xi < width * height) by (nonlinear_arith)
            requires
                0 <= xi < width,
                0 <= yi < height,
        ;
    }
    lemma_int_range(0, width * height);
    lemma_len_subset(t.to_set(), set_int_range(0, width * height));
}

impl Board {
    pub closed spec fn height_spec(self) -> usize {
        self.height
    }

    pub closed spec fn width_spec(self) -> usize {
        self.width
    }

    pub closed spec fn score_spec(self) -> u32 {
        self.score
    }

    /// The body, head first.
    pub closed spec fn snake_spec(self) -> Seq<Coord> {
        self.snake@
    }

    pub closed spec fn cell_spec(self, line: int, column: int) -> BoardPossibilities {
        self.board@[line * self.width + column]
    }

    pub open spec fn in_grid(self, c: Coord) -> bool {
        c.x < self.width_spec() && c.y < self.height_spec()
    }

    /// Some body segment sits on the given position.
    pub open spec fn occupied(self, line: int, column: int) -> bool {
        exists|i: int|
            0 <= i < self.snake_spec().len() && (#[trigger] self.snake_spec()[i]).y == line
                && self.snake_spec()[i].x == column
    }

    /// The grid dimensions the board was built with are workable: at least
    /// three columns and one line, and few enough cells for the score to
    /// fit its type.
    pub closed spec fn dims_ok(self) -> bool {
        &&& 3 <= self.width
        &&& 1 <= self.height
        &&& self.width * self.height <= u32::MAX
        &&& self.board@.len() == self.width * self.height
    }

    /// The board's well-formedness: the grid marks exactly the body cells,
    /// the body positions are pairwise distinct, and the score equals the
    /// body length.
    pub closed spec fn inv(self) -> bool {
        &&& self.dims_ok()
        &&& 1 <= self.snake@.len()
        &&& self.score == self.snake@.len()
        &&& forall|i: int| 0 <= i < self.snake@.len() ==> self.in_grid(#[trigger] self.snake@[i])
        &&& forall|i: int, j: int| 0 <= i < j < self.snake@.len() ==> self.snake@[i] != self.snake@[j]
        &&& is_snake_cell(self.cell_spec(self.snake@[0].y as int, self.snake@[0].x as int))
        &&& self.cell_spec(self.snake@[0].y as int, self.snake@[0].x as int)
            != BoardPossibilities::SnakeBody
        &&& forall|i: int|
            1 <= i < self.snake@.len() ==> self.cell_spec(
                (#[trigger] self.snake@[i]).y as int,
                self.snake@[i].x as int,
            ) == BoardPossibilities::SnakeBody
        &&& forall|l: int, c: int|
            0 <= l < self.height && 0 <= c < self.width ==> (is_snake_cell(
                #[trigger] self.cell_spec(l, c),
            ) <==> self.occupied(l, c))
        &&& forall|l: int, c: int|
            0 <= l < self.height && 0 <= c < self.width && #[trigger] self.cell_spec(l, c)
                == BoardPossibilities::SnakeDead ==> l == self.snake@[0].y && c == self.snake@[0].x
    }

    /// A well-formed board has workable dimensions.
    pub proof fn lemma_inv_dims(self)
        requires
            self.inv(),
        ensures
            self.dims_ok(),
    {
    }

    /// The snake is dead when its head cell carries the dead marker.
    pub open spec fn snake_died_spec(self) -> bool {
        self.cell_spec(self.snake_spec()[0].y as int, self.snake_spec()[0].x as int)
            == BoardPossibilities::SnakeDead
    }

    pub open spec fn won_spec(self) -> bool {
        self.score_spec() == self.width_spec() * self.height_spec()
    }

    /// Whether some grid cell is empty.
    pub open spec fn has_empty_spec(self) -> bool {
        exists|l: int, c: int|
            0 <= l < self.height_spec() && 0 <= c < self.width_spec() && #[trigger] self.cell_spec(
                l,
                c,
            ) == BoardPossibilities::Empty
    }

    /// How one `move_snake` call relates the board before it to the board
    /// after it, body and grid cells alike.
    pub open spec fn move_step(pre: Board, post: Board, direction: Directions) -> bool {
        let head = pre.snake_spec()[0];
        let nh = Board::candidate(head, direction);
        &&& post.height_spec() == pre.height_spec()
        &&& post.width_spec() == pre.width_spec()
        &&& post.score_spec() == post.snake_spec().len()
        &&& if !pre.candidate_ok(head, direction) || pre.cell_spec(nh.y as int, nh.x as int)
            == BoardPossibilities::SnakeBody {
            // Death: the head cell takes the dead marker and every other
            // cell, the body and the score stay exactly as they were.
            &&& post.snake_spec() == pre.snake_spec()
            &&& post.score_spec() == pre.score_spec()
            &&& post.snake_died_spec()
            &&& post.cell_spec(head.y as int, head.x as int) == BoardPossibilities::SnakeDead
            &&& forall|l: int, c: int|
                0 <= l < pre.height_spec() && 0 <= c < pre.width_spec() && !(l == head.y && c
                    == head.x) ==> #[trigger] post.cell_spec(l, c) == pre.cell_spec(l, c)
        } else if pre.cell_spec(nh.y as int, nh.x as int) == BoardPossibilities::Food {
            // Growth: the body grows at the head, the entered cell shows
            // the head and the vacated head cell a body segment; one
            // previously empty cell becomes the fresh food, when any cell
            // is empty, and nothing else changes.
            &&& post.snake_spec() == seq![nh] + pre.snake_spec()
            &&& post.score_spec() == pre.score_spec() + 1
            &&& !post.snake_died_spec()
            &&& post.cell_spec(nh.y as int, nh.x as int) == BoardPossibilities::SnakeHead
            &&& post.cell_spec(head.y as int, head.x as int) == BoardPossibilities::SnakeBody
            &&& if pre.has_empty_spec() {
                exists|l: int, c: int| food_respawned(pre, post, head, nh, l, c)
            } else {
                forall|l: int, c: int|
                    0 <= l < pre.height_spec() && 0 <= c < pre.width_spec() && !(l == head.y && c
                        == head.x) && !(l == nh.y && c == nh.x) ==> #[trigger] post.cell_spec(l, c)
                        == pre.cell_spec(l, c)
            }
        } else {
            // A plain advance: the body shifts by one cell, the entered
            // cell shows the head, the vacated head cell a body segment,
            // the vacated tail cell becomes empty, and nothing else
            // changes.
            let tail = pre.snake_spec()[pre.snake_spec().len() - 1];
            &&& post.snake_spec() == seq![nh] + pre.snake_spec().drop_last()
            &&& post.score_spec() == pre.score_spec()
            &&& !post.snake_died_spec()
            &&& post.cell_spec(nh.y as int, nh.x as int) == BoardPossibilities::SnakeHead
            &&& post.cell_spec(tail.y as int, tail.x as int) == BoardPossibilities::Empty
            &&& (tail != head ==> post.cell_spec(head.y as int, head.x as int)
                == BoardPossibilities::SnakeBody)
            &&& forall|l: int, c: int|
                0 <= l < pre.height_spec() && 0 <= c < pre.width_spec() && !(l == head.y && c
                    == head.x) && !(l == nh.y && c == nh.x) && !(l == tail.y && c == tail.x)
                    ==> #[trigger] post.cell_spec(l, c) == pre.cell_spec(l, c)
        }
    }

    /// How `reset_board` relates a board to the fresh round it leaves: a
    /// one-segment snake in the middle of the grid, a single food cell to
    /// its right, and every other cell empty.
    pub open spec fn reset_step(pre: Board, post: Board) -> bool {
        let head = Coord { x: pre.width_spec() / 3, y: pre.height_spec() / 2 };
        let fl = pre.height_spec() as int / 2;
        let fc = pre.width_spec() as int - pre.width_spec() as int / 3;
        &&& post.height_spec() == pre.height_spec()
        &&& post.width_spec() == pre.width_spec()
        &&& post.score_spec() == 1
        &&& post.snake_spec() =~= seq![head]
        &&& !post.snake_died_spec()
        &&& post.cell_spec(head.y as int, head.x as int) == BoardPossibilities::SnakeHead
        &&& post.cell_spec(fl as int, fc as int) == BoardPossibilities::Food
        &&& forall|l: int, c: int|
            0 <= l < pre.height_spec() && 0 <= c < pre.width_spec() && !(l == head.y && c
                == head.x) && !(l == fl && c == fc) ==> #[trigger] post.cell_spec(l, c)
                == BoardPossibilities::Empty
    }

    /// Whether stepping the head toward `direction` stays on the grid.
    pub open spec fn candidate_ok(self, head: Coord, direction: Directions) -> bool {
        match direction {
            Directions::Up => head.y >= 1,
            Directions::Down => head.y + 1 < self.height_spec(),
            Directions::Left => head.x >= 1,
            Directions::Right => head.x + 1 < self.width_spec(),
        }
    }

    /// The head position one step toward `direction`.
    pub open spec fn candidate(head: Coord, direction: Directions) -> Coord {
        match direction {
            Directions::Up => Coord { x: head.x, y: (head.y - 1) as usize },
            Directions::Down => Coord { x: head.x, y: (head.y + 1) as usize },
            Directions::Left => Coord { x: (head.x - 1) as usize, y: head.y },
            Directions::Right => Coord { x: (head.x + 1) as usize, y: head.y },
        }
    }

    fn set_cell(&mut self, line: usize, column: usize, value: BoardPossibilities)
        requires
            old(self).dims_ok(),
            line < old(self).height_spec(),
            column < old(self).width_spec(),
        ensures
            final(self).dims_ok(),
            final(self).height == old(self).height,
            final(self).width == old(self).width,
            final(self).score == old(self).score,
            final(self).snake == old(self).snake,
            forall|l: int, c: int|
                0 <= l < final(self).height && 0 <= c < final(self).width
                    ==> #[trigger] final(self).cell_spec(l, c) == (if l == line && c == column {
                    value
                } else {
                    old(self).cell_spec(l, c)
                }),
    {
        proof {
            assert(line * self.width + column < self.width * self.height) by (nonlinear_arith)
                requires
                    line < self.height,
                    column < self.width,
                    0 <= line,
                    0 <= column,
                    0 < self.width,
            ;
        }
        let index: usize = line * self.width + column;
        self.board[index] = value;
        proof {
            assert forall|l: int, c: int|
                0 <= l < self.height && 0 <= c < self.width implies #[trigger] self.cell_spec(l, c)
                == (if l == line && c == column {
                value
            } else {
                old(self).cell_spec(l, c)
            }) by {
                assert(l * self.width + c < self.width * self.height) by (nonlinear_arith)
                    requires
                        0 <= l < self.height,
                        0 <= c < self.width,
                        0 < self.width,
                ;
                if l * self.width + c == index {
                    lemma_grid_index_injective(
                        self.width as int,
                        l,
                        c,
                        line as int,
                        column as int,
                    );
                }
            }
        }
    }

    /// Read one grid cell.
    pub fn consult_board(&self, line: usize, column: usize) -> (r: &BoardPossibilities)
        requires
            self.inv(),
            line < self.height_spec(),
            column < self.width_spec(),
        ensures
            *r == self.cell_spec(line as int, column as int),
    {
        proof {
            assert(line * self.width + column < self.width * self.height) by (nonlinear_arith)
                requires
                    line < self.height,
                    column < self.width,
                    0 <= line,
                    0 <= column,
                    0 < self.width,
            ;
        }
        &self.board[line * self.width + column]
    }

    /// The current score; it always equals the body length.
    pub fn consult_score(&self) -> (r: u32)
        ensures
            r == self.score_spec(),
    {
        self.score
    }

    /// The body length, head included.
    pub fn snake_length(&self) -> (r: usize)
        ensures
            r == self.snake_spec().len(),
    {
        self.snake.len()
    }

    /// True when the head sits on the dead marker.
    pub fn snake_died(&self) -> (r: bool)
        requires
            self.inv(),
        ensures
            r == self.snake_died_spec(),
    {
        let coord: Coord = self.snake[0];
        let cell = *self.consult_board(coord.y, coord.x);
        matches!(cell, BoardPossibilities::SnakeDead)
    }

    /// True when the body fills the whole grid.
    pub fn won(&self) -> (r: bool)
        requires
            self.inv(),
        ensures
            r == self.won_spec(),
    {
        self.score == (self.height * self.width) as u32
    }

    pub fn new(board_height: usize, board_width: usize) -> (r: Board)
        requires
            1 <= board_height,
            3 <= board_width,
            board_width * board_height <= u32::MAX,
        ensures
            r.inv(),
            r.height_spec() == board_height,
            r.width_spec() == board_width,
            r.score_spec() == 1,
            r.snake_spec() =~= seq![
                Coord { x: board_width / 3, y: board_height / 2 },
            ],
            !r.snake_died_spec(),
            r.cell_spec(board_height as int / 2, board_width as int / 3)
                == BoardPossibilities::SnakeHead,
            r.cell_spec(
                board_height as int / 2,
                board_width as int - board_width as int / 3,
            ) == BoardPossibilities::Food,
            forall|l: int, c: int|
                0 <= l < board_height && 0 <= c < board_width && !(l == board_height as int / 2 && c
                    == board_width as int / 3) && !(l == board_height as int / 2 && c
                    == board_width as int - board_width as int / 3) ==> #[trigger] r.cell_spec(
                    l,
                    c,
                ) == BoardPossibilities::Empty,
    {
        proof {
            assert(board_width * board_height == board_height * board_width) by (nonlinear_arith);
        }
        let mut board = Board {
            board: Vec::new(),
            height: board_height,
            width: board_width,
            score: 1,
            snake: VecDeque::new(),
        };
        let total: usize = board_height * board_width;
        let mut i: usize = 0;
        while i < total
            invariant
                board.board@.len() == i,
                i <= total,
                board.height == board_height,
                board.width == board_width,
                board.score == 1,
                board.snake@.len() == 0,
            decreases total - i,
        {
            board.board.push(BoardPossibilities::Empty);
            i += 1;
        }
        proof {
            assert(board.width * board.height == total) by (nonlinear_arith)
                requires
                    board.width == board_width,
                    board.height == board_height,
                    total == board_height * board_width,
            ;
        }
        board.reset_board();
        board
    }

    /// Put the board back in its starting state: a one-segment snake in the
    /// middle of the grid and a single food cell to its right.
    pub fn reset_board(&mut self)
        requires
            old(self).dims_ok(),
        ensures
            final(self).inv(),
            Board::reset_step(*old(self), *final(self)),
            final(self).height_spec() == old(self).height_spec(),
            final(self).width_spec() == old(self).width_spec(),
            final(self).score_spec() == 1,
            final(self).snake_spec().len() == 1,
            final(self).snake_spec()[0] == (Coord {
                x: old(self).width_spec() / 3,
                y: old(self).height_spec() / 2,
            }),
            !final(self).snake_died_spec(),
    {
        self.score = 1;
        self.snake.clear();
        let head = Coord { x: self.width / 3, y: self.height / 2 };
        self.snake.push_front(head);
        let total: usize = self.board.len();
        let mut i: usize = 0;
        while i < total
            invariant
                self.dims_ok(),
                self.board@.len() == total,
                self.height == old(self).height,
                self.width == old(self).width,
                self.score == 1,
                self.snake@ =~= seq![Coord { x: self.width / 3, y: self.height / 2 }],
                i <= total,
                forall|k: int| 0 <= k < i ==> self.board@[k] == BoardPossibilities::Empty,
            decreases total - i,
        {
            self.board[i] = BoardPossibilities::Empty;
            i += 1;
        }
        proof {
            assert forall|l: int, c: int|
                0 <= l < self.height && 0 <= c < self.width implies #[trigger] self.cell_spec(l, c)
                == BoardPossibilities::Empty by {
                assert(l * self.width + c < self.width * self.height) by (nonlinear_arith)
                    requires
                        0 <= l < self.height,
                        0 <= c < self.width,
                        0 < self.width,
                ;
            }
        }
        proof {
            assert(self.width / 3 < self.width && self.height / 2 < self.height && 1 <= self.width
                / 3 && self.width - self.width / 3 < self.width && self.width / 3 < self.width
                - self.width / 3) by (nonlinear_arith)
                requires
                    3 <= self.width,
                    1 <= self.height,
            ;
            assert(self.snake@ =~= seq![head]);
        }
        let ghost mid = *self;
        let food_column: usize = self.width - self.width / 3;
        let head_line: usize = self.height / 2;
        self.set_cell(head_line, food_column, BoardPossibilities::Food);
        let ghost mf = *self;
        self.set_cell(head_line, self.width / 3, BoardPossibilities::SnakeHead);
        proof {
            assert forall|l: int, c: int|
                0 <= l < self.height && 0 <= c < self.width && !(l == head.y && c == head.x) && !(l
                    == head_line && c == food_column) implies #[trigger] self.cell_spec(l, c)
                == BoardPossibilities::Empty by {
                assert(self.cell_spec(l, c) == mf.cell_spec(l, c));
                assert(mf.cell_spec(l, c) == mid.cell_spec(l, c));
            }
        }
        proof {
            let h = self.height as int;
            let w = self.width as int;
            assert(self.snake_spec()[0] == head);
            assert forall|l: int, c: int|
                0 <= l < h && 0 <= c < w implies (is_snake_cell(#[trigger] self.cell_spec(l, c))
                <==> self.occupied(l, c)) by {
                if l == head.y && c == head.x {
                    assert(0 <= 0 < self.snake_spec().len() && (#[trigger] self.snake_spec()[0]).y
                        == l && self.snake_spec()[0].x == c);
                    assert(self.occupied(l, c));
                } else {
                    if self.occupied(l, c) {
                        let i = choose|i: int|
                            0 <= i < self.snake_spec().len() && (#[trigger] self.snake_spec()[i]).y
                                == l && self.snake_spec()[i].x == c;
                        assert(i == 0);
                        assert(false);
                    }
                }
            }
            assert forall|l: int, c: int|
                0 <= l < h && 0 <= c < w && #[trigger] self.cell_spec(l, c)
                    == BoardPossibilities::SnakeDead implies l == self.snake@[0].y && c
                == self.snake@[0].x by {}
            assert(Board::reset_step(*old(self), *self));
        }
    }

    /// Place a food cell on some empty cell, probing row by row from the
    /// given start and wrapping around. Leaves every other cell, the body
    /// and the score untouched. One full sweep visits every cell, so a
    /// board with an empty cell always receives the food; only a board
    /// without one is left as it is.
    fn place_food(&mut self, start_line: usize, start_column: usize)
        requires
            old(self).dims_ok(),
            start_line < old(self).height_spec(),
            start_column < old(self).width_spec(),
        ensures
            final(self).dims_ok(),
            final(self).height == old(self).height,
            final(self).width == old(self).width,
            final(self).score == old(self).score,
            final(self).snake == old(self).snake,
            (exists|l: int, c: int| food_spawned(*old(self), *final(self), l, c)) || *final(self)
                == *old(self),
            old(self).has_empty_spec() ==> exists|l: int, c: int|
                food_spawned(*old(self), *final(self), l, c),
    {
        let ghost snap = *self;
        let ghost w = snap.width_spec() as int;
        let ghost h = snap.height_spec() as int;
        let ghost s0 = start_line as int * w + start_column as int;
        let total: usize = self.board.len();
        proof {
            assert(0 <= s0 < w * h) by (nonlinear_arith)
                requires
                    s0 == start_line as int * w + start_column as int,
                    0 <= (start_line as int) < h,
                    0 <= (start_column as int) < w,
                    0 < w,
            ;
        }
        let mut line = start_line;
        let mut column = start_column;
        let mut steps: usize = 0;
        let mut found = false;
        while steps < total && !found
            invariant
                *self == snap,
                snap.dims_ok(),
                total == snap.board@.len(),
                w == snap.width_spec() as int,
                h == snap.height_spec() as int,
                0 <= s0 < total,
                line < snap.height_spec(),
                column < snap.width_spec(),
                steps <= total,
                !found ==> line as int * w + column as int == (if s0 + steps < total {
                    s0 + steps
                } else {
                    s0 + steps - total
                }),
                !found ==> forall|j: int|
                    s0 <= j < total && j < s0 + steps ==> #[trigger] snap.board@[j]
                        != BoardPossibilities::Empty,
                !found ==> forall|j: int|
                    0 <= j < s0 + steps - total ==> #[trigger] snap.board@[j]
                        != BoardPossibilities::Empty,
                found ==> snap.cell_spec(line as int, column as int) == BoardPossibilities::Empty,
            decreases total - steps,
        {
            proof {
                assert(line * self.width + column < self.width * self.height) by (nonlinear_arith)
                    requires
                        line < self.height,
                        column < self.width,
                        0 <= line,
                        0 <= column,
                        0 < self.width,
                ;
            }
            let ghost cur = line as int * w + column as int;
            let ghost line0 = line as int;
            let ghost column0 = column as int;
            let cell = self.board[line * self.width + column];
            if matches!(cell, BoardPossibilities::Empty) {
                found = true;
            } else {
                column += 1;
                if column == self.width {
                    column = 0;
                    line += 1;
                }
                if line == self.height {
                    line = 0;
                }
                proof {
                    assert(snap.board@[cur] != BoardPossibilities::Empty);
                    if column0 + 1 < w {
                        assert(line as int * w + column as int == cur + 1);
                        assert(cur + 1 < total) by (nonlinear_arith)
                            requires
                                cur == line0 * w + column0,
                                0 <= line0 < h,
                                0 <= column0,
                                column0 + 1 < w,
                                total == w * h,
                        ;
                    } else if line0 + 1 < h {
                        assert(line as int * w + column as int == (line0 + 1) * w);
                        assert((line0 + 1) * w == cur + 1 && cur + 1 < total) by (nonlinear_arith)
                            requires
                                cur == line0 * w + column0,
                                column0 + 1 == w,
                                0 <= line0,
                                0 < w,
                                line0 + 1 < h,
                                total == w * h,
                        ;
                    } else {
                        assert(column0 + 1 == w);
                        assert(line0 + 1 == h);
                        assert(column as int == 0 && line as int == 0);
                        assert(line as int * w + column as int == 0) by (nonlinear_arith)
                            requires
                                line as int == 0,
                                column as int == 0,
                        ;
                        assert(cur + 1 == total) by (nonlinear_arith)
                            requires
                                cur == line0 * w + column0,
                                column0 + 1 == w,
                                line0 + 1 == h,
                                total == w * h,
                        ;
                    }
                }
            }
            steps += 1;
        }
        if found {
            let ghost l0 = line as int;
            let ghost c0 = column as int;
            self.set_cell(line, column, BoardPossibilities::Food);
            proof {
                assert(food_spawned(*old(self), *self, l0, c0));
            }
        } else {
            proof {
                if snap.has_empty_spec() {
                    let (l, c) = choose|l: int, c: int|
                        0 <= l < snap.height_spec() && 0 <= c < snap.width_spec()
                            && #[trigger] snap.cell_spec(l, c) == BoardPossibilities::Empty;
                    let j = l * w + c;
                    assert(0 <= j < total) by (nonlinear_arith)
                        requires
                            j == l * w + c,
                            0 <= l < h,
                            0 <= c < w,
                            0 < w,
                            total == w * h,
                    ;
                    assert(snap.board@[j] == BoardPossibilities::Empty);
                    assert(false);
                }
            }
        }
    }

    /// A board that differs from a live well-formed one only in that the
    /// head cell now carries the dead marker is well formed and dead.
    proof fn lemma_inv_after_death(&self, pre: Board, head: Coord)
        requires
            pre.inv(),
            !pre.snake_died_spec(),
            head == pre.snake_spec()[0],
            self.dims_ok(),
            self.height == pre.height,
            self.width == pre.width,
            self.score == pre.score,
            self.snake == pre.snake,
            forall|l: int, c: int|
                0 <= l < pre.height && 0 <= c < pre.width ==> #[trigger] self.cell_spec(l, c) == (
                if l == head.y && c == head.x {
                    BoardPossibilities::SnakeDead
                } else {
                    pre.cell_spec(l, c)
                }),
        ensures
            self.inv(),
            self.snake_died_spec(),
    {
        let h = pre.height as int;
        let w = pre.width as int;
        assert(self.snake_spec() == pre.snake_spec());
        assert(self.snake_spec()[0] == head);
        assert forall|l: int, c: int| #[trigger]
            pre.occupied(l, c) implies self.occupied(l, c) by {
            let i = choose|i: int|
                0 <= i < pre.snake_spec().len() && (#[trigger] pre.snake_spec()[i]).y == l
                    && pre.snake_spec()[i].x == c;
            assert(0 <= i < self.snake_spec().len() && (#[trigger] self.snake_spec()[i]).y == l
                && self.snake_spec()[i].x == c);
        }
        assert forall|l: int, c: int| #[trigger]
            self.occupied(l, c) implies pre.occupied(l, c) by {
            let i = choose|i: int|
                0 <= i < self.snake_spec().len() && (#[trigger] self.snake_spec()[i]).y == l
                    && self.snake_spec()[i].x == c;
            assert(0 <= i < pre.snake_spec().len() && (#[trigger] pre.snake_spec()[i]).y == l
                && pre.snake_spec()[i].x == c);
        }
        assert forall|i: int|
            1 <= i < self.snake@.len() implies self.cell_spec(
            (#[trigger] self.snake@[i]).y as int,
            self.snake@[i].x as int,
        ) == BoardPossibilities::SnakeBody by {
            assert(pre.snake@[i] != pre.snake@[0]);
            assert(pre.cell_spec(pre.snake@[i].y as int, pre.snake@[i].x as int)
                == BoardPossibilities::SnakeBody);
        }
        assert forall|l: int, c: int|
            0 <= l < h && 0 <= c < w implies (is_snake_cell(#[trigger] self.cell_spec(l, c)) <==> self.occupied(
            l,
            c,
        )) && (self.cell_spec(l, c) == BoardPossibilities::SnakeDead ==> l == self.snake@[0].y && c
            == self.snake@[0].x) by {
            if l == head.y && c == head.x {
                assert(self.cell_spec(l, c) == BoardPossibilities::SnakeDead);
                assert(0 <= 0 < self.snake_spec().len() && (#[trigger] self.snake_spec()[0]).y == l
                    && self.snake_spec()[0].x == c);
                assert(self.occupied(l, c));
            } else {
                assert(self.cell_spec(l, c) == pre.cell_spec(l, c));
                if pre.cell_spec(l, c) == BoardPossibilities::SnakeDead {
                    assert(l == pre.snake@[0].y && c == pre.snake@[0].x);
                    assert(false);
                }
            }
        }
    }

    /// Step the snake one cell toward `direction`.
    ///
    /// Stepping off the grid or into the body marks the head dead and
    /// changes nothing else. Stepping onto food grows the body at the head
    /// and raises the score by one, then spawns a new food cell on some
    /// empty cell. Any other step advances the head and drops the tail
    /// cell. In every case the score equals the body length afterwards.
    #[verifier::rlimit(100)]
    pub fn move_snake(&mut self, direction: &Directions)
        requires
            old(self).inv(),
            !old(self).snake_died_spec(),
        ensures
            final(self).inv(),
            final(self).height_spec() == old(self).height_spec(),
            final(self).width_spec() == old(self).width_spec(),
            final(self).score_spec() == final(self).snake_spec().len(),
            Board::move_step(*old(self), *final(self), *direction),
    {
        let head: Coord = self.snake[0];
        let valid: bool = match direction {
            Directions::Up => head.y >= 1,
            Directions::Down => head.y + 1 < self.height,
            Directions::Left => head.x >= 1,
            Directions::Right => head.x + 1 < self.width,
        };
        if !valid {
            self.set_cell(head.y, head.x, BoardPossibilities::SnakeDead);
            proof {
                self.lemma_inv_after_death(*old(self), head);
                assert(!old(self).candidate_ok(head, *direction));
                assert(Board::move_step(*old(self), *self, *direction));
            }
            return ;
        }
        let new_head: Coord = match direction {
            Directions::Up => Coord { x: head.x, y: head.y - 1 },
            Directions::Down => Coord { x: head.x, y: head.y + 1 },
            Directions::Left => Coord { x: head.x - 1, y: head.y },
            Directions::Right => Coord { x: head.x + 1, y: head.y },
        };
        proof {
            assert(new_head == Board::candidate(head, *direction));
            assert(new_head != head);
        }
        let target: BoardPossibilities = *self.consult_board(new_head.y, new_head.x);
        self.set_cell(head.y, head.x, BoardPossibilities::SnakeBody);
        let ghost m1 = *self;
        if matches!(target, BoardPossibilities::SnakeBody) {
            self.set_cell(head.y, head.x, BoardPossibilities::SnakeDead);
            proof {
                self.lemma_inv_after_death(*old(self), head);
                assert(old(self).cell_spec(new_head.y as int, new_head.x as int)
                    == BoardPossibilities::SnakeBody);
                assert forall|l: int, c: int|
                    0 <= l < old(self).height_spec() && 0 <= c < old(self).width_spec() && !(l
                        == head.y && c == head.x) implies #[trigger] self.cell_spec(l, c) == old(
                    self,
                ).cell_spec(l, c) by {
                    assert(self.cell_spec(l, c) == m1.cell_spec(l, c));
                }
                assert(Board::move_step(*old(self), *self, *direction));
            }
            return ;
        }
        proof {
            // The target cell holds neither a body segment nor the head nor
            // the dead marker, so no body segment sits on it.
            if old(self).occupied(new_head.y as int, new_head.x as int) {
                let i = choose|i: int|
                    0 <= i < old(self).snake_spec().len() && (#[trigger] old(
                        self,
                    ).snake_spec()[i]).y == new_head.y && old(self).snake_spec()[i].x == new_head.x;
                if i == 0 {
                    assert(old(self).snake_spec()[0] == new_head);
                    assert(false);
                } else {
                    assert(old(self).cell_spec(new_head.y as int, new_head.x as int)
                        == BoardPossibilities::SnakeBody);
                    assert(false);
                }
            }
        }
        if matches!(target, BoardPossibilities::Food) {
            proof {
                let grown = seq![new_head] + old(self).snake_spec();
                assert forall|i: int, j: int| 0 <= i < j < grown.len() implies grown[i]
                    != grown[j] by {
                    if i == 0 {
                        assert(grown[j] == old(self).snake_spec()[j - 1]);
                    }
                }
                lemma_distinct_coords_bounded(
                    grown,
                    old(self).width_spec() as int,
                    old(self).height_spec() as int,
                );
                assert(grown.len() <= old(self).width_spec() * old(self).height_spec());
            }
            self.score = self.score + 1;
            let ghost m2 = *self;
            self.generate_food();
            let ghost m3 = *self;
            self.set_cell(new_head.y, new_head.x, BoardPossibilities::SnakeHead);
            let ghost m4 = *self;
            self.snake.push_front(new_head);
            proof {
                let pre = *old(self);
                let h = pre.height as int;
                let w = pre.width as int;
                assert(self.snake_spec() == seq![new_head] + pre.snake_spec());
                assert forall|l: int, c: int|
                    0 <= l < h && 0 <= c < w && !(l == new_head.y && c == new_head.x) && !(l
                        == head.y && c == head.x) implies (#[trigger] self.cell_spec(l, c)
                    == pre.cell_spec(l, c) || (self.cell_spec(l, c) == BoardPossibilities::Food
                    && pre.cell_spec(l, c) == BoardPossibilities::Empty)) by {
                    assert(self.cell_spec(l, c) == m4.cell_spec(l, c));
                    assert(m4.cell_spec(l, c) == m3.cell_spec(l, c));
                    assert(m1.cell_spec(l, c) == pre.cell_spec(l, c));
                    assert(m2.cell_spec(l, c) == m1.cell_spec(l, c));
                    if m3.cell_spec(l, c) != m2.cell_spec(l, c) {
                        let (l0, c0) = choose|l0: int, c0: int| food_spawned(m2, m3, l0, c0);
                        assert(l == l0 && c == c0);
                        assert(m3.cell_spec(l, c) == BoardPossibilities::Food);
                    }
                }
                assert(m2.cell_spec(head.y as int, head.x as int)
                    == BoardPossibilities::SnakeBody);
                assert(m3.cell_spec(head.y as int, head.x as int)
                    == BoardPossibilities::SnakeBody) by {
                    if m3.cell_spec(head.y as int, head.x as int) != m2.cell_spec(
                        head.y as int,
                        head.x as int,
                    ) {
                        let (l0, c0) = choose|l0: int, c0: int| food_spawned(m2, m3, l0, c0);
                        assert(m2.cell_spec(l0, c0) == BoardPossibilities::Empty);
                    }
                }
                assert(m4.cell_spec(head.y as int, head.x as int)
                    == BoardPossibilities::SnakeBody);
                assert(self.cell_spec(head.y as int, head.x as int) == m4.cell_spec(
                    head.y as int,
                    head.x as int,
                ));
                assert(m4.cell_spec(new_head.y as int, new_head.x as int)
                    == BoardPossibilities::SnakeHead);
                assert(self.cell_spec(new_head.y as int, new_head.x as int) == m4.cell_spec(
                    new_head.y as int,
                    new_head.x as int,
                ));
                Board::lemma_inv_after_grow(pre, *self, head, new_head);
                assert(m2.cell_spec(new_head.y as int, new_head.x as int) == m1.cell_spec(
                    new_head.y as int,
                    new_head.x as int,
                ));
                assert(m1.cell_spec(new_head.y as int, new_head.x as int) == pre.cell_spec(
                    new_head.y as int,
                    new_head.x as int,
                ));
                assert(m2.cell_spec(new_head.y as int, new_head.x as int)
                    == BoardPossibilities::Food);
                assert(m2.cell_spec(head.y as int, head.x as int) == m1.cell_spec(
                    head.y as int,
                    head.x as int,
                ));
                assert(m2.cell_spec(head.y as int, head.x as int)
                    == BoardPossibilities::SnakeBody);
                if pre.has_empty_spec() {
                    let (le, ce) = choose|le: int, ce: int|
                        0 <= le < pre.height_spec() && 0 <= ce < pre.width_spec()
                            && #[trigger] pre.cell_spec(le, ce) == BoardPossibilities::Empty;
                    assert(pre.cell_spec(head.y as int, head.x as int)
                        == BoardPossibilities::SnakeHead);
                    assert(!(le == head.y && ce == head.x));
                    assert(m1.cell_spec(le, ce) == pre.cell_spec(le, ce));
                    assert(m2.cell_spec(le, ce) == m1.cell_spec(le, ce));
                    assert(0 <= le < m2.height_spec() && 0 <= ce < m2.width_spec()
                        && m2.cell_spec(le, ce) == BoardPossibilities::Empty);
                    assert(m2.has_empty_spec());
                    let (l0, c0) = choose|l0: int, c0: int| food_spawned(m2, m3, l0, c0);
                    assert(m2.cell_spec(l0, c0) == BoardPossibilities::Empty);
                    assert(!(l0 == head.y && c0 == head.x));
                    assert(!(l0 == new_head.y && c0 == new_head.x));
                    assert(m1.cell_spec(l0, c0) == pre.cell_spec(l0, c0));
                    assert(m2.cell_spec(l0, c0) == m1.cell_spec(l0, c0));
                    assert(pre.cell_spec(l0, c0) == BoardPossibilities::Empty);
                    assert(m3.cell_spec(l0, c0) == BoardPossibilities::Food);
                    assert(m4.cell_spec(l0, c0) == m3.cell_spec(l0, c0));
                    assert(self.cell_spec(l0, c0) == m4.cell_spec(l0, c0));
                    assert(self.cell_spec(l0, c0) == BoardPossibilities::Food);
                    assert forall|l2: int, c2: int|
                        0 <= l2 < pre.height_spec() && 0 <= c2 < pre.width_spec() && !(l2 == l0
                            && c2 == c0) && !(l2 == head.y && c2 == head.x) && !(l2 == new_head.y
                            && c2 == new_head.x) implies #[trigger] self.cell_spec(l2, c2)
                        == pre.cell_spec(l2, c2) by {
                        assert(self.cell_spec(l2, c2) == m4.cell_spec(l2, c2));
                        assert(m4.cell_spec(l2, c2) == m3.cell_spec(l2, c2));
                        assert(m3.cell_spec(l2, c2) == m2.cell_spec(l2, c2));
                        assert(m2.cell_spec(l2, c2) == m1.cell_spec(l2, c2));
                        assert(m1.cell_spec(l2, c2) == pre.cell_spec(l2, c2));
                    }
                    assert(food_respawned(pre, *self, head, new_head, l0, c0));
                } else {
                    if exists|l0: int, c0: int| food_spawned(m2, m3, l0, c0) {
                        let (l0, c0) = choose|l0: int, c0: int| food_spawned(m2, m3, l0, c0);
                        assert(m2.cell_spec(l0, c0) == BoardPossibilities::Empty);
                        assert(m2.cell_spec(head.y as int, head.x as int)
                            == BoardPossibilities::SnakeBody);
                        assert(!(l0 == head.y && c0 == head.x));
                        assert(m1.cell_spec(l0, c0) == pre.cell_spec(l0, c0));
                        assert(m2.cell_spec(l0, c0) == m1.cell_spec(l0, c0));
                        assert(0 <= l0 < pre.height_spec() && 0 <= c0 < pre.width_spec()
                            && pre.cell_spec(l0, c0) == BoardPossibilities::Empty);
                        assert(pre.has_empty_spec());
                        assert(false);
                    }
                    assert(m3 == m2);
                    assert forall|l2: int, c2: int|
                        0 <= l2 < pre.height_spec() && 0 <= c2 < pre.width_spec() && !(l2 == head.y
                            && c2 == head.x) && !(l2 == new_head.y && c2 == new_head.x) implies
                        #[trigger] self.cell_spec(l2, c2) == pre.cell_spec(l2, c2) by {
                        assert(self.cell_spec(l2, c2) == m4.cell_spec(l2, c2));
                        assert(m4.cell_spec(l2, c2) == m3.cell_spec(l2, c2));
                        assert(m2.cell_spec(l2, c2) == m1.cell_spec(l2, c2));
                        assert(m1.cell_spec(l2, c2) == pre.cell_spec(l2, c2));
                    }
                }
                assert(Board::move_step(pre, *self, *direction));
            }
        } else {
            let tail: Coord = match self.snake.pop_back() {
                Some(value) => value,
                None => {
                    proof {
                        assert(false);
                    }
                    head
                },
            };
            self.set_cell(tail.y, tail.x, BoardPossibilities::Empty);
            let ghost mb = *self;
            self.set_cell(new_head.y, new_head.x, BoardPossibilities::SnakeHead);
            let ghost mc = *self;
            self.snake.push_front(new_head);
            proof {
                let pre = *old(self);
                let h = pre.height as int;
                let w = pre.width as int;
                let len = pre.snake_spec().len() as int;
                assert(tail == pre.snake_spec()[len - 1]);
                assert(self.snake_spec() =~= seq![new_head] + pre.snake_spec().drop_last());
                assert(!pre.occupied(new_head.y as int, new_head.x as int));
                assert(tail != new_head);
                assert forall|l: int, c: int|
                    0 <= l < h && 0 <= c < w && !(l == new_head.y && c == new_head.x) && !(l
                        == head.y && c == head.x) && !(l == tail.y && c == tail.x) implies
                    #[trigger] self.cell_spec(l, c) == pre.cell_spec(l, c) by {
                    assert(self.cell_spec(l, c) == mc.cell_spec(l, c));
                    assert(mc.cell_spec(l, c) == mb.cell_spec(l, c));
                    assert(m1.cell_spec(l, c) == pre.cell_spec(l, c));
                    assert(mb.cell_spec(l, c) == m1.cell_spec(l, c));
                }
                assert(mc.cell_spec(tail.y as int, tail.x as int) == BoardPossibilities::Empty);
                assert(self.cell_spec(tail.y as int, tail.x as int) == mc.cell_spec(
                    tail.y as int,
                    tail.x as int,
                ));
                if tail != head {
                    assert(m1.cell_spec(head.y as int, head.x as int)
                        == BoardPossibilities::SnakeBody);
                    assert(mb.cell_spec(head.y as int, head.x as int)
                        == BoardPossibilities::SnakeBody);
                    assert(mc.cell_spec(head.y as int, head.x as int)
                        == BoardPossibilities::SnakeBody);
                    assert(self.cell_spec(head.y as int, head.x as int) == mc.cell_spec(
                        head.y as int,
                        head.x as int,
                    ));
                }
                assert(mc.cell_spec(new_head.y as int, new_head.x as int)
                    == BoardPossibilities::SnakeHead);
                assert(self.cell_spec(new_head.y as int, new_head.x as int) == mc.cell_spec(
                    new_head.y as int,
                    new_head.x as int,
                ));
                Board::lemma_inv_after_advance(pre, *self, head, new_head, tail);
                assert(Board::move_step(pre, *self, *direction));
            }
        }
    }

    /// After the snake grew at the head onto a previously free cell, the
    /// board is well formed again.
    proof fn lemma_inv_after_grow(pre: Board, post: Board, head: Coord, nh: Coord)
        requires
            pre.inv(),
            !pre.snake_died_spec(),
            head == pre.snake_spec()[0],
            pre.in_grid(nh),
            nh != head,
            !pre.occupied(nh.y as int, nh.x as int),
            post.dims_ok(),
            post.height_spec() == pre.height_spec(),
            post.width_spec() == pre.width_spec(),
            post.snake_spec() == seq![nh] + pre.snake_spec(),
            post.score_spec() == pre.score_spec() + 1,
            post.cell_spec(nh.y as int, nh.x as int) == BoardPossibilities::SnakeHead,
            post.cell_spec(head.y as int, head.x as int) == BoardPossibilities::SnakeBody,
            forall|l: int, c: int|
                0 <= l < pre.height_spec() && 0 <= c < pre.width_spec() && !(l == nh.y && c == nh.x)
                    && !(l == head.y && c == head.x) ==> (#[trigger] post.cell_spec(l, c)
                    == pre.cell_spec(l, c) || (post.cell_spec(l, c) == BoardPossibilities::Food
                    && pre.cell_spec(l, c) == BoardPossibilities::Empty)),
        ensures
            post.inv(),
            !post.snake_died_spec(),
    {
        let h = pre.height as int;
        let w = pre.width as int;
        assert(post.snake_spec()[0] == nh);
        assert forall|i: int, j: int|
            0 <= i < j < post.snake_spec().len() implies post.snake_spec()[i]
            != post.snake_spec()[j] by {
            if i == 0 {
                assert(post.snake_spec()[j] == pre.snake_spec()[j - 1]);
            }
        }
        assert forall|l: int, c: int| #[trigger]
            post.occupied(l, c) implies (l == nh.y && c == nh.x) || pre.occupied(l, c) by {
            let i = choose|i: int|
                0 <= i < post.snake_spec().len() && (#[trigger] post.snake_spec()[i]).y == l
                    && post.snake_spec()[i].x == c;
            if i >= 1 {
                assert(0 <= i - 1 < pre.snake_spec().len() && (#[trigger] pre.snake_spec()[i
                    - 1]).y == l && pre.snake_spec()[i - 1].x == c);
            }
        }
        assert forall|l: int, c: int| #[trigger]
            pre.occupied(l, c) implies post.occupied(l, c) by {
            let i = choose|i: int|
                0 <= i < pre.snake_spec().len() && (#[trigger] pre.snake_spec()[i]).y == l
                    && pre.snake_spec()[i].x == c;
            assert(0 <= i + 1 < post.snake_spec().len() && (#[trigger] post.snake_spec()[i
                + 1]).y == l && post.snake_spec()[i + 1].x == c);
        }
        assert forall|l: int, c: int|
            0 <= l < h && 0 <= c < w implies (is_snake_cell(#[trigger] post.cell_spec(l, c)) <==> post.occupied(
            l,
            c,
        )) && post.cell_spec(l, c) != BoardPossibilities::SnakeDead by {
            if l == nh.y && c == nh.x {
                assert(0 <= 0 < post.snake_spec().len() && (#[trigger] post.snake_spec()[0]).y == l
                    && post.snake_spec()[0].x == c);
                assert(post.occupied(l, c));
            } else if l == head.y && c == head.x {
                assert(0 <= 1 < post.snake_spec().len() && (#[trigger] post.snake_spec()[1]).y == l
                    && post.snake_spec()[1].x == c);
                assert(post.occupied(l, c));
            } else {
                if post.cell_spec(l, c) == pre.cell_spec(l, c) {
                    if pre.cell_spec(l, c) == BoardPossibilities::SnakeDead {
                        assert(pre.cell_spec(pre.snake_spec()[0].y as int, pre.snake_spec()[0].x
                            as int) != BoardPossibilities::SnakeDead);
                        assert(false);
                    }
                    assert(is_snake_cell(post.cell_spec(l, c)) <==> pre.occupied(l, c));
                    assert(post.occupied(l, c) ==> pre.occupied(l, c));
                } else {
                    assert(post.cell_spec(l, c) == BoardPossibilities::Food);
                    assert(pre.cell_spec(l, c) == BoardPossibilities::Empty);
                    assert(!pre.occupied(l, c));
                    assert(!post.occupied(l, c));
                }
            }
        }
        assert forall|i: int|
            1 <= i < post.snake_spec().len() implies post.cell_spec(
            (#[trigger] post.snake_spec()[i]).y as int,
            post.snake_spec()[i].x as int,
        ) == BoardPossibilities::SnakeBody by {
            assert(post.snake_spec()[i] == pre.snake_spec()[i - 1]);
            let seg = pre.snake_spec()[i - 1];
            if i == 1 {
                assert(seg == head);
            } else {
                assert(0 <= i - 1 < pre.snake_spec().len() && (#[trigger] pre.snake_spec()[i
                    - 1]).y == seg.y && pre.snake_spec()[i - 1].x == seg.x);
                assert(pre.occupied(seg.y as int, seg.x as int));
                assert(seg != nh);
                assert(seg != head);
                assert(pre.cell_spec(seg.y as int, seg.x as int)
                    == BoardPossibilities::SnakeBody);
                assert(post.cell_spec(seg.y as int, seg.x as int)
                    == BoardPossibilities::SnakeBody);
            }
        }
    }

    /// After the snake advanced by one cell, vacating its tail cell, the
    /// board is well formed again.
    proof fn lemma_inv_after_advance(pre: Board, post: Board, head: Coord, nh: Coord, tail: Coord)
        requires
            pre.inv(),
            !pre.snake_died_spec(),
            head == pre.snake_spec()[0],
            tail == pre.snake_spec()[pre.snake_spec().len() - 1],
            pre.in_grid(nh),
            nh != head,
            !pre.occupied(nh.y as int, nh.x as int),
            post.dims_ok(),
            post.height_spec() == pre.height_spec(),
            post.width_spec() == pre.width_spec(),
            post.snake_spec() == seq![nh] + pre.snake_spec().drop_last(),
            post.score_spec() == pre.score_spec(),
            post.cell_spec(nh.y as int, nh.x as int) == BoardPossibilities::SnakeHead,
            post.cell_spec(tail.y as int, tail.x as int) == BoardPossibilities::Empty,
            tail != head ==> post.cell_spec(head.y as int, head.x as int)
                == BoardPossibilities::SnakeBody,
            forall|l: int, c: int|
                0 <= l < pre.height_spec() && 0 <= c < pre.width_spec() && !(l == nh.y && c == nh.x)
                    && !(l == head.y && c == head.x) && !(l == tail.y && c == tail.x)
                    ==> #[trigger] post.cell_spec(l, c) == pre.cell_spec(l, c),
        ensures
            post.inv(),
            !post.snake_died_spec(),
    {
        let h = pre.height as int;
        let w = pre.width as int;
        let len = pre.snake_spec().len() as int;
        assert(post.snake_spec()[0] == nh);
        assert(post.snake_spec().len() == len);
        assert forall|i: int|
            1 <= i < post.snake_spec().len() implies #[trigger] post.snake_spec()[i]
            == pre.snake_spec()[i - 1] by {}
        assert(tail != nh);
        assert forall|i: int, j: int|
            0 <= i < j < post.snake_spec().len() implies post.snake_spec()[i]
            != post.snake_spec()[j] by {
            if i == 0 {
                assert(post.snake_spec()[j] == pre.snake_spec()[j - 1]);
            } else {
                assert(post.snake_spec()[i] == pre.snake_spec()[i - 1]);
                assert(post.snake_spec()[j] == pre.snake_spec()[j - 1]);
            }
        }
        assert forall|l: int, c: int| #[trigger]
            post.occupied(l, c) implies (l == nh.y && c == nh.x) || (pre.occupied(l, c) && !(l
            == tail.y && c == tail.x)) by {
            let i = choose|i: int|
                0 <= i < post.snake_spec().len() && (#[trigger] post.snake_spec()[i]).y == l
                    && post.snake_spec()[i].x == c;
            if i >= 1 {
                assert(0 <= i - 1 < pre.snake_spec().len() && (#[trigger] pre.snake_spec()[i
                    - 1]).y == l && pre.snake_spec()[i - 1].x == c);
                assert(pre.snake_spec()[i - 1] != pre.snake_spec()[len - 1]);
                assert(pre.occupied(l, c));
                if l == tail.y && c == tail.x {
                    let j = choose|j: int|
                        0 <= j < pre.snake_spec().len() && (#[trigger] pre.snake_spec()[j]).y == l
                            && pre.snake_spec()[j].x == c;
                    assert(pre.snake_spec()[i - 1].y == tail.y && pre.snake_spec()[i - 1].x
                        == tail.x);
                    assert(pre.snake_spec()[i - 1] == tail);
                    assert(false);
                }
            }
        }
        assert forall|l: int, c: int|
            0 <= l < h && 0 <= c < w implies (is_snake_cell(#[trigger] post.cell_spec(l, c)) <==> post.occupied(
            l,
            c,
        )) && post.cell_spec(l, c) != BoardPossibilities::SnakeDead by {
            if l == nh.y && c == nh.x {
                assert(0 <= 0 < post.snake_spec().len() && (#[trigger] post.snake_spec()[0]).y == l
                    && post.snake_spec()[0].x == c);
                assert(post.occupied(l, c));
            } else if l == tail.y && c == tail.x {
                assert(post.cell_spec(l, c) == BoardPossibilities::Empty);
                assert(!post.occupied(l, c));
            } else if l == head.y && c == head.x {
                assert(tail != head);
                assert(len > 1);
                assert(post.snake_spec()[1] == pre.snake_spec()[0]);
                assert(0 <= 1 < post.snake_spec().len() && (#[trigger] post.snake_spec()[1]).y == l
                    && post.snake_spec()[1].x == c);
                assert(post.occupied(l, c));
            } else {
                assert(post.cell_spec(l, c) == pre.cell_spec(l, c));
                if pre.cell_spec(l, c) == BoardPossibilities::SnakeDead {
                    assert(pre.cell_spec(pre.snake_spec()[0].y as int, pre.snake_spec()[0].x
                        as int) != BoardPossibilities::SnakeDead);
                    assert(false);
                }
                if post.occupied(l, c) {
                    assert(pre.occupied(l, c));
                }
                if pre.occupied(l, c) {
                    let i = choose|i: int|
                        0 <= i < pre.snake_spec().len() && (#[trigger] pre.snake_spec()[i]).y == l
                            && pre.snake_spec()[i].x == c;
                    assert(i != 0);
                    if i == len - 1 {
                        assert(pre.snake_spec()[i] == tail);
                        assert(false);
                    }
                    assert(0 <= i + 1 < post.snake_spec().len() && (#[trigger] post.snake_spec()[
                        i + 1]).y == l && post.snake_spec()[i + 1].x == c);
                    assert(post.occupied(l, c));
                }
            }
        }
        assert forall|i: int|
            1 <= i < post.snake_spec().len() implies post.cell_spec(
            (#[trigger] post.snake_spec()[i]).y as int,
            post.snake_spec()[i].x as int,
        ) == BoardPossibilities::SnakeBody by {
            assert(post.snake_spec()[i] == pre.snake_spec()[i - 1]);
            let seg = pre.snake_spec()[i - 1];
            assert(0 <= i - 1 < pre.snake_spec().len() && (#[trigger] pre.snake_spec()[i - 1]).y
                == seg.y && pre.snake_spec()[i - 1].x == seg.x);
            assert(pre.occupied(seg.y as int, seg.x as int));
            assert(seg != nh);
            assert(pre.snake_spec()[i - 1] != pre.snake_spec()[len - 1]);
            assert(seg != tail);
            if i == 1 {
                assert(seg == head);
                assert(tail != head);
                assert(post.cell_spec(seg.y as int, seg.x as int)
                    == BoardPossibilities::SnakeBody);
            } else {
                assert(seg != head);
                assert(pre.cell_spec(seg.y as int, seg.x as int)
                    == BoardPossibilities::SnakeBody);
                assert(post.cell_spec(seg.y as int, seg.x as int)
                    == BoardPossibilities::SnakeBody);
            }
        }
    }


    /// Spawn a food cell on some empty cell, starting the probe at a
    /// random position.
    fn generate_food(&mut self)
        requires
            old(self).dims_ok(),
        ensures
            final(self).dims_ok(),
            final(self).height == old(self).height,
            final(self).width == old(self).width,
            final(self).score == old(self).score,
            final(self).snake == old(self).snake,
            (exists|l: int, c: int| food_spawned(*old(self), *final(self), l, c)) || *final(self)
                == *old(self),
            old(self).has_empty_spec() ==> exists|l: int, c: int|
                food_spawned(*old(self), *final(self), l, c),
    {
        let line = random_below(self.height);
        let column = random_below(self.width);
        self.place_food(line, column);
    }
}

} // verus!
