//! The minesweeper simulation: a grid of squares that are closed, opened,
//! marked, uncertain or bombs, a cursor, and a remaining-bomb counter.
//! Every closed or opened square carries the number of adjacent hidden
//! bombs; revealing a closed square with no adjacent bomb floods outward
//! through an explicit work stack, and revealing a bomb records where it
//! happened, which loses the game.

use vstd::prelude::*;

use crate::game_manager::{Coord, Difficult, Directions};
use crate::rng::random_below;

verus! {

/// One square of the grid. `Close` and `Opened` carry the adjacent-bomb
/// count; `Marked` and `Uncertain` remember whether the square hides a
/// bomb.
#[derive(Clone, Copy, PartialEq, Eq, Structural, Debug)]
pub enum Square {
    Close(usize),
    Opened(usize),
    Marked(bool),
    Uncertain(bool),
    Bomb,
}

/// Whether a square hides a bomb, whatever its marking state.
pub open spec fn is_bombish(sq: Square) -> bool {
    match sq {
        Square::Bomb => true,
        Square::Marked(correct) => correct,
        Square::Uncertain(correct) => correct,
        _ => false,
    }
}

pub open spec fn is_close(sq: Square) -> bool {
    matches!(sq, Square::Close(_))
}

/// How many of the first `n` squares are closed.
pub open spec fn count_close(cells: Seq<Square>, n: int) -> int
    decreases n,
{
    if n <= 0 {
        0
    } else {
        count_close(cells, n - 1) + (if is_close(cells[n - 1]) {
            1int
        } else {
            0int
        })
    }
}

/// Closed squares are never negative in number and at most `n`.
pub proof fn lemma_count_close_bounds(cells: Seq<Square>, n: int)
    ensures
        0 <= count_close(cells, n) <= (if n >= 0 {
            n
        } else {
            0
        }),
    decreases n,
{
    if n > 0 {
        lemma_count_close_bounds(cells, n - 1);
    }
}

/// Replacing one closed square by a square that is not closed lowers the
/// closed count by one; any other replacement that keeps closedness
/// leaves it unchanged.
pub proof fn lemma_count_close_update(cells: Seq<Square>, n: int, i: int, v: Square)
    requires
        0 <= i < cells.len(),
        n <= cells.len(),
    ensures
        count_close(cells.update(i, v), n) == count_close(cells, n) + (if i < n {
            (if is_close(v) {
                1int
            } else {
                0int
            }) - (if is_close(cells[i]) {
                1int
            } else {
                0int
            })
        } else {
            0int
        }),
    decreases n,
{
    if n > 0 {
        lemma_count_close_update(cells, n - 1, i, v);
    }
}

/// How many of the first `n` squares hide a bomb.
pub open spec fn count_bombish(cells: Seq<Square>, n: int) -> int
    decreases n,
{
    if n <= 0 {
        0
    } else {
        count_bombish(cells, n - 1) + (if is_bombish(cells[n - 1]) {
            1int
        } else {
            0int
        })
    }
}

/// How many of the first `n` squares are opened.
pub open spec fn count_opened(cells: Seq<Square>, n: int) -> int
    decreases n,
{
    if n <= 0 {
        0
    } else {
        count_opened(cells, n - 1) + (if cells[n - 1] is Opened {
            1int
        } else {
            0int
        })
    }
}

/// Replacing one square adjusts the bomb and opened counts by whether the
/// old and the new square hide a bomb or are opened.
pub proof fn lemma_counts_update(cells: Seq<Square>, n: int, i: int, v: Square)
    requires
        0 <= i < cells.len(),
        n <= cells.len(),
    ensures
        count_bombish(cells.update(i, v), n) == count_bombish(cells, n) + (if i < n {
            (if is_bombish(v) {
                1int
            } else {
                0int
            }) - (if is_bombish(cells[i]) {
                1int
            } else {
                0int
            })
        } else {
            0int
        }),
        count_opened(cells.update(i, v), n) == count_opened(cells, n) + (if i < n {
            (if v is Opened {
                1int
            } else {
                0int
            }) - (if cells[i] is Opened {
                1int
            } else {
                0int
            })
        } else {
            0int
        }),
    decreases n,
{
    if n > 0 {
        lemma_counts_update(cells, n - 1, i, v);
    }
}

/// Two sequences whose squares agree pointwise on hiding bombs have the
/// same hidden-bomb count.
pub proof fn lemma_count_bombish_pointwise(a: Seq<Square>, b: Seq<Square>, n: int)
    requires
        n <= a.len(),
        n <= b.len(),
        forall|i: int| 0 <= i < n ==> is_bombish(#[trigger] a[i]) == is_bombish(b[i]),
    ensures
        count_bombish(a, n) == count_bombish(b, n),
    decreases n,
{
    if n > 0 {
        lemma_count_bombish_pointwise(a, b, n - 1);
    }
}

/// A prefix without a hidden bomb counts none; fewer hidden bombs than
/// squares leaves some square bomb-free; any hidden bomb at all means
/// some square hides one.
pub proof fn lemma_count_bombish_bounds(cells: Seq<Square>, n: int)
    ensures
        n >= 0 ==> 0 <= count_bombish(cells, n) <= n,
        (forall|i: int| 0 <= i < n ==> !is_bombish(#[trigger] cells[i])) ==> count_bombish(
            cells,
            n,
        ) == 0,
        0 <= count_bombish(cells, n) < n ==> exists|i: int|
            0 <= i < n && !is_bombish(#[trigger] cells[i]),
        count_bombish(cells, n) > 0 ==> exists|i: int|
            0 <= i < n && is_bombish(#[trigger] cells[i]),
    decreases n,
{
    if n > 0 {
        lemma_count_bombish_bounds(cells, n - 1);
    }
}

/// A prefix of squares none of which is opened counts no opened square.
pub proof fn lemma_count_opened_none(cells: Seq<Square>, n: int)
    requires
        forall|i: int| 0 <= i < n ==> !(#[trigger] cells[i] is Opened),
    ensures
        count_opened(cells, n) == 0,
    decreases n,
{
    if n > 0 {
        lemma_count_opened_none(cells, n - 1);
    }
}

/// A closed square within the counted prefix contributes to the count.
pub proof fn lemma_count_close_at(cells: Seq<Square>, n: int, i: int)
    requires
        0 <= i < n,
    ensures
        count_close(cells, n) >= (if is_close(cells[i]) {
            1int
        } else {
            0int
        }),
    decreases n,
{
    lemma_count_close_bounds(cells, n - 1);
    if i < n - 1 {
        lemma_count_close_at(cells, n - 1, i);
    }
}

/// The law of marking: marking a square that is a bomb, marking it again
/// and marking it a third time walks it through marked and uncertain and
/// back to exactly a bomb, leaves every other square alone, and restores
/// the remaining-bomb counter.
pub proof fn lemma_mark_round_trip(a: Board, b: Board, c: Board, d: Board)
    requires
        Board::mark_step(a, b),
        Board::mark_step(b, c),
        Board::mark_step(c, d),
        a.cell(a.cursor_line_spec() as int, a.cursor_column_spec() as int) == Square::Bomb,
    ensures
        d.cell(a.cursor_line_spec() as int, a.cursor_column_spec() as int) == Square::Bomb,
        d.bombs_spec() == a.bombs_spec(),
        forall|l: int, c2: int|
            a.in_bounds_spec(l, c2) && !(l == a.cursor_line_spec() && c2 == a.cursor_column_spec())
                ==> #[trigger] d.cell(l, c2) == a.cell(l, c2),
{
    let cl = a.cursor_line_spec() as int;
    let cc = a.cursor_column_spec() as int;
    assert(b.cell(cl, cc) == Square::Marked(true));
    assert(c.cell(cl, cc) == Square::Uncertain(true));
    assert(d.cell(cl, cc) == Square::Bomb);
}

/// Positions that touch in the eight-neighbor sense.
pub open spec fn touches(l1: int, c1: int, l2: int, c2: int) -> bool {
    &&& -1 <= l2 - l1 <= 1
    &&& -1 <= c2 - c1 <= 1
    &&& !(l1 == l2 && c1 == c2)
}

/// A chain of neighboring grid positions starting at `(l0, c0)`, every
/// link but the last sitting on a closed square of `b` with no adjacent
/// bomb: the route a flood takes.
pub open spec fn flood_path(b: Board, l0: int, c0: int, p: Seq<(int, int)>) -> bool {
    &&& p.len() >= 1
    &&& p[0] == (l0, c0)
    &&& (forall|i: int| 0 <= i < p.len() ==> b.in_bounds_spec((#[trigger] p[i]).0, p[i].1))
    &&& (forall|i: int|
        0 <= i < p.len() - 1 ==> touches((#[trigger] p[i]).0, p[i].1, p[i + 1].0, p[i + 1].1))
    &&& (forall|i: int|
        0 <= i < p.len() - 1 ==> b.cell((#[trigger] p[i]).0, p[i].1) == Square::Close(0))
}

/// The flood region of `(l0, c0)` on board `b`: the connected set of
/// squares a flood started there can reach, stepping from closed
/// zero-count square to neighbor.
pub open spec fn in_region(b: Board, l0: int, c0: int, l: int, c: int) -> bool {
    exists|p: Seq<(int, int)>| #[trigger] flood_path(b, l0, c0, p) && p.last() == (l, c)
}

/// The start square belongs to its own flood region.
proof fn lemma_region_start(b: Board, l0: int, c0: int)
    requires
        b.in_bounds_spec(l0, c0),
    ensures
        in_region(b, l0, c0, l0, c0),
{
    let p: Seq<(int, int)> = seq![(l0, c0)];
    assert(p.last() == (l0, c0));
    assert(flood_path(b, l0, c0, p));
}

/// The flood region grows across any neighbor of a closed zero-count
/// square it holds.
proof fn lemma_region_extend(b: Board, l0: int, c0: int, l: int, c: int, l2: int, c2: int)
    requires
        in_region(b, l0, c0, l, c),
        b.cell(l, c) == Square::Close(0),
        b.in_bounds_spec(l2, c2),
        touches(l, c, l2, c2),
    ensures
        in_region(b, l0, c0, l2, c2),
{
    let p = choose|p: Seq<(int, int)>| #[trigger] flood_path(b, l0, c0, p) && p.last() == (l, c);
    let q = p.push((l2, c2));
    assert(q[0] == p[0]);
    assert forall|i: int| 0 <= i < q.len() implies b.in_bounds_spec((#[trigger] q[i]).0, q[i].1) by {
        if i < p.len() {
            assert(q[i] == p[i]);
        }
    }
    assert forall|i: int|
        0 <= i < q.len() - 1 implies touches((#[trigger] q[i]).0, q[i].1, q[i + 1].0, q[i + 1].1) by {
        if i < p.len() - 1 {
            assert(q[i] == p[i] && q[i + 1] == p[i + 1]);
        } else {
            assert(q[i] == p.last() && q[i + 1] == (l2, c2));
        }
    }
    assert forall|i: int|
        0 <= i < q.len() - 1 implies b.cell((#[trigger] q[i]).0, q[i].1) == Square::Close(0) by {
        if i < p.len() - 1 {
            assert(q[i] == p[i]);
        } else {
            assert(q[i] == p.last());
        }
    }
    assert(q.last() == (l2, c2));
    assert(flood_path(b, l0, c0, q));
}

struct BoardInfo {
    height: usize,
    width: usize,
    number_of_bombs: i32,
}

/// Queue a position on the flood work stack when it lies on the grid.
fn push_if_in_bounds(stack: &mut Vec<(usize, usize)>, h: usize, w: usize, l: i32, c: i32)
    requires
        h <= 100,
        w <= 100,
        -2 <= l <= 102,
        -2 <= c <= 102,
        forall|k: int|
            0 <= k < old(stack)@.len() ==> (#[trigger] old(stack)@[k]).0 < h && old(stack)@[k].1
                < w,
    ensures
        forall|k: int|
            0 <= k < final(stack)@.len() ==> (#[trigger] final(stack)@[k]).0 < h
                && final(stack)@[k].1 < w,
        forall|l2: int, c2: int|
            Board::in_stack(old(stack)@, l2, c2) ==> #[trigger] Board::in_stack(
                final(stack)@,
                l2,
                c2,
            ),
        0 <= l && 0 <= c && (l as int) < h && (c as int) < w ==> Board::in_stack(
            final(stack)@,
            l as int,
            c as int,
        ),
        forall|l2: int, c2: int|
            Board::in_stack(final(stack)@, l2, c2) ==> #[trigger] Board::in_stack(
                old(stack)@,
                l2,
                c2,
            ) || (0 <= l && 0 <= c && (l as int) < h && (c as int) < w && l2 == l as int && c2
                == c as int),
{
    if l >= 0 && c >= 0 && (l as usize) < h && (c as usize) < w {
        stack.push((l as usize, c as usize));
        proof {
            let n = stack@.len() - 1;
            assert(stack@[n] == (l as usize, c as usize));
            assert(Board::in_stack(stack@, l as int, c as int));
            assert forall|l2: int, c2: int|
                Board::in_stack(old(stack)@, l2, c2) implies #[trigger] Board::in_stack(
                stack@,
                l2,
                c2,
            ) by {
                let k = choose|k: int|
                    0 <= k < old(stack)@.len() && (#[trigger] old(stack)@[k]).0 == l2 && old(
                        stack,
                    )@[k].1 == c2;
                assert(stack@[k] == old(stack)@[k]);
            }
            assert forall|l2: int, c2: int|
                Board::in_stack(stack@, l2, c2) implies #[trigger] Board::in_stack(
                old(stack)@,
                l2,
                c2,
            ) || (l2 == l as int && c2 == c as int) by {
                let k = choose|k: int|
                    0 <= k < stack@.len() && (#[trigger] stack@[k]).0 == l2 && stack@[k].1 == c2;
                if k < stack@.len() - 1 {
                    assert(stack@[k] == old(stack)@[k]);
                }
            }
        }
    }
}

pub struct Board {
    board: Vec<Square>,
    board_info: BoardInfo,
    hide_cursor: bool,
    curr_line: usize,
    curr_column: usize,
    revealed_bomb: Option<Coord>,
    score: usize,
}

impl Board {
    pub closed spec fn cells_spec(self) -> Seq<Square> {
        self.board@
    }

    pub closed spec fn height_spec(self) -> usize {
        self.board_info.height
    }

    pub closed spec fn width_spec(self) -> usize {
        self.board_info.width
    }

    pub closed spec fn bombs_spec(self) -> i32 {
        self.board_info.number_of_bombs
    }

    pub closed spec fn cursor_line_spec(self) -> usize {
        self.curr_line
    }

    pub closed spec fn cursor_column_spec(self) -> usize {
        self.curr_column
    }

    pub closed spec fn revealed_bomb_spec(self) -> Option<Coord> {
        self.revealed_bomb
    }

    /// Whether the renderer should hide the cursor, as it does between
    /// rounds.
    pub closed spec fn cursor_hidden_spec(self) -> bool {
        self.hide_cursor
    }

    pub closed spec fn score_spec(self) -> usize {
        self.score
    }

    pub open spec fn cell(self, l: int, c: int) -> Square {
        self.cells_spec()[l * self.width_spec() + c]
    }

    pub open spec fn in_bounds_spec(self, l: int, c: int) -> bool {
        0 <= l < self.height_spec() && 0 <= c < self.width_spec()
    }

    /// One when the given position is on the grid and hides a bomb, else
    /// zero.
    pub open spec fn bomb_at(self, l: int, c: int) -> int {
        if self.in_bounds_spec(l, c) && is_bombish(self.cell(l, c)) {
            1
        } else {
            0
        }
    }

    /// How many of the eight neighbors of a square hide a bomb.
    pub open spec fn adj_bombs(self, l: int, c: int) -> int {
        self.bomb_at(l - 1, c - 1) + self.bomb_at(l - 1, c) + self.bomb_at(l - 1, c + 1)
            + self.bomb_at(l, c - 1) + self.bomb_at(l, c + 1) + self.bomb_at(l + 1, c - 1)
            + self.bomb_at(l + 1, c) + self.bomb_at(l + 1, c + 1)
    }

    /// Every closed or opened square carries its true adjacent-bomb
    /// count.
    pub open spec fn counts_accurate(self) -> bool {
        forall|l: int, c: int|
            self.in_bounds_spec(l, c) ==> match #[trigger] self.cell(l, c) {
                Square::Close(n) => n == self.adj_bombs(l, c),
                Square::Opened(n) => n == self.adj_bombs(l, c),
                _ => true,
            }
    }

    /// Well-formedness: a full grid of modest dimensions, a cursor on the
    /// grid, and accurate counts everywhere.
    pub open spec fn inv(self) -> bool {
        &&& 1 <= self.height_spec() <= 100
        &&& 1 <= self.width_spec() <= 100
        &&& self.cells_spec().len() == self.height_spec() * self.width_spec()
        &&& self.cursor_line_spec() < self.height_spec()
        &&& self.cursor_column_spec() < self.width_spec()
        &&& self.counts_accurate()
    }

    /// Every opened square with no adjacent bomb has no closed square and
    /// no bare bomb among its neighbors: the flood has run to its
    /// boundary, which therefore shows only positive counts.
    pub open spec fn zero_closed(self) -> bool {
        forall|l: int, c: int|
            self.in_bounds_spec(l, c) && #[trigger] self.cell(l, c) == Square::Opened(0)
                ==> forall|dl: int, dc: int|
                -1 <= dl <= 1 && -1 <= dc <= 1 && self.in_bounds_spec(l + dl, c + dc)
                    ==> !is_close(#[trigger] self.cell(l + dl, c + dc)) && self.cell(l + dl, c + dc)
                    != Square::Bomb
    }

    /// True when no square remains closed, uncertain or a bare bomb.
    pub open spec fn won_spec(self) -> bool {
        forall|l: int, c: int|
            self.in_bounds_spec(l, c) ==> !(#[trigger] self.cell(l, c) matches Square::Close(_))
                && !(self.cell(l, c) matches Square::Uncertain(_)) && self.cell(l, c)
                != Square::Bomb
    }

    pub open spec fn lost_spec(self) -> bool {
        self.revealed_bomb_spec() is Some
    }

    pub fn lost(&self) -> (r: bool)
        ensures
            r == self.lost_spec(),
    {
        matches!(self.revealed_bomb, Option::Some(_))
    }

    pub fn bombs(&self) -> (r: i32)
        ensures
            r == self.bombs_spec(),
    {
        self.board_info.number_of_bombs
    }

    pub fn score(&self) -> (r: usize)
        ensures
            r == self.score_spec(),
    {
        self.score
    }

    pub fn consult_height(&self) -> (r: usize)
        ensures
            r == self.height_spec(),
    {
        self.board_info.height
    }

    pub fn consult_width(&self) -> (r: usize)
        ensures
            r == self.width_spec(),
    {
        self.board_info.width
    }

    pub fn consult_cursor(&self) -> (r: (usize, usize))
        ensures
            r.0 == self.cursor_line_spec(),
            r.1 == self.cursor_column_spec(),
    {
        (self.curr_line, self.curr_column)
    }

    /// Whether the cursor is hidden, as it is between rounds.
    pub fn cursor_hidden(&self) -> (r: bool)
        ensures
            r == self.cursor_hidden_spec(),
    {
        self.hide_cursor
    }

    /// Read one square of the grid.
    pub fn consult_position(&self, line: usize, column: usize) -> (r: &Square)
        requires
            self.inv(),
            line < self.height_spec(),
            column < self.width_spec(),
        ensures
            *r == self.cell(line as int, column as int),
    {
        proof {
            self.lemma_index_ok(line as int, column as int);
        }
        &self.board[line * self.board_info.width + column]
    }

    /// A grid position's flat index lies within the board vector.
    proof fn lemma_index_ok(self, line: int, column: int)
        requires
            self.dims_ok(),
            0 <= line < self.height_spec(),
            0 <= column < self.width_spec(),
        ensures
            0 <= line * self.width_spec() + column < self.cells_spec().len(),
            line * self.width_spec() + column <= 10000,
    {
        assert(0 <= line * self.width_spec() + column && line * self.width_spec() + column
            < self.height_spec() * self.width_spec() && self.height_spec() * self.width_spec()
            <= 10000) by (nonlinear_arith)
            requires
                0 <= line < self.height_spec(),
                0 <= column < self.width_spec(),
                1 <= self.width_spec() <= 100,
                1 <= self.height_spec() <= 100,
        ;
    }

    /// Counts read only the squares and the dimensions, so they carry
    /// over between boards that agree on both.
    proof fn lemma_counts_frame(pre: Board, post: Board)
        requires
            post.cells_spec() == pre.cells_spec(),
            post.height_spec() == pre.height_spec(),
            post.width_spec() == pre.width_spec(),
            pre.counts_accurate(),
        ensures
            post.counts_accurate(),
    {
        assert forall|l: int, c: int|
            post.in_bounds_spec(l, c) implies match #[trigger] post.cell(l, c) {
            Square::Close(n) => n == post.adj_bombs(l, c),
            Square::Opened(n) => n == post.adj_bombs(l, c),
            _ => true,
        } by {
            assert(post.cell(l, c) == pre.cell(l, c));
            assert(post.bomb_at(l - 1, c - 1) == pre.bomb_at(l - 1, c - 1));
            assert(post.bomb_at(l - 1, c) == pre.bomb_at(l - 1, c));
            assert(post.bomb_at(l - 1, c + 1) == pre.bomb_at(l - 1, c + 1));
            assert(post.bomb_at(l, c - 1) == pre.bomb_at(l, c - 1));
            assert(post.bomb_at(l, c + 1) == pre.bomb_at(l, c + 1));
            assert(post.bomb_at(l + 1, c - 1) == pre.bomb_at(l + 1, c - 1));
            assert(post.bomb_at(l + 1, c) == pre.bomb_at(l + 1, c));
            assert(post.bomb_at(l + 1, c + 1) == pre.bomb_at(l + 1, c + 1));
            assert(post.adj_bombs(l, c) == pre.adj_bombs(l, c));
        }
    }

    /// True when every square is opened or correctly marked.
    pub fn won(&self) -> (r: bool)
        requires
            self.inv(),
        ensures
            r == self.won_spec(),
    {
        let mut line: usize = 0;
        while line < self.board_info.height
            invariant
                self.inv(),
                line <= self.height_spec(),
                forall|l: int, c: int|
                    0 <= l < line && 0 <= c < self.width_spec() ==> !(#[trigger] self.cell(
                        l,
                        c,
                    ) matches Square::Close(_)) && !(self.cell(l, c) matches Square::Uncertain(_))
                        && self.cell(l, c) != Square::Bomb,
            decreases self.height_spec() - line,
        {
            let mut column: usize = 0;
            while column < self.board_info.width
                invariant
                    self.inv(),
                    line < self.height_spec(),
                    column <= self.width_spec(),
                    forall|l: int, c: int|
                        0 <= l < line && 0 <= c < self.width_spec() ==> !(#[trigger] self.cell(
                            l,
                            c,
                        ) matches Square::Close(_)) && !(self.cell(
                            l,
                            c,
                        ) matches Square::Uncertain(_)) && self.cell(l, c) != Square::Bomb,
                    forall|c: int|
                        0 <= c < column ==> !(#[trigger] self.cell(
                            line as int,
                            c,
                        ) matches Square::Close(_)) && !(self.cell(
                            line as int,
                            c,
                        ) matches Square::Uncertain(_)) && self.cell(line as int, c)
                            != Square::Bomb,
                decreases self.width_spec() - column,
            {
                let sq = *self.consult_position(line, column);
                if matches!(sq, Square::Close(_)) || matches!(sq, Square::Uncertain(_)) || matches!(
                    sq,
                    Square::Bomb,
                ) {
                    return false;
                }
                column += 1;
            }
            line += 1;
        }
        true
    }

    /// The grid shape alone, apart from the cursor and the counts.
    pub open spec fn dims_ok(self) -> bool {
        &&& 1 <= self.height_spec() <= 100
        &&& 1 <= self.width_spec() <= 100
        &&& self.cells_spec().len() == self.height_spec() * self.width_spec()
    }

    /// Adjacent-bomb counts read only hidden-bomb status, so they carry
    /// over between boards whose squares hide bombs in the same places.
    proof fn lemma_adj_frame(pre: Board, post: Board)
        requires
            post.height_spec() == pre.height_spec(),
            post.width_spec() == pre.width_spec(),
            forall|l: int, c: int|
                pre.in_bounds_spec(l, c) ==> is_bombish(#[trigger] post.cell(l, c)) == is_bombish(
                    pre.cell(l, c),
                ),
        ensures
            forall|l: int, c: int|
                #[trigger] post.adj_bombs(l, c) == pre.adj_bombs(l, c),
    {
        assert forall|l: int, c: int| #[trigger]
            post.bomb_at(l, c) == pre.bomb_at(l, c) by {
            if pre.in_bounds_spec(l, c) {
                assert(is_bombish(post.cell(l, c)) == is_bombish(pre.cell(l, c)));
            }
        }
    }

    /// The flood-boundary property reads only the squares and the
    /// dimensions.
    pub proof fn lemma_zero_closed_frame(pre: Board, post: Board)
        requires
            post.cells_spec() == pre.cells_spec(),
            post.height_spec() == pre.height_spec(),
            post.width_spec() == pre.width_spec(),
            pre.zero_closed(),
        ensures
            post.zero_closed(),
    {
        assert forall|l: int, c: int|
            post.in_bounds_spec(l, c) && #[trigger] post.cell(l, c) == Square::Opened(0)
                implies forall|dl: int, dc: int|
                -1 <= dl <= 1 && -1 <= dc <= 1 && post.in_bounds_spec(l + dl, c + dc)
                    ==> !is_close(#[trigger] post.cell(l + dl, c + dc)) && post.cell(l + dl, c + dc)
                != Square::Bomb by {
            assert(pre.cell(l, c) == Square::Opened(0));
            assert forall|dl: int, dc: int|
                -1 <= dl <= 1 && -1 <= dc <= 1 && post.in_bounds_spec(l + dl, c + dc)
                    implies !is_close(#[trigger] post.cell(l + dl, c + dc)) && post.cell(
                    l + dl,
                    c + dc,
                ) != Square::Bomb by {
                assert(!is_close(pre.cell(l + dl, c + dc)) && pre.cell(l + dl, c + dc)
                    != Square::Bomb);
                assert(post.cell(l + dl, c + dc) == pre.cell(l + dl, c + dc));
            }
        }
    }

    fn set_cell(&mut self, line: usize, column: usize, value: Square)
        requires
            old(self).dims_ok(),
            line < old(self).height_spec(),
            column < old(self).width_spec(),
        ensures
            final(self).dims_ok(),
            final(self).height_spec() == old(self).height_spec(),
            final(self).width_spec() == old(self).width_spec(),
            final(self).bombs_spec() == old(self).bombs_spec(),
            final(self).cursor_line_spec() == old(self).cursor_line_spec(),
            final(self).cursor_column_spec() == old(self).cursor_column_spec(),
            final(self).revealed_bomb_spec() == old(self).revealed_bomb_spec(),
            final(self).score_spec() == old(self).score_spec(),
            final(self).cursor_hidden_spec() == old(self).cursor_hidden_spec(),
            final(self).cells_spec() == old(self).cells_spec().update(
                line as int * old(self).width_spec() + column,
                value,
            ),
            forall|l: int, c: int|
                0 <= l < final(self).height_spec() && 0 <= c < final(self).width_spec()
                    ==> #[trigger] final(self).cell(l, c) == (if l == line && c == column {
                    value
                } else {
                    old(self).cell(l, c)
                }),
    {
        proof {
            assert(0 <= line as int * self.width_spec() + column < self.cells_spec().len()
                && line as int * self.width_spec() + column <= 10000) by (nonlinear_arith)
                requires
                    0 <= (line as int) < self.height_spec(),
                    0 <= (column as int) < self.width_spec(),
                    1 <= self.width_spec() <= 100,
                    1 <= self.height_spec() <= 100,
                    self.cells_spec().len() == self.height_spec() * self.width_spec(),
            ;
        }
        let index: usize = line * self.board_info.width + column;
        self.board[index] = value;
        proof {
            assert forall|l: int, c: int|
                0 <= l < self.height_spec() && 0 <= c < self.width_spec() implies #[trigger] self.cell(
                l,
                c,
            ) == (if l == line && c == column {
                value
            } else {
                old(self).cell(l, c)
            }) by {
                assert(0 <= l * self.width_spec() + c < self.cells_spec().len()) by (
                nonlinear_arith)
                    requires
                        0 <= l < self.height_spec(),
                        0 <= c < self.width_spec(),
                        1 <= self.width_spec() <= 100,
                        1 <= self.height_spec() <= 100,
                        self.cells_spec().len() == self.height_spec() * self.width_spec(),
                ;
                if l * self.width_spec() + c == index as int && !(l == line && c == column) {
                    assert(l == line && c == column) by (nonlinear_arith)
                        requires
                            0 <= l,
                            0 <= c < self.width_spec(),
                            0 <= (line as int),
                            0 <= (column as int) < self.width_spec(),
                            l * self.width_spec() + c == line as int * self.width_spec() + column,
                    ;
                }
            }
        }
    }

    /// One when the given position is on the grid and hides a bomb.
    fn bomb_ind(&self, line: i32, column: i32) -> (r: usize)
        requires
            self.dims_ok(),
            -2 <= line <= 102,
            -2 <= column <= 102,
        ensures
            r as int == self.bomb_at(line as int, column as int),
    {
        if line < 0 || column < 0 || line >= self.board_info.height as i32 || column
            >= self.board_info.width as i32 {
            return 0;
        }
        proof {
            assert(0 <= line as int * self.width_spec() + column < self.cells_spec().len()) by (
            nonlinear_arith)
                requires
                    0 <= (line as int) < self.height_spec(),
                    0 <= (column as int) < self.width_spec(),
                    1 <= self.width_spec() <= 100,
                    1 <= self.height_spec() <= 100,
                    self.cells_spec().len() == self.height_spec() * self.width_spec(),
            ;
        }
        proof {
            self.lemma_index_ok(line as int, column as int);
        }
        let sq = self.board[(line as usize) * self.board_info.width + (column as usize)];
        match sq {
            Square::Bomb => 1,
            Square::Marked(correct) => if correct {
                1
            } else {
                0
            },
            Square::Uncertain(correct) => if correct {
                1
            } else {
                0
            },
            _ => 0,
        }
    }

    /// How many of the eight neighbors of the given square hide a bomb.
    fn count_adjacent(&self, line: usize, column: usize) -> (r: usize)
        requires
            self.dims_ok(),
            line < self.height_spec(),
            column < self.width_spec(),
        ensures
            r as int == self.adj_bombs(line as int, column as int),
            r <= 8,
    {
        let l = line as i32;
        let c = column as i32;
        self.bomb_ind(l - 1, c - 1) + self.bomb_ind(l - 1, c) + self.bomb_ind(l - 1, c + 1)
            + self.bomb_ind(l, c - 1) + self.bomb_ind(l, c + 1) + self.bomb_ind(l + 1, c - 1)
            + self.bomb_ind(l + 1, c) + self.bomb_ind(l + 1, c + 1)
    }

    /// Recompute the adjacent-bomb count of a closed square; any other
    /// square is left alone.
    fn update_close_square_counter(&mut self, line: usize, column: usize)
        requires
            old(self).dims_ok(),
            line < old(self).height_spec(),
            column < old(self).width_spec(),
        ensures
            final(self).dims_ok(),
            final(self).height_spec() == old(self).height_spec(),
            final(self).width_spec() == old(self).width_spec(),
            final(self).bombs_spec() == old(self).bombs_spec(),
            final(self).cursor_line_spec() == old(self).cursor_line_spec(),
            final(self).cursor_column_spec() == old(self).cursor_column_spec(),
            final(self).revealed_bomb_spec() == old(self).revealed_bomb_spec(),
            final(self).score_spec() == old(self).score_spec(),
            final(self).cursor_hidden_spec() == old(self).cursor_hidden_spec(),
            forall|l: int, c: int|
                0 <= l < final(self).height_spec() && 0 <= c < final(self).width_spec()
                    ==> #[trigger] final(self).cell(l, c) == (if l == line && c == column
                    && is_close(old(self).cell(l, c)) {
                    Square::Close(old(self).adj_bombs(l, c) as usize)
                } else {
                    old(self).cell(l, c)
                }),
    {
        let sq = *self.consult_position_dims(line, column);
        if matches!(sq, Square::Close(_)) {
            let counter = self.count_adjacent(line, column);
            self.set_cell(line, column, Square::Close(counter));
        }
    }

    /// Read one square of the grid, without assuming accurate counts.
    fn consult_position_dims(&self, line: usize, column: usize) -> (r: &Square)
        requires
            self.dims_ok(),
            line < self.height_spec(),
            column < self.width_spec(),
        ensures
            *r == self.cell(line as int, column as int),
    {
        proof {
            self.lemma_index_ok(line as int, column as int);
        }
        &self.board[line * self.board_info.width + column]
    }

    /// How one `mark` call relates the board before it to the board after
    /// it: the cursor square cycles closed, marked, uncertain and back,
    /// remembering whether it hides a bomb, and the remaining-bomb
    /// counter follows.
    pub open spec fn mark_step(pre: Board, post: Board) -> bool {
        let l = pre.cursor_line_spec() as int;
        let c = pre.cursor_column_spec() as int;
        &&& post.height_spec() == pre.height_spec()
        &&& post.width_spec() == pre.width_spec()
        &&& post.cursor_line_spec() == pre.cursor_line_spec()
        &&& post.cursor_column_spec() == pre.cursor_column_spec()
        &&& post.revealed_bomb_spec() == pre.revealed_bomb_spec()
        &&& post.score_spec() == pre.score_spec()
        &&& (forall|l2: int, c2: int|
            pre.in_bounds_spec(l2, c2) && !(l2 == l && c2 == c) ==> #[trigger] post.cell(l2, c2)
                == pre.cell(l2, c2))
        &&& match pre.cell(l, c) {
            Square::Close(_) => post.cell(l, c) == Square::Marked(false) && post.bombs_spec()
                == pre.bombs_spec() - 1,
            Square::Bomb => post.cell(l, c) == Square::Marked(true) && post.bombs_spec()
                == pre.bombs_spec() - 1,
            Square::Marked(correct) => post.cell(l, c) == Square::Uncertain(correct)
                && post.bombs_spec() == pre.bombs_spec() + 1,
            Square::Uncertain(correct) => (if correct {
                post.cell(l, c) == Square::Bomb
            } else {
                post.cell(l, c) == Square::Close(pre.adj_bombs(l, c) as usize)
            }) && post.bombs_spec() == pre.bombs_spec(),
            Square::Opened(_) => post.cells_spec() == pre.cells_spec() && post.bombs_spec()
                == pre.bombs_spec(),
        }
    }

    /// Cycle the cursor square through its marking states.
    pub fn mark(&mut self)
        requires
            old(self).inv(),
            i32::MIN < old(self).bombs_spec(),
            old(self).bombs_spec() < i32::MAX,
        ensures
            final(self).inv(),
            Board::mark_step(*old(self), *final(self)),
            final(self).cursor_hidden_spec() == old(self).cursor_hidden_spec(),
    {
        let line = self.curr_line;
        let column = self.curr_column;
        let sq = *self.consult_position(line, column);
        match sq {
            Square::Close(_) => {
                self.board_info.number_of_bombs = self.board_info.number_of_bombs - 1;
                self.set_cell(line, column, Square::Marked(false));
            },
            Square::Bomb => {
                self.board_info.number_of_bombs = self.board_info.number_of_bombs - 1;
                self.set_cell(line, column, Square::Marked(true));
            },
            Square::Marked(correct) => {
                self.board_info.number_of_bombs = self.board_info.number_of_bombs + 1;
                self.set_cell(line, column, Square::Uncertain(correct));
            },
            Square::Uncertain(correct) => {
                if correct {
                    self.set_cell(line, column, Square::Bomb);
                } else {
                    let counter = self.count_adjacent(line, column);
                    self.set_cell(line, column, Square::Close(counter));
                }
            },
            Square::Opened(_) => (),
        }
        proof {
            let pre = *old(self);
            assert forall|l2: int, c2: int|
                pre.in_bounds_spec(l2, c2) implies is_bombish(#[trigger] self.cell(l2, c2))
                == is_bombish(pre.cell(l2, c2)) by {}
            Board::lemma_adj_frame(pre, *self);
            assert forall|l2: int, c2: int|
                self.in_bounds_spec(l2, c2) implies match #[trigger] self.cell(l2, c2) {
                Square::Close(n) => n == self.adj_bombs(l2, c2),
                Square::Opened(n) => n == self.adj_bombs(l2, c2),
                _ => true,
            } by {
                assert(self.adj_bombs(l2, c2) == pre.adj_bombs(l2, c2));
                if !(l2 == pre.cursor_line_spec() as int && c2 == pre.cursor_column_spec()
                    as int) {
                    assert(self.cell(l2, c2) == pre.cell(l2, c2));
                }
            }
        }
    }

    /// Whether some stack entry names the given position.
    pub open spec fn in_stack(st: Seq<(usize, usize)>, l: int, c: int) -> bool {
        exists|k: int| 0 <= k < st.len() && (#[trigger] st[k]).0 == l && st[k].1 == c
    }

    /// Reveal the square at the given position when it is closed, and
    /// flood outward through a work stack: opening a square with no
    /// adjacent bomb queues all eight neighbors. Every opened square adds
    /// one point.
    #[verifier::rlimit(100)]
    pub fn reveal_block(&mut self, line: usize, column: usize)
        requires
            old(self).inv(),
            line < old(self).height_spec(),
            column < old(self).width_spec(),
            old(self).score_spec() + old(self).cells_spec().len() <= usize::MAX,
        ensures
            final(self).inv(),
            final(self).height_spec() == old(self).height_spec(),
            final(self).width_spec() == old(self).width_spec(),
            final(self).bombs_spec() == old(self).bombs_spec(),
            final(self).cursor_line_spec() == old(self).cursor_line_spec(),
            final(self).cursor_column_spec() == old(self).cursor_column_spec(),
            final(self).revealed_bomb_spec() == old(self).revealed_bomb_spec(),
            final(self).cursor_hidden_spec() == old(self).cursor_hidden_spec(),
            forall|l: int, c: int|
                old(self).in_bounds_spec(l, c) ==> #[trigger] final(self).cell(l, c) == old(
                    self,
                ).cell(l, c) || (is_close(old(self).cell(l, c)) && final(self).cell(l, c)
                    == Square::Opened(old(self).adj_bombs(l, c) as usize)),
            is_close(old(self).cell(line as int, column as int)) ==> final(self).cell(
                line as int,
                column as int,
            ) == Square::Opened(old(self).adj_bombs(line as int, column as int) as usize),
            final(self).score_spec() == old(self).score_spec() + (count_close(
                old(self).cells_spec(),
                old(self).cells_spec().len() as int,
            ) - count_close(final(self).cells_spec(), final(self).cells_spec().len() as int)),
            count_opened(final(self).cells_spec(), final(self).cells_spec().len() as int)
                == count_opened(old(self).cells_spec(), old(self).cells_spec().len() as int) + (
            count_close(old(self).cells_spec(), old(self).cells_spec().len() as int) - count_close(
                final(self).cells_spec(),
                final(self).cells_spec().len() as int,
            )),
            old(self).zero_closed() ==> final(self).zero_closed(),
            forall|l: int, c: int|
                old(self).in_bounds_spec(l, c) && #[trigger] final(self).cell(l, c) != old(
                    self,
                ).cell(l, c) ==> in_region(*old(self), line as int, column as int, l, c),
    {
        let ghost start = *old(self);
        let ghost nn = start.cells_spec().len() as int;
        let mut stack: Vec<(usize, usize)> = Vec::new();
        stack.push((line, column));
        proof {
            lemma_count_close_bounds(start.cells_spec(), nn);
            assert(stack@[0] == (line, column));
            assert(Board::in_stack(stack@, line as int, column as int));
            lemma_region_start(start, line as int, column as int);
            assert forall|l2: int, c2: int| #[trigger] Board::in_stack(stack@, l2, c2)
                implies in_region(start, line as int, column as int, l2, c2) by {
                let k = choose|k: int|
                    0 <= k < stack@.len() && (#[trigger] stack@[k]).0 == l2 && stack@[k].1 == c2;
                assert(stack@[k] == (line, column));
            }
        }
        while stack.len() > 0
            invariant
                self.inv(),
                start.inv(),
                start.score_spec() + start.cells_spec().len() <= usize::MAX,
                line < start.height_spec(),
                column < start.width_spec(),
                self.height_spec() == start.height_spec(),
                self.width_spec() == start.width_spec(),
                self.bombs_spec() == start.bombs_spec(),
                self.cursor_line_spec() == start.cursor_line_spec(),
                self.cursor_column_spec() == start.cursor_column_spec(),
                self.revealed_bomb_spec() == start.revealed_bomb_spec(),
                self.cursor_hidden_spec() == start.cursor_hidden_spec(),
                self.cells_spec().len() == start.cells_spec().len(),
                nn == start.cells_spec().len() as int,
                count_opened(self.cells_spec(), nn) == count_opened(start.cells_spec(), nn) + (
                count_close(start.cells_spec(), nn) - count_close(self.cells_spec(), nn)),
                forall|k: int|
                    0 <= k < stack@.len() ==> (#[trigger] stack@[k]).0 < start.height_spec()
                        && stack@[k].1 < start.width_spec(),
                forall|l: int, c: int|
                    start.in_bounds_spec(l, c) ==> #[trigger] self.cell(l, c) == start.cell(l, c)
                        || (is_close(start.cell(l, c)) && self.cell(l, c) == Square::Opened(
                        start.adj_bombs(l, c) as usize,
                    )),
                self.score_spec() == start.score_spec() + (count_close(start.cells_spec(), nn)
                    - count_close(self.cells_spec(), nn)),
                0 <= count_close(self.cells_spec(), nn) <= count_close(start.cells_spec(), nn),
                count_close(start.cells_spec(), nn) <= nn,
                is_close(start.cell(line as int, column as int)) ==> (self.cell(
                    line as int,
                    column as int,
                ) == Square::Opened(start.adj_bombs(line as int, column as int) as usize)
                    || Board::in_stack(stack@, line as int, column as int)),
                forall|l2: int, c2: int| #[trigger] Board::in_stack(stack@, l2, c2) ==> in_region(
                    start,
                    line as int,
                    column as int,
                    l2,
                    c2,
                ),
                forall|l: int, c: int|
                    start.in_bounds_spec(l, c) && #[trigger] self.cell(l, c) != start.cell(l, c)
                        ==> in_region(start, line as int, column as int, l, c),
                start.zero_closed() ==> forall|l: int, c: int|
                    start.in_bounds_spec(l, c) && #[trigger] self.cell(l, c) == Square::Opened(0)
                        ==> forall|dl: int, dc: int|
                        -1 <= dl <= 1 && -1 <= dc <= 1 && self.in_bounds_spec(l + dl, c + dc)
                            ==> !is_close(#[trigger] self.cell(l + dl, c + dc)) || Board::in_stack(
                            stack@,
                            l + dl,
                            c + dc,
                        ),
            decreases count_close(self.cells_spec(), nn), stack@.len(),
        {
            let ghost pre = *self;
            let ghost pre_stack_full = stack@;
            let top: (usize, usize) = match stack.pop() {
                Option::Some(p) => p,
                Option::None => {
                    proof {
                        assert(false);
                    }
                    (0, 0)
                },
            };
            let ghost pre_stack = stack@;
            let p0 = top.0;
            let p1 = top.1;
            let sq = *self.consult_position_dims(p0, p1);
            proof {
                assert(pre_stack.push(top) =~= pre_stack_full);
            }
            if let Square::Close(amount) = sq {
                proof {
                    self.lemma_index_ok(p0 as int, p1 as int);
                    lemma_count_close_at(
                        self.cells_spec(),
                        nn,
                        p0 as int * self.width_spec() + p1,
                    );
                    lemma_count_close_update(
                        self.cells_spec(),
                        nn,
                        p0 as int * self.width_spec() + p1,
                        Square::Opened(amount),
                    );
                    lemma_counts_update(
                        self.cells_spec(),
                        nn,
                        p0 as int * self.width_spec() + p1,
                        Square::Opened(amount),
                    );
                }
                self.score += 1;
                self.set_cell(p0, p1, Square::Opened(amount));
                proof {
                    lemma_count_close_bounds(self.cells_spec(), nn);
                    Board::lemma_counts_frame_open(pre, *self, p0 as int, p1 as int, amount as int);
                }
                proof {
                    // the popped square belongs to the flood region, and it
                    // was still closed in the start board
                    assert(pre_stack_full[pre_stack_full.len() - 1] == top);
                    assert(Board::in_stack(pre_stack_full, p0 as int, p1 as int));
                    assert(in_region(start, line as int, column as int, p0 as int, p1 as int));
                    assert(pre.cell(p0 as int, p1 as int) == Square::Close(amount as usize));
                    assert(start.cell(p0 as int, p1 as int) == Square::Close(amount as usize));
                    assert forall|l: int, c: int|
                        start.in_bounds_spec(l, c) && #[trigger] self.cell(l, c) != start.cell(
                            l,
                            c,
                        ) implies in_region(start, line as int, column as int, l, c) by {
                        if !(l == p0 && c == p1) {
                            assert(self.cell(l, c) == pre.cell(l, c));
                        }
                    }
                }
                if amount == 0 {
                    let h = self.board_info.height;
                    let w = self.board_info.width;
                    let ghost st0 = stack@;
                    push_if_in_bounds(&mut stack, h, w, p0 as i32 - 1, p1 as i32 - 1);
                    let ghost st1 = stack@;
                    push_if_in_bounds(&mut stack, h, w, p0 as i32 - 1, p1 as i32);
                    let ghost st2 = stack@;
                    push_if_in_bounds(&mut stack, h, w, p0 as i32 - 1, p1 as i32 + 1);
                    let ghost st3 = stack@;
                    push_if_in_bounds(&mut stack, h, w, p0 as i32, p1 as i32 - 1);
                    let ghost st4 = stack@;
                    push_if_in_bounds(&mut stack, h, w, p0 as i32, p1 as i32 + 1);
                    let ghost st5 = stack@;
                    push_if_in_bounds(&mut stack, h, w, p0 as i32 + 1, p1 as i32 - 1);
                    let ghost st6 = stack@;
                    push_if_in_bounds(&mut stack, h, w, p0 as i32 + 1, p1 as i32);
                    let ghost st7 = stack@;
                    push_if_in_bounds(&mut stack, h, w, p0 as i32 + 1, p1 as i32 + 1);
                    proof {
                        // every queued square lies in the flood region: the
                        // old entries already did, and each fresh one
                        // neighbors the popped closed zero-count square
                        assert(start.cell(p0 as int, p1 as int) == Square::Close(0));
                        assert forall|l2: int, c2: int| #[trigger] Board::in_stack(
                            stack@,
                            l2,
                            c2,
                        ) implies in_region(start, line as int, column as int, l2, c2) by {
                            if Board::in_stack(st0, l2, c2) {
                                let k = choose|k: int|
                                    0 <= k < st0.len() && (#[trigger] st0[k]).0 == l2 && st0[k].1
                                        == c2;
                                assert(pre_stack_full[k] == st0[k]);
                                assert(Board::in_stack(pre_stack_full, l2, c2));
                            } else {
                                assert(start.in_bounds_spec(l2, c2) && touches(
                                    p0 as int,
                                    p1 as int,
                                    l2,
                                    c2,
                                )) by {
                                    if Board::in_stack(st1, l2, c2) {
                                    } else if Board::in_stack(st2, l2, c2) {
                                    } else if Board::in_stack(st3, l2, c2) {
                                    } else if Board::in_stack(st4, l2, c2) {
                                    } else if Board::in_stack(st5, l2, c2) {
                                    } else if Board::in_stack(st6, l2, c2) {
                                    } else if Board::in_stack(st7, l2, c2) {
                                    } else {
                                    }
                                }
                                lemma_region_extend(
                                    start,
                                    line as int,
                                    column as int,
                                    p0 as int,
                                    p1 as int,
                                    l2,
                                    c2,
                                );
                            }
                        }
                    }
                }
                proof {
                    if amount != 0 {
                        assert forall|l2: int, c2: int| #[trigger] Board::in_stack(
                            stack@,
                            l2,
                            c2,
                        ) implies in_region(start, line as int, column as int, l2, c2) by {
                            let k = choose|k: int|
                                0 <= k < stack@.len() && (#[trigger] stack@[k]).0 == l2
                                    && stack@[k].1 == c2;
                            assert(pre_stack_full[k] == stack@[k]);
                            assert(Board::in_stack(pre_stack_full, l2, c2));
                        }
                    }
                    self.lemma_flood_reestablish(
                        start,
                        pre,
                        pre_stack,
                        stack@,
                        p0 as int,
                        p1 as int,
                        amount as int,
                        line as int,
                        column as int,
                        nn,
                    );
                }
            } else {
                proof {
                    assert forall|l2: int, c2: int| #[trigger] Board::in_stack(
                        stack@,
                        l2,
                        c2,
                    ) implies in_region(start, line as int, column as int, l2, c2) by {
                        let k = choose|k: int|
                            0 <= k < stack@.len() && (#[trigger] stack@[k]).0 == l2 && stack@[k].1
                                == c2;
                        assert(pre_stack_full[k] == stack@[k]);
                        assert(Board::in_stack(pre_stack_full, l2, c2));
                    }
                    self.lemma_skip_reestablish(
                        start,
                        pre_stack,
                        stack@,
                        p0 as int,
                        p1 as int,
                        line as int,
                        column as int,
                    );
                }
            }
        }
        proof {
            assert forall|l2: int, c2: int|
                start.in_bounds_spec(l2, c2) implies is_bombish(#[trigger] self.cell(l2, c2))
                == is_bombish(start.cell(l2, c2)) by {}
            Board::lemma_adj_frame(start, *self);
            if start.zero_closed() {
                assert forall|l: int, c: int|
                    self.in_bounds_spec(l, c) && #[trigger] self.cell(l, c) == Square::Opened(0)
                        implies forall|dl: int, dc: int|
                        -1 <= dl <= 1 && -1 <= dc <= 1 && self.in_bounds_spec(l + dl, c + dc)
                            ==> !is_close(#[trigger] self.cell(l + dl, c + dc)) && self.cell(
                            l + dl,
                            c + dc,
                        ) != Square::Bomb by {
                    assert forall|dl: int, dc: int|
                        -1 <= dl <= 1 && -1 <= dc <= 1 && self.in_bounds_spec(l + dl, c + dc)
                            implies !is_close(#[trigger] self.cell(l + dl, c + dc)) && self.cell(
                            l + dl,
                            c + dc,
                        ) != Square::Bomb by {
                        assert(!Board::in_stack(stack@, l + dl, c + dc));
                        assert(self.adj_bombs(l, c) == 0);
                        assert(self.bomb_at(l + dl, c + dc) == 0 || (dl == 0 && dc == 0));
                    }
                }
            }
        }
    }

    /// Opening one closed square, count in hand, keeps every count
    /// accurate.
    proof fn lemma_counts_frame_open(pre: Board, post: Board, l0: int, c0: int, amount: int)
        requires
            0 <= amount <= usize::MAX,
            pre.inv(),
            post.height_spec() == pre.height_spec(),
            post.width_spec() == pre.width_spec(),
            pre.in_bounds_spec(l0, c0),
            pre.cell(l0, c0) == Square::Close(amount as usize),
            post.cell(l0, c0) == Square::Opened(amount as usize),
            forall|l: int, c: int|
                pre.in_bounds_spec(l, c) && !(l == l0 && c == c0) ==> #[trigger] post.cell(l, c)
                    == pre.cell(l, c),
        ensures
            post.counts_accurate(),
    {
        assert forall|l: int, c: int|
            pre.in_bounds_spec(l, c) implies is_bombish(#[trigger] post.cell(l, c)) == is_bombish(
            pre.cell(l, c),
        ) by {}
        Board::lemma_adj_frame(pre, post);
        assert forall|l: int, c: int|
            post.in_bounds_spec(l, c) implies match #[trigger] post.cell(l, c) {
            Square::Close(n) => n == post.adj_bombs(l, c),
            Square::Opened(n) => n == post.adj_bombs(l, c),
            _ => true,
        } by {
            if l == l0 && c == c0 {
                assert(amount == pre.adj_bombs(l0, c0));
            } else {
                assert(post.cell(l, c) == pre.cell(l, c));
            }
        }
    }

    /// Re-establish the flood loop's bookkeeping after a square was
    /// opened and, when it had no adjacent bomb, its neighbors were
    /// queued.
    #[verifier::rlimit(100)]
    proof fn lemma_flood_reestablish(
        &self,
        start: Board,
        pre: Board,
        pre_stack: Seq<(usize, usize)>,
        post_stack: Seq<(usize, usize)>,
        p0: int,
        p1: int,
        amount: int,
        line: int,
        column: int,
        nn: int,
    )
        requires
            0 <= amount <= usize::MAX,
            start.inv(),
            pre.inv(),
            self.inv(),
            start.in_bounds_spec(line, column),
            pre.in_bounds_spec(p0, p1),
            self.height_spec() == start.height_spec(),
            self.width_spec() == start.width_spec(),
            pre.height_spec() == start.height_spec(),
            pre.width_spec() == start.width_spec(),
            pre.cell(p0, p1) == Square::Close(amount as usize),
            self.cell(p0, p1) == Square::Opened(amount as usize),
            forall|l: int, c: int|
                start.in_bounds_spec(l, c) && !(l == p0 && c == p1) ==> #[trigger] self.cell(l, c)
                    == pre.cell(l, c),
            forall|l: int, c: int|
                start.in_bounds_spec(l, c) ==> #[trigger] pre.cell(l, c) == start.cell(l, c) || (
                is_close(start.cell(l, c)) && pre.cell(l, c) == Square::Opened(
                    start.adj_bombs(l, c) as usize,
                )),
            is_close(start.cell(line, column)) ==> (pre.cell(line, column) == Square::Opened(
                start.adj_bombs(line, column) as usize,
            ) || Board::in_stack(pre_stack.push((p0 as usize, p1 as usize)), line, column)),
            pre_stack.push((p0 as usize, p1 as usize)).last() == (p0 as usize, p1 as usize),
            forall|l2: int, c2: int|
                Board::in_stack(pre_stack, l2, c2) ==> #[trigger] Board::in_stack(
                    post_stack,
                    l2,
                    c2,
                ),
            amount == 0 ==> forall|dl: int, dc: int|
                -1 <= dl <= 1 && -1 <= dc <= 1 && !(dl == 0 && dc == 0) && self.in_bounds_spec(
                    p0 + dl,
                    p1 + dc,
                ) ==> #[trigger] Board::in_stack(post_stack, p0 + dl, p1 + dc),
            start.zero_closed() ==> forall|l: int, c: int|
                start.in_bounds_spec(l, c) && #[trigger] pre.cell(l, c) == Square::Opened(0)
                    ==> forall|dl: int, dc: int|
                    -1 <= dl <= 1 && -1 <= dc <= 1 && pre.in_bounds_spec(l + dl, c + dc)
                        ==> !is_close(#[trigger] pre.cell(l + dl, c + dc)) || Board::in_stack(
                        pre_stack.push((p0 as usize, p1 as usize)),
                        l + dl,
                        c + dc,
                    ),
        ensures
            forall|l: int, c: int|
                start.in_bounds_spec(l, c) ==> #[trigger] self.cell(l, c) == start.cell(l, c) || (
                is_close(start.cell(l, c)) && self.cell(l, c) == Square::Opened(
                    start.adj_bombs(l, c) as usize,
                )),
            is_close(start.cell(line, column)) ==> (self.cell(line, column) == Square::Opened(
                start.adj_bombs(line, column) as usize,
            ) || Board::in_stack(post_stack, line, column)),
            start.zero_closed() ==> forall|l: int, c: int|
                start.in_bounds_spec(l, c) && #[trigger] self.cell(l, c) == Square::Opened(0)
                    ==> forall|dl: int, dc: int|
                    -1 <= dl <= 1 && -1 <= dc <= 1 && self.in_bounds_spec(l + dl, c + dc)
                        ==> !is_close(#[trigger] self.cell(l + dl, c + dc)) || Board::in_stack(
                        post_stack,
                        l + dl,
                        c + dc,
                    ),
    {
        let full = pre_stack.push((p0 as usize, p1 as usize));
        assert forall|l: int, c: int|
            start.in_bounds_spec(l, c) implies is_bombish(#[trigger] pre.cell(l, c)) == is_bombish(
            start.cell(l, c),
        ) by {}
        Board::lemma_adj_frame(start, pre);
        assert forall|l: int, c: int|
            start.in_bounds_spec(l, c) implies #[trigger] self.cell(l, c) == start.cell(l, c) || (
        is_close(start.cell(l, c)) && self.cell(l, c) == Square::Opened(
            start.adj_bombs(l, c) as usize,
        )) by {
            if l == p0 && c == p1 {
                assert(pre.cell(p0, p1) == start.cell(p0, p1));
                assert(start.cell(p0, p1) == Square::Close(amount as usize));
                assert(amount == start.adj_bombs(p0, p1));
            }
        }
        if is_close(start.cell(line, column)) {
            if pre.cell(line, column) == Square::Opened(start.adj_bombs(line, column) as usize) {
                if line == p0 && column == p1 {
                    assert(false);
                } else {
                    assert(self.cell(line, column) == pre.cell(line, column));
                }
            } else {
                let k = choose|k: int|
                    0 <= k < full.len() && (#[trigger] full[k]).0 == line && full[k].1 == column;
                if k == full.len() - 1 {
                    assert(line == p0 && column == p1);
                    assert(pre.cell(p0, p1) == start.cell(p0, p1));
                    assert(start.cell(p0, p1) == Square::Close(amount as usize));
                    assert(amount == start.adj_bombs(p0, p1));
                } else {
                    assert(full[k] == pre_stack[k]);
                    assert(Board::in_stack(pre_stack, line, column));
                }
            }
        }
        if start.zero_closed() {
            assert forall|l: int, c: int|
                start.in_bounds_spec(l, c) && #[trigger] self.cell(l, c) == Square::Opened(0)
                    implies forall|dl: int, dc: int|
                    -1 <= dl <= 1 && -1 <= dc <= 1 && self.in_bounds_spec(l + dl, c + dc)
                        ==> !is_close(#[trigger] self.cell(l + dl, c + dc)) || Board::in_stack(
                        post_stack,
                        l + dl,
                        c + dc,
                    ) by {
                assert forall|dl: int, dc: int|
                    -1 <= dl <= 1 && -1 <= dc <= 1 && self.in_bounds_spec(l + dl, c + dc)
                        implies !is_close(#[trigger] self.cell(l + dl, c + dc)) || Board::in_stack(
                        post_stack,
                        l + dl,
                        c + dc,
                    ) by {
                    if l == p0 && c == p1 {
                        assert(amount == 0);
                        if dl == 0 && dc == 0 {
                            assert(!is_close(self.cell(l, c)));
                        } else {
                            assert(Board::in_stack(post_stack, l + dl, c + dc));
                        }
                    } else {
                        assert(self.cell(l, c) == pre.cell(l, c));
                        assert(pre.cell(l, c) == Square::Opened(0));
                        if is_close(self.cell(l + dl, c + dc)) {
                            assert(!(l + dl == p0 && c + dc == p1));
                            assert(self.cell(l + dl, c + dc) == pre.cell(l + dl, c + dc));
                            assert(is_close(pre.cell(l + dl, c + dc)));
                            assert(Board::in_stack(full, l + dl, c + dc));
                            let k = choose|k: int|
                                0 <= k < full.len() && (#[trigger] full[k]).0 == l + dl && full[k].1
                                    == c + dc;
                            if k == full.len() - 1 {
                                assert(l + dl == p0 && c + dc == p1);
                                assert(false);
                            } else {
                                assert(full[k] == pre_stack[k]);
                                assert(Board::in_stack(pre_stack, l + dl, c + dc));
                            }
                        }
                    }
                }
            }
        }
    }

    /// Re-establish the flood loop's bookkeeping after a popped square
    /// turned out not to be closed.
    proof fn lemma_skip_reestablish(
        &self,
        start: Board,
        pre_stack: Seq<(usize, usize)>,
        post_stack: Seq<(usize, usize)>,
        p0: int,
        p1: int,
        line: int,
        column: int,
    )
        requires
            start.inv(),
            self.inv(),
            start.in_bounds_spec(line, column),
            self.in_bounds_spec(p0, p1),
            self.height_spec() == start.height_spec(),
            self.width_spec() == start.width_spec(),
            post_stack == pre_stack,
            !is_close(self.cell(p0, p1)),
            forall|l: int, c: int|
                start.in_bounds_spec(l, c) ==> #[trigger] self.cell(l, c) == start.cell(l, c) || (
                is_close(start.cell(l, c)) && self.cell(l, c) == Square::Opened(
                    start.adj_bombs(l, c) as usize,
                )),
            is_close(start.cell(line, column)) ==> (self.cell(line, column) == Square::Opened(
                start.adj_bombs(line, column) as usize,
            ) || Board::in_stack(pre_stack.push((p0 as usize, p1 as usize)), line, column)),
            start.zero_closed() ==> forall|l: int, c: int|
                start.in_bounds_spec(l, c) && #[trigger] self.cell(l, c) == Square::Opened(0)
                    ==> forall|dl: int, dc: int|
                    -1 <= dl <= 1 && -1 <= dc <= 1 && self.in_bounds_spec(l + dl, c + dc)
                        ==> !is_close(#[trigger] self.cell(l + dl, c + dc)) || Board::in_stack(
                        pre_stack.push((p0 as usize, p1 as usize)),
                        l + dl,
                        c + dc,
                    ),
        ensures
            is_close(start.cell(line, column)) ==> (self.cell(line, column) == Square::Opened(
                start.adj_bombs(line, column) as usize,
            ) || Board::in_stack(post_stack, line, column)),
            start.zero_closed() ==> forall|l: int, c: int|
                start.in_bounds_spec(l, c) && #[trigger] self.cell(l, c) == Square::Opened(0)
                    ==> forall|dl: int, dc: int|
                    -1 <= dl <= 1 && -1 <= dc <= 1 && self.in_bounds_spec(l + dl, c + dc)
                        ==> !is_close(#[trigger] self.cell(l + dl, c + dc)) || Board::in_stack(
                        post_stack,
                        l + dl,
                        c + dc,
                    ),
    {
        let full = pre_stack.push((p0 as usize, p1 as usize));
        if is_close(start.cell(line, column)) && self.cell(line, column) != Square::Opened(
            start.adj_bombs(line, column) as usize,
        ) {
            let k = choose|k: int|
                0 <= k < full.len() && (#[trigger] full[k]).0 == line && full[k].1 == column;
            if k == full.len() - 1 {
                assert(line == p0 && column == p1);
                assert(self.cell(line, column) == start.cell(line, column) || (is_close(
                    start.cell(line, column),
                ) && self.cell(line, column) == Square::Opened(
                    start.adj_bombs(line, column) as usize,
                )));
                assert(is_close(self.cell(p0, p1)));
                assert(false);
            } else {
                assert(full[k] == pre_stack[k]);
                assert(Board::in_stack(pre_stack, line, column));
            }
        }
        if start.zero_closed() {
            assert forall|l: int, c: int|
                start.in_bounds_spec(l, c) && #[trigger] self.cell(l, c) == Square::Opened(0)
                    implies forall|dl: int, dc: int|
                    -1 <= dl <= 1 && -1 <= dc <= 1 && self.in_bounds_spec(l + dl, c + dc)
                        ==> !is_close(#[trigger] self.cell(l + dl, c + dc)) || Board::in_stack(
                        post_stack,
                        l + dl,
                        c + dc,
                    ) by {
                assert forall|dl: int, dc: int|
                    -1 <= dl <= 1 && -1 <= dc <= 1 && self.in_bounds_spec(l + dl, c + dc)
                        implies !is_close(#[trigger] self.cell(l + dl, c + dc)) || Board::in_stack(
                        post_stack,
                        l + dl,
                        c + dc,
                    ) by {
                    if is_close(self.cell(l + dl, c + dc)) {
                        assert(Board::in_stack(full, l + dl, c + dc));
                        let k = choose|k: int|
                            0 <= k < full.len() && (#[trigger] full[k]).0 == l + dl && full[k].1 == c
                                + dc;
                        if k == full.len() - 1 {
                            assert(l + dl == p0 && c + dc == p1);
                            assert(false);
                        } else {
                            assert(full[k] == pre_stack[k]);
                            assert(Board::in_stack(pre_stack, l + dl, c + dc));
                        }
                    }
                }
            }
        }
    }

    /// How one `reveal_square` call relates the board before it to the
    /// board after it: a closed cursor square floods open from there, a
    /// bomb under the cursor records the loss, and anything else leaves
    /// the board untouched.
    pub open spec fn reveal_step(pre: Board, post: Board) -> bool {
        let l = pre.cursor_line_spec() as int;
        let c = pre.cursor_column_spec() as int;
        let nn = pre.cells_spec().len() as int;
        &&& post.height_spec() == pre.height_spec()
        &&& post.width_spec() == pre.width_spec()
        &&& post.bombs_spec() == pre.bombs_spec()
        &&& post.cursor_line_spec() == pre.cursor_line_spec()
        &&& post.cursor_column_spec() == pre.cursor_column_spec()
        &&& post.cursor_hidden_spec() == pre.cursor_hidden_spec()
        &&& match pre.cell(l, c) {
            Square::Close(_) => {
                &&& post.revealed_bomb_spec() == pre.revealed_bomb_spec()
                &&& post.cell(l, c) == Square::Opened(pre.adj_bombs(l, c) as usize)
                &&& (forall|l2: int, c2: int|
                    pre.in_bounds_spec(l2, c2) ==> #[trigger] post.cell(l2, c2) == pre.cell(
                        l2,
                        c2,
                    ) || (is_close(pre.cell(l2, c2)) && post.cell(l2, c2) == Square::Opened(
                        pre.adj_bombs(l2, c2) as usize,
                    )))
                &&& (forall|l2: int, c2: int|
                    pre.in_bounds_spec(l2, c2) && #[trigger] post.cell(l2, c2) != pre.cell(l2, c2)
                        ==> in_region(pre, l, c, l2, c2))
                &&& post.score_spec() == pre.score_spec() + (count_close(pre.cells_spec(), nn)
                    - count_close(post.cells_spec(), nn))
                &&& (pre.zero_closed() ==> post.zero_closed())
            },
            Square::Bomb => {
                &&& post.revealed_bomb_spec() == Option::Some(
                    Coord { x: pre.cursor_column_spec(), y: pre.cursor_line_spec() },
                )
                &&& post.cells_spec() == pre.cells_spec()
                &&& post.score_spec() == pre.score_spec()
            },
            _ => {
                &&& post.revealed_bomb_spec() == pre.revealed_bomb_spec()
                &&& post.cells_spec() == pre.cells_spec()
                &&& post.score_spec() == pre.score_spec()
            },
        }
    }

    /// How one `move_cursor` call relates the board before it to the
    /// board after it: the cursor steps one square, wrapping at the
    /// edges, and nothing else changes.
    pub open spec fn cursor_step(pre: Board, post: Board, direction: Directions) -> bool {
        let h = pre.height_spec() as int;
        let w = pre.width_spec() as int;
        let l = pre.cursor_line_spec() as int;
        let c = pre.cursor_column_spec() as int;
        &&& post.cells_spec() == pre.cells_spec()
        &&& post.score_spec() == pre.score_spec()
        &&& post.bombs_spec() == pre.bombs_spec()
        &&& post.revealed_bomb_spec() == pre.revealed_bomb_spec()
        &&& post.height_spec() == pre.height_spec()
        &&& post.width_spec() == pre.width_spec()
        &&& post.cursor_hidden_spec() == pre.cursor_hidden_spec()
        &&& match direction {
            Directions::Up => post.cursor_line_spec() as int == (if l == 0 {
                h - 1
            } else {
                l - 1
            }) && post.cursor_column_spec() as int == c,
            Directions::Down => post.cursor_line_spec() as int == (if l == h - 1 {
                0int
            } else {
                l + 1
            }) && post.cursor_column_spec() as int == c,
            Directions::Left => post.cursor_column_spec() as int == (if c == 0 {
                w - 1
            } else {
                c - 1
            }) && post.cursor_line_spec() as int == l,
            Directions::Right => post.cursor_column_spec() as int == (if c == w - 1 {
                0int
            } else {
                c + 1
            }) && post.cursor_line_spec() as int == l,
        }
    }

    /// Act on the cursor square: reveal it when closed (flooding from
    /// it), record the loss when it is a bomb, and do nothing otherwise.
    pub fn reveal_square(&mut self)
        requires
            old(self).inv(),
            old(self).score_spec() + old(self).cells_spec().len() <= usize::MAX,
        ensures
            final(self).inv(),
            final(self).height_spec() == old(self).height_spec(),
            final(self).width_spec() == old(self).width_spec(),
            final(self).bombs_spec() == old(self).bombs_spec(),
            final(self).cursor_line_spec() == old(self).cursor_line_spec(),
            final(self).cursor_column_spec() == old(self).cursor_column_spec(),
            final(self).cursor_hidden_spec() == old(self).cursor_hidden_spec(),
            Board::reveal_step(*old(self), *final(self)),
            ({
                let l = old(self).cursor_line_spec() as int;
                let c = old(self).cursor_column_spec() as int;
                match old(self).cell(l, c) {
                    Square::Close(_) => {
                        &&& final(self).revealed_bomb_spec() == old(self).revealed_bomb_spec()
                        &&& final(self).cell(l, c) == Square::Opened(
                            old(self).adj_bombs(l, c) as usize,
                        )
                        &&& (forall|l2: int, c2: int|
                            old(self).in_bounds_spec(l2, c2) ==> #[trigger] final(self).cell(
                                l2,
                                c2,
                            ) == old(self).cell(l2, c2) || (is_close(old(self).cell(l2, c2))
                                && final(self).cell(l2, c2) == Square::Opened(
                                old(self).adj_bombs(l2, c2) as usize,
                            )))
                        &&& (old(self).zero_closed() ==> final(self).zero_closed())
                    },
                    Square::Bomb => {
                        &&& final(self).revealed_bomb_spec() == Option::Some(
                            Coord {
                                x: old(self).cursor_column_spec(),
                                y: old(self).cursor_line_spec(),
                            },
                        )
                        &&& final(self).cells_spec() == old(self).cells_spec()
                        &&& final(self).score_spec() == old(self).score_spec()
                    },
                    _ => {
                        &&& final(self).revealed_bomb_spec() == old(self).revealed_bomb_spec()
                        &&& final(self).cells_spec() == old(self).cells_spec()
                        &&& final(self).score_spec() == old(self).score_spec()
                    },
                }
            }),
    {
        let line = self.curr_line;
        let column = self.curr_column;
        let sq = *self.consult_position(line, column);
        match sq {
            Square::Close(_) => {
                self.reveal_block(line, column);
            },
            Square::Bomb => {
                self.revealed_bomb = Option::Some(Coord { x: column, y: line });
                proof {
                    Board::lemma_counts_frame(*old(self), *self);
                }
            },
            _ => (),
        }
    }

    /// Close every square and hide the cursor, as leaving a game does.
    pub fn clear(&mut self)
        requires
            old(self).inv(),
        ensures
            final(self).inv(),
            final(self).height_spec() == old(self).height_spec(),
            final(self).width_spec() == old(self).width_spec(),
            final(self).bombs_spec() == old(self).bombs_spec(),
            final(self).score_spec() == old(self).score_spec(),
            final(self).revealed_bomb_spec() == old(self).revealed_bomb_spec(),
            final(self).cursor_line_spec() == old(self).cursor_line_spec(),
            final(self).cursor_column_spec() == old(self).cursor_column_spec(),
            final(self).cursor_hidden_spec(),
            forall|l: int, c: int|
                final(self).in_bounds_spec(l, c) ==> #[trigger] final(self).cell(l, c)
                    == Square::Close(0),
    {
        let mut index: usize = 0;
        let total = self.board.len();
        while index < total
            invariant
                self.dims_ok(),
                self.cursor_line_spec() < self.height_spec(),
                self.cursor_column_spec() < self.width_spec(),
                self.height_spec() == old(self).height_spec(),
                self.width_spec() == old(self).width_spec(),
                self.bombs_spec() == old(self).bombs_spec(),
                self.score_spec() == old(self).score_spec(),
                self.revealed_bomb_spec() == old(self).revealed_bomb_spec(),
                self.cursor_line_spec() == old(self).cursor_line_spec(),
                self.cursor_column_spec() == old(self).cursor_column_spec(),
                total == self.cells_spec().len(),
                index <= total,
                forall|n: int| 0 <= n < index ==> #[trigger] self.cells_spec()[n] == Square::Close(
                    0,
                ),
            decreases total - index,
        {
            self.board[index] = Square::Close(0);
            index += 1;
        }
        self.hide_cursor = true;
        proof {
            assert forall|l: int, c: int|
                self.in_bounds_spec(l, c) implies #[trigger] self.cell(l, c) == Square::Close(
                0,
            ) by {
                self.lemma_index_ok(l, c);
            }
            assert forall|l: int, c: int|
                self.in_bounds_spec(l, c) implies match #[trigger] self.cell(l, c) {
                Square::Close(n) => n == self.adj_bombs(l, c),
                Square::Opened(n) => n == self.adj_bombs(l, c),
                _ => true,
            } by {
                self.lemma_index_ok(l, c);
                assert(self.bomb_at(l - 1, c - 1) == 0) by {
                    if self.in_bounds_spec(l - 1, c - 1) {
                        assert(self.cell(l - 1, c - 1) == Square::Close(0));
                    }
                }
                assert(self.bomb_at(l - 1, c) == 0) by {
                    if self.in_bounds_spec(l - 1, c) {
                        assert(self.cell(l - 1, c) == Square::Close(0));
                    }
                }
                assert(self.bomb_at(l - 1, c + 1) == 0) by {
                    if self.in_bounds_spec(l - 1, c + 1) {
                        assert(self.cell(l - 1, c + 1) == Square::Close(0));
                    }
                }
                assert(self.bomb_at(l, c - 1) == 0) by {
                    if self.in_bounds_spec(l, c - 1) {
                        assert(self.cell(l, c - 1) == Square::Close(0));
                    }
                }
                assert(self.bomb_at(l, c + 1) == 0) by {
                    if self.in_bounds_spec(l, c + 1) {
                        assert(self.cell(l, c + 1) == Square::Close(0));
                    }
                }
                assert(self.bomb_at(l + 1, c - 1) == 0) by {
                    if self.in_bounds_spec(l + 1, c - 1) {
                        assert(self.cell(l + 1, c - 1) == Square::Close(0));
                    }
                }
                assert(self.bomb_at(l + 1, c) == 0) by {
                    if self.in_bounds_spec(l + 1, c) {
                        assert(self.cell(l + 1, c) == Square::Close(0));
                    }
                }
                assert(self.bomb_at(l + 1, c + 1) == 0) by {
                    if self.in_bounds_spec(l + 1, c + 1) {
                        assert(self.cell(l + 1, c + 1) == Square::Close(0));
                    }
                }
            }
        }
    }

    /// What a fresh round at the given difficulty guarantees: the preset
    /// dimensions and bomb budget, exactly that many squares hiding
    /// bombs, no marked or uncertain square, a score that counts exactly
    /// the opened squares, a round neither lost nor already won, the
    /// flood run to its boundary, a visible cursor, and the cursor on an
    /// auto-revealed square with no adjacent bomb whenever the board
    /// offered one.
    pub open spec fn fresh_round(post: Board, difficult: Difficult) -> bool {
        let nn = post.cells_spec().len() as int;
        &&& match difficult {
            Difficult::Easy => post.height_spec() == 9 && post.width_spec() == 9
                && post.bombs_spec() == 10,
            Difficult::Medium => post.height_spec() == 16 && post.width_spec() == 16
                && post.bombs_spec() == 40,
            Difficult::Hard => post.height_spec() == 16 && post.width_spec() == 30
                && post.bombs_spec() == 100,
        }
        &&& !post.lost_spec()
        &&& !post.won_spec()
        &&& post.zero_closed()
        &&& !post.cursor_hidden_spec()
        &&& count_bombish(post.cells_spec(), nn) == post.bombs_spec()
        &&& forall|l: int, c: int|
            post.in_bounds_spec(l, c) ==> (#[trigger] post.cell(l, c)) matches Square::Close(_)
                || post.cell(l, c) matches Square::Opened(_) || post.cell(l, c) == Square::Bomb
        &&& post.score_spec() == count_opened(post.cells_spec(), nn)
        &&& (post.cell(post.cursor_line_spec() as int, post.cursor_column_spec() as int)
            == Square::Opened(0) || (forall|l: int, c: int|
            post.in_bounds_spec(l, c) ==> #[trigger] post.cell(l, c) != Square::Close(0) && !(
            post.cell(l, c) is Opened)))
    }

    /// Start a fresh round at the given difficulty: pick the preset
    /// dimensions and bomb budget, scatter the bombs at random, compute
    /// every count, and open a first flood from a randomly sought square
    /// with no adjacent bomb.
    #[verifier::rlimit(100)]
    pub fn reset(&mut self, difficult: &Difficult)
        ensures
            final(self).inv(),
            !final(self).lost_spec(),
            final(self).zero_closed(),
            Board::fresh_round(*final(self), *difficult),
            ({
                match *difficult {
                    Difficult::Easy => final(self).height_spec() == 9 && final(self).width_spec()
                        == 9 && final(self).bombs_spec() == 10,
                    Difficult::Medium => final(self).height_spec() == 16
                        && final(self).width_spec() == 16 && final(self).bombs_spec() == 40,
                    Difficult::Hard => final(self).height_spec() == 16 && final(self).width_spec()
                        == 30 && final(self).bombs_spec() == 100,
                }
            }),
    {
        self.score = 0;
        self.hide_cursor = false;
        self.revealed_bomb = Option::None;
        match difficult {
            Difficult::Easy => {
                self.board_info = BoardInfo { height: 9, width: 9, number_of_bombs: 10 };
            },
            Difficult::Medium => {
                self.board_info = BoardInfo { height: 16, width: 16, number_of_bombs: 40 };
            },
            Difficult::Hard => {
                self.board_info = BoardInfo { height: 16, width: 30, number_of_bombs: 100 };
            },
        }
        let h = self.board_info.height;
        let w = self.board_info.width;
        let total: usize = h * w;
        let mut fresh: Vec<Square> = Vec::new();
        let mut i: usize = 0;
        while i < total
            invariant
                fresh@.len() == i,
                i <= total,
                forall|n: int| 0 <= n < i ==> #[trigger] fresh@[n] == Square::Close(0),
            decreases total - i,
        {
            fresh.push(Square::Close(0));
            i += 1;
        }
        self.board = fresh;
        self.curr_line = 0;
        self.curr_column = 0;
        let ghost cleared = *self;
        let ghost nn = total as int;
        proof {
            assert(cleared.dims_ok());
            lemma_count_bombish_bounds(self.cells_spec(), nn);
            assert(forall|i: int|
                0 <= i < nn ==> !is_bombish(#[trigger] self.cells_spec()[i]));
            assert(count_bombish(self.cells_spec(), nn) == 0);
            assert(0 < cleared.bombs_spec() < nn);
        }
        let bombs = self.board_info.number_of_bombs;
        let mut placed: i32 = 0;
        while placed < bombs
            invariant
                self.dims_ok(),
                self.height_spec() == cleared.height_spec(),
                self.width_spec() == cleared.width_spec(),
                self.bombs_spec() == cleared.bombs_spec(),
                self.curr_line == 0,
                self.curr_column == 0,
                self.score_spec() == 0,
                self.revealed_bomb_spec() is None,
                !self.cursor_hidden_spec(),
                bombs == cleared.bombs_spec(),
                0 <= placed <= bombs,
                nn == self.cells_spec().len() as int,
                0 < bombs < nn,
                count_bombish(self.cells_spec(), nn) == placed,
                forall|n: int|
                    0 <= n < self.cells_spec().len() ==> #[trigger] self.cells_spec()[n]
                        == Square::Close(0) || self.cells_spec()[n] == Square::Bomb,
            decreases bombs - placed,
        {
            proof {
                lemma_count_bombish_bounds(self.cells_spec(), nn);
                let i = choose|i: int|
                    0 <= i < nn && !is_bombish(#[trigger] self.cells_spec()[i]);
                assert(self.cells_spec()[i] != Square::Bomb);
            }
            self.place_bomb();
            placed += 1;
        }
        let mut line: usize = 0;
        while line < h
            invariant
                self.dims_ok(),
                h == self.height_spec(),
                w == self.width_spec(),
                self.height_spec() == cleared.height_spec(),
                self.width_spec() == cleared.width_spec(),
                self.bombs_spec() == cleared.bombs_spec(),
                self.curr_line == 0,
                self.curr_column == 0,
                self.score_spec() == 0,
                self.revealed_bomb_spec() is None,
                !self.cursor_hidden_spec(),
                nn == self.cells_spec().len() as int,
                count_bombish(self.cells_spec(), nn) == cleared.bombs_spec(),
                line <= h,
                forall|n: int|
                    0 <= n < self.cells_spec().len() ==> is_close(#[trigger] self.cells_spec()[n])
                        || self.cells_spec()[n] == Square::Bomb,
                forall|l: int, c: int|
                    0 <= l < line && 0 <= c < self.width_spec() ==> (is_close(
                        #[trigger] self.cell(l, c),
                    ) ==> self.cell(l, c) == Square::Close(self.adj_bombs(l, c) as usize)),
            decreases h - line,
        {
            let mut column: usize = 0;
            while column < w
                invariant
                    self.dims_ok(),
                    h == self.height_spec(),
                    w == self.width_spec(),
                    self.height_spec() == cleared.height_spec(),
                    self.width_spec() == cleared.width_spec(),
                    self.bombs_spec() == cleared.bombs_spec(),
                    self.curr_line == 0,
                    self.curr_column == 0,
                    self.score_spec() == 0,
                    self.revealed_bomb_spec() is None,
                    !self.cursor_hidden_spec(),
                    nn == self.cells_spec().len() as int,
                    count_bombish(self.cells_spec(), nn) == cleared.bombs_spec(),
                    line < h,
                    column <= w,
                    forall|n: int|
                        0 <= n < self.cells_spec().len() ==> is_close(
                            #[trigger] self.cells_spec()[n],
                        ) || self.cells_spec()[n] == Square::Bomb,
                    forall|l: int, c: int|
                        0 <= l < line && 0 <= c < self.width_spec() ==> (is_close(
                            #[trigger] self.cell(l, c),
                        ) ==> self.cell(l, c) == Square::Close(self.adj_bombs(l, c) as usize)),
                    forall|c: int|
                        0 <= c < column ==> (is_close(#[trigger] self.cell(line as int, c))
                            ==> self.cell(line as int, c) == Square::Close(
                            self.adj_bombs(line as int, c) as usize,
                        )),
                decreases w - column,
            {
                let ghost before = *self;
                self.update_close_square_counter(line, column);
                proof {
                    assert forall|l2: int, c2: int|
                        before.in_bounds_spec(l2, c2) implies is_bombish(
                        #[trigger] self.cell(l2, c2),
                    ) == is_bombish(before.cell(l2, c2)) by {}
                    Board::lemma_adj_frame(before, *self);
                    assert forall|n: int|
                        0 <= n < self.cells_spec().len() implies is_close(
                        #[trigger] self.cells_spec()[n],
                    ) || self.cells_spec()[n] == Square::Bomb by {
                        let l2 = n / (w as int);
                        let c2 = n % (w as int);
                        assert(0 <= l2 < h && 0 <= c2 < w) by (nonlinear_arith)
                            requires
                                0 <= n < self.cells_spec().len(),
                                self.cells_spec().len() == h * w,
                                1 <= w <= 100,
                                1 <= h <= 100,
                                l2 == n / (w as int),
                                c2 == n % (w as int),
                        ;
                        assert(n == l2 * w + c2) by (nonlinear_arith)
                            requires
                                l2 == n / (w as int),
                                c2 == n % (w as int),
                                1 <= w,
                                0 <= n,
                        ;
                        assert(self.cell(l2, c2) == self.cells_spec()[n]);
                        assert(is_close(before.cells_spec()[n]) || before.cells_spec()[n]
                            == Square::Bomb);
                    }
                    assert forall|n: int|
                        0 <= n < nn implies is_bombish(#[trigger] self.cells_spec()[n])
                        == is_bombish(before.cells_spec()[n]) by {
                        let l2 = n / (w as int);
                        let c2 = n % (w as int);
                        assert(0 <= l2 < h && 0 <= c2 < w) by (nonlinear_arith)
                            requires
                                0 <= n < nn,
                                nn == h * w,
                                1 <= w <= 100,
                                1 <= h <= 100,
                                l2 == n / (w as int),
                                c2 == n % (w as int),
                        ;
                        assert(n == l2 * w + c2) by (nonlinear_arith)
                            requires
                                l2 == n / (w as int),
                                c2 == n % (w as int),
                                1 <= w,
                                0 <= n,
                        ;
                        assert(self.cell(l2, c2) == self.cells_spec()[n]);
                        assert(before.cell(l2, c2) == before.cells_spec()[n]);
                        assert(is_bombish(self.cell(l2, c2)) == is_bombish(before.cell(l2, c2)));
                    }
                    lemma_count_bombish_pointwise(before.cells_spec(), self.cells_spec(), nn);
                }
                column += 1;
            }
            line += 1;
        }
        proof {
            assert forall|l: int, c: int|
                self.in_bounds_spec(l, c) implies match #[trigger] self.cell(l, c) {
                Square::Close(n) => n == self.adj_bombs(l, c),
                Square::Opened(n) => n == self.adj_bombs(l, c),
                _ => true,
            } by {
                self.lemma_index_ok(l, c);
                if is_close(self.cell(l, c)) {
                    assert(self.cell(l, c) == Square::Close(self.adj_bombs(l, c) as usize));
                    assert(0 <= self.adj_bombs(l, c) <= 8);
                } else {
                    assert(self.cell(l, c) == self.cells_spec()[l * self.width_spec() + c]);
                    assert(!(self.cell(l, c) matches Square::Opened(_)));
                }
            }
            assert(self.inv());
            assert forall|l: int, c: int|
                self.in_bounds_spec(l, c) && #[trigger] self.cell(l, c) == Square::Opened(0)
                    implies false by {
                self.lemma_index_ok(l, c);
            }
            assert(self.zero_closed());
        }
        let ghost counted = *self;
        let start_line = random_below(h);
        let start_column = random_below(w);
        self.curr_line = start_line;
        self.curr_column = start_column;
        let ghost s0 = start_line as int * w + start_column as int;
        proof {
            Board::lemma_counts_frame(counted, *self);
            assert forall|l: int, c: int|
                self.in_bounds_spec(l, c) && #[trigger] self.cell(l, c) == Square::Opened(0)
                    implies false by {
                assert(counted.cell(l, c) == Square::Opened(0));
                counted.lemma_index_ok(l, c);
            }
            assert(self.zero_closed());
            assert(0 <= s0 < w * h) by (nonlinear_arith)
                requires
                    s0 == start_line as int * w + start_column as int,
                    0 <= (start_line as int) < h,
                    0 <= (start_column as int) < w,
                    0 < w,
            ;
        }
        let mut probes: usize = 0;
        let mut found = false;
        while probes < total && !found
            invariant
                self.inv(),
                self.zero_closed(),
                self.height_spec() == cleared.height_spec(),
                self.width_spec() == cleared.width_spec(),
                self.bombs_spec() == cleared.bombs_spec(),
                self.score_spec() == 0,
                self.revealed_bomb_spec() is None,
                !self.cursor_hidden_spec(),
                self.cells_spec() == counted.cells_spec(),
                h == self.height_spec() as int,
                w == self.width_spec() as int,
                nn == total as int,
                nn == self.cells_spec().len() as int,
                0 <= s0 < total,
                probes <= total,
                !found ==> self.cursor_line_spec() as int * w + self.cursor_column_spec() as int
                    == (if s0 + probes < total {
                    s0 + probes
                } else {
                    s0 + probes - total
                }),
                !found ==> forall|j: int|
                    s0 <= j < total && j < s0 + probes ==> #[trigger] self.cells_spec()[j]
                        != Square::Close(0),
                !found ==> forall|j: int|
                    0 <= j < s0 + probes - total ==> #[trigger] self.cells_spec()[j]
                        != Square::Close(0),
                found ==> self.cell(
                    self.cursor_line_spec() as int,
                    self.cursor_column_spec() as int,
                ) == Square::Close(0),
            decreases total - probes,
        {
            let ghost before = *self;
            let ghost line0 = self.curr_line as int;
            let ghost column0 = self.curr_column as int;
            let ghost cur = line0 * w + column0;
            let sq = *self.consult_position(self.curr_line, self.curr_column);
            proof {
                self.lemma_index_ok(line0, column0);
                assert(self.cells_spec()[cur] == sq);
            }
            if matches!(sq, Square::Close(0usize)) {
                found = true;
            } else {
                self.curr_column += 1;
                if self.curr_column == self.board_info.width {
                    self.curr_column = 0;
                    self.curr_line += 1;
                }
                if self.curr_line == self.board_info.height {
                    self.curr_line = 0;
                }
                proof {
                    Board::lemma_counts_frame(before, *self);
                    Board::lemma_zero_closed_frame(before, *self);
                    assert(self.cells_spec()[cur] != Square::Close(0));
                    if column0 + 1 < w {
                        assert(self.cursor_line_spec() as int * w + self.cursor_column_spec() as int
                            == cur + 1);
                        assert(cur + 1 < total) by (nonlinear_arith)
                            requires
                                cur == line0 * w + column0,
                                0 <= line0 < h,
                                0 <= column0,
                                column0 + 1 < w,
                                total == h * w,
                        ;
                    } else if line0 + 1 < h {
                        assert(self.cursor_line_spec() as int * w + self.cursor_column_spec() as int
                            == (line0 + 1) * w);
                        assert((line0 + 1) * w == cur + 1 && cur + 1 < total) by (nonlinear_arith)
                            requires
                                cur == line0 * w + column0,
                                column0 + 1 == w,
                                0 <= line0,
                                0 < w,
                                line0 + 1 < h,
                                total == h * w,
                        ;
                    } else {
                        assert(column0 + 1 == w && line0 + 1 == h);
                        assert(self.cursor_line_spec() as int == 0 && self.cursor_column_spec()
                            as int == 0);
                        assert(self.cursor_line_spec() as int * w + self.cursor_column_spec() as int
                            == 0) by (nonlinear_arith)
                            requires
                                self.cursor_line_spec() as int == 0,
                                self.cursor_column_spec() as int == 0,
                        ;
                        assert(cur + 1 == total) by (nonlinear_arith)
                            requires
                                cur == line0 * w + column0,
                                column0 + 1 == w,
                                line0 + 1 == h,
                                total == h * w,
                        ;
                    }
                }
            }
            probes += 1;
        }
        let ghost staged = *self;
        proof {
            // every square still reads closed or bomb, and none is opened
            assert forall|n: int|
                0 <= n < nn implies (is_close(#[trigger] staged.cells_spec()[n])
                || staged.cells_spec()[n] == Square::Bomb) && !(staged.cells_spec()[n]
                is Opened) by {
                assert(staged.cells_spec()[n] == counted.cells_spec()[n]);
            }
            lemma_count_opened_none(staged.cells_spec(), nn);
            lemma_count_bombish_pointwise(counted.cells_spec(), staged.cells_spec(), nn);
        }
        if found {
            let cl = self.curr_line;
            let cc = self.curr_column;
            proof {
                assert(self.score_spec() + self.cells_spec().len() <= usize::MAX);
            }
            self.reveal_block(cl, cc);
            proof {
                assert forall|n: int|
                    0 <= n < nn implies is_bombish(#[trigger] self.cells_spec()[n]) == is_bombish(
                    staged.cells_spec()[n],
                ) by {
                    let l2 = n / (w as int);
                    let c2 = n % (w as int);
                    assert(0 <= l2 < h && 0 <= c2 < w) by (nonlinear_arith)
                        requires
                            0 <= n < nn,
                            nn == h * w,
                            1 <= w <= 100,
                            1 <= h <= 100,
                            l2 == n / (w as int),
                            c2 == n % (w as int),
                    ;
                    assert(n == l2 * w + c2) by (nonlinear_arith)
                        requires
                            l2 == n / (w as int),
                            c2 == n % (w as int),
                            1 <= w,
                            0 <= n,
                    ;
                    assert(self.cell(l2, c2) == self.cells_spec()[n]);
                    assert(staged.cell(l2, c2) == staged.cells_spec()[n]);
                    assert(self.cell(l2, c2) == staged.cell(l2, c2) || (is_close(
                        staged.cell(l2, c2),
                    ) && self.cell(l2, c2) == Square::Opened(staged.adj_bombs(l2, c2) as usize)));
                }
                lemma_count_bombish_pointwise(staged.cells_spec(), self.cells_spec(), nn);
                assert(count_bombish(self.cells_spec(), nn) == cleared.bombs_spec());
                assert forall|l: int, c: int|
                    self.in_bounds_spec(l, c) implies (#[trigger] self.cell(l, c))
                    matches Square::Close(_) || self.cell(l, c) matches Square::Opened(_)
                    || self.cell(l, c) == Square::Bomb by {
                    staged.lemma_index_ok(l, c);
                    assert(is_close(staged.cell(l, c)) || staged.cell(l, c) == Square::Bomb);
                    assert(self.cell(l, c) == staged.cell(l, c) || self.cell(l, c)
                        matches Square::Opened(_));
                }
                assert(staged.cell(cl as int, cc as int) == Square::Close(0));
                assert(staged.adj_bombs(cl as int, cc as int) == 0);
                assert(self.cell(
                    self.cursor_line_spec() as int,
                    self.cursor_column_spec() as int,
                ) == Square::Opened(0));
                assert(self.score_spec() == count_opened(self.cells_spec(), nn));
                Board::lemma_fresh_not_won(*self, nn);
            }
        } else {
            proof {
                assert forall|j: int| 0 <= j < nn implies #[trigger] staged.cells_spec()[j]
                    != Square::Close(0) by {
                    if j >= s0 {
                        assert(s0 <= j < total && j < s0 + total);
                    } else {
                        assert(0 <= j < s0 + probes - total);
                    }
                }
                assert forall|l: int, c: int|
                    self.in_bounds_spec(l, c) implies #[trigger] self.cell(l, c)
                    != Square::Close(0) && !(self.cell(l, c) is Opened) && ((self.cell(l, c))
                    matches Square::Close(_) || self.cell(l, c) matches Square::Opened(_)
                    || self.cell(l, c) == Square::Bomb) by {
                    self.lemma_index_ok(l, c);
                    assert(self.cells_spec()[l * w + c] != Square::Close(0));
                    assert(is_close(self.cells_spec()[l * w + c]) || self.cells_spec()[l * w + c]
                        == Square::Bomb);
                }
                assert(self.score_spec() == count_opened(self.cells_spec(), nn));
                Board::lemma_fresh_not_won(*self, nn);
            }
        }
    }

    /// A board whose squares are all closed, opened or bombs and whose
    /// hidden-bomb count is positive still hides a bomb, so the round is
    /// not yet won.
    proof fn lemma_fresh_not_won(self, nn: int)
        requires
            self.inv(),
            nn == self.cells_spec().len() as int,
            count_bombish(self.cells_spec(), nn) > 0,
            forall|l: int, c: int|
                self.in_bounds_spec(l, c) ==> (#[trigger] self.cell(l, c)) matches Square::Close(
                    _,
                ) || self.cell(l, c) matches Square::Opened(_) || self.cell(l, c) == Square::Bomb,
        ensures
            !self.won_spec(),
    {
        lemma_count_bombish_bounds(self.cells_spec(), nn);
        let i = choose|i: int| 0 <= i < nn && is_bombish(#[trigger] self.cells_spec()[i]);
        let w = self.width_spec() as int;
        let h = self.height_spec() as int;
        let l2 = i / w;
        let c2 = i % w;
        assert(0 <= l2 < h && 0 <= c2 < w) by (nonlinear_arith)
            requires
                0 <= i < nn,
                nn == h * w,
                1 <= w <= 100,
                1 <= h <= 100,
                l2 == i / w,
                c2 == i % w,
        ;
        assert(i == l2 * w + c2) by (nonlinear_arith)
            requires
                l2 == i / w,
                c2 == i % w,
                1 <= w,
                0 <= i,
        ;
        assert(self.cell(l2, c2) == self.cells_spec()[i]);
        assert(self.cell(l2, c2) == Square::Bomb);
        assert(!self.won_spec());
    }

    /// Scatter one bomb on a random square, probing upward past squares
    /// that already hold one. One full sweep visits every square, so a
    /// board with a free square always receives the bomb; only a board
    /// full of bombs is left as it is.
    fn place_bomb(&mut self)
        requires
            old(self).dims_ok(),
            forall|n: int|
                0 <= n < old(self).cells_spec().len() ==> #[trigger] old(self).cells_spec()[n]
                    == Square::Close(0) || old(self).cells_spec()[n] == Square::Bomb,
        ensures
            final(self).dims_ok(),
            final(self).height_spec() == old(self).height_spec(),
            final(self).width_spec() == old(self).width_spec(),
            final(self).bombs_spec() == old(self).bombs_spec(),
            final(self).cursor_line_spec() == old(self).cursor_line_spec(),
            final(self).cursor_column_spec() == old(self).cursor_column_spec(),
            final(self).revealed_bomb_spec() == old(self).revealed_bomb_spec(),
            final(self).score_spec() == old(self).score_spec(),
            final(self).cursor_hidden_spec() == old(self).cursor_hidden_spec(),
            final(self).cells_spec().len() == old(self).cells_spec().len(),
            forall|n: int|
                0 <= n < final(self).cells_spec().len() ==> #[trigger] final(self).cells_spec()[n]
                    == Square::Close(0) || final(self).cells_spec()[n] == Square::Bomb,
            if exists|n: int|
                0 <= n < old(self).cells_spec().len() && #[trigger] old(self).cells_spec()[n]
                    != Square::Bomb {
                count_bombish(final(self).cells_spec(), final(self).cells_spec().len() as int)
                    == count_bombish(old(self).cells_spec(), old(self).cells_spec().len() as int)
                    + 1
            } else {
                final(self).cells_spec() == old(self).cells_spec()
            },
    {
        let total = self.board.len();
        proof {
            self.lemma_index_ok(0, 0);
        }
        let idx0 = random_below(total);
        let ghost nn = total as int;
        let mut index = idx0;
        let mut probes: usize = 0;
        let mut found = false;
        while probes < total && !found
            invariant
                *self == *old(self),
                total == self.cells_spec().len(),
                0 < total,
                idx0 < total,
                index < total,
                probes <= total,
                !found ==> index as int == (if idx0 + probes < total {
                    idx0 + probes
                } else {
                    idx0 + probes - total
                }),
                !found ==> forall|j: int|
                    idx0 <= j < total && j < idx0 + probes ==> #[trigger] self.cells_spec()[j]
                        == Square::Bomb,
                !found ==> forall|j: int|
                    0 <= j < idx0 + probes - total ==> #[trigger] self.cells_spec()[j]
                        == Square::Bomb,
                found ==> !(self.cells_spec()[index as int] == Square::Bomb),
            decreases total - probes,
        {
            if !matches!(self.board[index], Square::Bomb) {
                found = true;
            } else {
                index += 1;
                if index == total {
                    index = 0;
                }
            }
            probes += 1;
        }
        if found {
            proof {
                lemma_counts_update(self.cells_spec(), nn, index as int, Square::Bomb);
                assert(self.cells_spec()[index as int] == Square::Close(0));
            }
            self.board[index] = Square::Bomb;
            proof {
                assert(self.cells_spec() =~= old(self).cells_spec().update(
                    index as int,
                    Square::Bomb,
                ));
            }
        } else {
            proof {
                assert forall|j: int| 0 <= j < nn implies #[trigger] self.cells_spec()[j]
                    == Square::Bomb by {
                    if j >= idx0 {
                        assert(idx0 <= j < total && j < idx0 + total);
                    } else {
                        assert(j < idx0 + probes - total);
                    }
                }
            }
        }
    }

    pub fn new() -> (r: Board)
        ensures
            r.inv(),
            !r.lost_spec(),
            r.zero_closed(),
            r.height_spec() == 16,
            r.width_spec() == 16,
            r.bombs_spec() == 40,
    {
        let mut instance = Board {
            board: Vec::new(),
            board_info: BoardInfo { height: 1, width: 1, number_of_bombs: 0 },
            hide_cursor: false,
            curr_line: 0,
            curr_column: 0,
            revealed_bomb: Option::None,
            score: 0,
        };
        instance.reset(&Difficult::Medium);
        instance
    }

    /// Move the cursor one square, wrapping at the edges.
    pub fn move_cursor(&mut self, direction: &Directions)
        requires
            old(self).inv(),
        ensures
            final(self).inv(),
            final(self).cells_spec() == old(self).cells_spec(),
            final(self).score_spec() == old(self).score_spec(),
            final(self).bombs_spec() == old(self).bombs_spec(),
            final(self).revealed_bomb_spec() == old(self).revealed_bomb_spec(),
            final(self).height_spec() == old(self).height_spec(),
            final(self).width_spec() == old(self).width_spec(),
            final(self).cursor_hidden_spec() == old(self).cursor_hidden_spec(),
            Board::cursor_step(*old(self), *final(self), *direction),
            ({
                let h = old(self).height_spec() as int;
                let w = old(self).width_spec() as int;
                let l = old(self).cursor_line_spec() as int;
                let c = old(self).cursor_column_spec() as int;
                match *direction {
                    Directions::Up => final(self).cursor_line_spec() as int == (if l == 0 {
                        h - 1
                    } else {
                        l - 1
                    }) && final(self).cursor_column_spec() == c,
                    Directions::Down => final(self).cursor_line_spec() as int == (if l == h - 1 {
                        0int
                    } else {
                        l + 1
                    }) && final(self).cursor_column_spec() == c,
                    Directions::Left => final(self).cursor_column_spec() as int == (if c == 0 {
                        w - 1
                    } else {
                        c - 1
                    }) && final(self).cursor_line_spec() == l,
                    Directions::Right => final(self).cursor_column_spec() as int == (if c == w
                        - 1 {
                        0int
                    } else {
                        c + 1
                    }) && final(self).cursor_line_spec() == l,
                }
            }),
    {
        match direction {
            Directions::Up => {
                if self.curr_line == 0 {
                    self.curr_line = self.board_info.height - 1;
                } else {
                    self.curr_line -= 1;
                }
            },
            Directions::Left => {
                if self.curr_column == 0 {
                    self.curr_column = self.board_info.width - 1;
                } else {
                    self.curr_column -= 1;
                }
            },
            Directions::Down => {
                self.curr_line += 1;
                if self.curr_line == self.board_info.height {
                    self.curr_line = 0;
                }
            },
            Directions::Right => {
                self.curr_column += 1;
                if self.curr_column == self.board_info.width {
                    self.curr_column = 0;
                }
            },
        }
        proof {
            Board::lemma_counts_frame(*old(self), *self);
        }
    }
}

} // verus!
