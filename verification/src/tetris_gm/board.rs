//! The tetris simulation: a twenty by ten grid of settled colored cells,
//! an active piece with its anchor, and a one-piece lookahead. Every
//! move, rotation and drop is validated by a fit check before anything is
//! committed; locking a piece removes the completed rows, awards the
//! fixed score for one to four cleared rows, and spawns the next piece.

use vstd::prelude::*;

use crate::game_manager::Coord;
use crate::tetris_gm::bricks::occupied_rot;
use crate::tetris_gm::bricks::Brick;

verus! {

/// The largest score that still leaves room for the points one drop can
/// award.
pub const SCORE_CAP: u32 = 0xFFFF_0000;

/// The largest completed-line counter that still leaves room for one
/// drop's cleared rows.
pub const LINE_CAP: u32 = 0xFFFF_0000;

/// What one settled grid cell holds.
#[derive(Clone, Copy, PartialEq, Eq, Structural, Debug)]
pub enum BoardPossibilities {
    Orange,
    Blue,
    Cyan,
    Green,
    Yellow,
    Red,
    Pink,
    Empty,
}

/// The score the fixed table awards for clearing `n` rows in one lock.
pub open spec fn line_score(n: int) -> int {
    if n == 1 {
        300
    } else if n == 2 {
        800
    } else if n == 3 {
        2000
    } else if n == 4 {
        5000
    } else {
        0
    }
}

/// One row of a flattened grid.
pub open spec fn row_of(cells: Seq<BoardPossibilities>, l: int) -> Seq<BoardPossibilities> {
    cells.subrange(l * 10, l * 10 + 10)
}

/// A row with no empty cell is complete.
pub open spec fn row_complete(row: Seq<BoardPossibilities>) -> bool {
    forall|c: int| 0 <= c < 10 ==> #[trigger] row[c] != BoardPossibilities::Empty
}

pub open spec fn empty_row() -> Seq<BoardPossibilities> {
    Seq::new(10, |c: int| BoardPossibilities::Empty)
}

/// The incomplete rows among the first `l` rows, top first.
pub open spec fn kept_rows(cells: Seq<BoardPossibilities>, l: int) -> Seq<
    Seq<BoardPossibilities>,
>
    decreases l,
{
    if l <= 0 {
        Seq::empty()
    } else if row_complete(row_of(cells, l - 1)) {
        kept_rows(cells, l - 1)
    } else {
        kept_rows(cells, l - 1) + seq![row_of(cells, l - 1)]
    }
}

/// How many of the first `l` rows are complete.
pub open spec fn completed_count(cells: Seq<BoardPossibilities>, l: int) -> int
    decreases l,
{
    if l <= 0 {
        0
    } else if row_complete(row_of(cells, l - 1)) {
        completed_count(cells, l - 1) + 1
    } else {
        completed_count(cells, l - 1)
    }
}

/// Among any prefix of rows, the kept ones and the complete ones add up.
pub proof fn lemma_kept_count(cells: Seq<BoardPossibilities>, l: int)
    requires
        0 <= l,
    ensures
        kept_rows(cells, l).len() + completed_count(cells, l) == l,
        0 <= completed_count(cells, l) <= l,
    decreases l,
{
    if l > 0 {
        lemma_kept_count(cells, l - 1);
    }
}

pub struct Board {
    board: Vec<BoardPossibilities>,
    lost: bool,
    score: u32,
    lines: u32,
    brick: Brick,
    next_brick: Brick,
    brick_coord: Coord,
}

impl Board {
    pub closed spec fn cells_spec(self) -> Seq<BoardPossibilities> {
        self.board@
    }

    pub closed spec fn lost_spec(self) -> bool {
        self.lost
    }

    pub closed spec fn score_spec(self) -> u32 {
        self.score
    }

    pub closed spec fn lines_spec(self) -> u32 {
        self.lines
    }

    pub closed spec fn brick_spec(self) -> Brick {
        self.brick
    }

    pub closed spec fn next_brick_spec(self) -> Brick {
        self.next_brick
    }

    pub closed spec fn coord_spec(self) -> Coord {
        self.brick_coord
    }

    pub open spec fn cell(self, l: int, c: int) -> BoardPossibilities {
        self.cells_spec()[l * 10 + c]
    }

    /// Well-formedness: a full grid, well-formed pieces, and an anchor
    /// within the slack the fit checks allow.
    pub open spec fn inv(self) -> bool {
        &&& self.cells_spec().len() == 200
        &&& self.brick_spec().inv()
        &&& self.next_brick_spec().inv()
        &&& self.coord_spec().x <= 12
        &&& self.coord_spec().y <= 20
    }

    /// Whether the active piece, anchored so that its frame starts at
    /// grid line `iy` and column `ix`, lies fully on the grid and only
    /// over empty cells.
    pub open spec fn fit_rot_spec(self, rot: int, iy: int, ix: int) -> bool {
        forall|py: int, px: int|
            0 <= py < 4 && 0 <= px < 4 && #[trigger] occupied_rot(
                self.brick_spec().coord_spec(),
                rot,
                py,
                px,
            ) ==> {
                &&& 0 <= ix + px < 10
                &&& 0 <= iy + py < 20
                &&& self.cell(iy + py, ix + px) == BoardPossibilities::Empty
            }
    }

    pub open spec fn fit_spec(self, iy: int, ix: int) -> bool {
        self.fit_rot_spec(self.brick_spec().rotation_spec() as int, iy, ix)
    }

    /// Whether the active piece covers the given grid cell in its render
    /// position (one line above and two columns left of the anchor).
    pub open spec fn covered(self, l: int, c: int) -> bool {
        exists|py: int, px: int|
            0 <= py < 4 && 0 <= px < 4 && #[trigger] self.brick_spec().occupied_at(py, px) && l
                == self.coord_spec().y - 1 + py && c == self.coord_spec().x - 2 + px
    }

    /// Whether one of the first `k` template cells, in reading order,
    /// covers the given grid cell.
    pub open spec fn covered_before(self, l: int, c: int, k: int) -> bool {
        exists|q: int|
            0 <= q < k && #[trigger] self.brick_spec().occupied_at(q / 4, q % 4) && l
                == self.coord_spec().y - 1 + q / 4 && c == self.coord_spec().x - 2 + q % 4
    }

    /// The grid with the active piece painted onto it.
    pub open spec fn fixed_cells(self) -> Seq<BoardPossibilities> {
        Seq::new(
            200,
            |i: int|
                if self.covered(i / 10, i % 10) {
                    self.brick_spec().color_spec()
                } else {
                    self.cells_spec()[i]
                },
        )
    }

    /// Put a value into one settled cell, as a scenario set-up does.
    pub fn place_square(&mut self, line: usize, column: usize, value: BoardPossibilities)
        requires
            old(self).inv(),
            line < 20,
            column < 10,
        ensures
            final(self).inv(),
            final(self).score_spec() == old(self).score_spec(),
            final(self).lines_spec() == old(self).lines_spec(),
            final(self).lost_spec() == old(self).lost_spec(),
            final(self).brick_spec() == old(self).brick_spec(),
            final(self).next_brick_spec() == old(self).next_brick_spec(),
            final(self).coord_spec() == old(self).coord_spec(),
            final(self).cells_spec() == old(self).cells_spec().update(
                line as int * 10 + column,
                value,
            ),
    {
        self.board[line * 10 + column] = value;
    }

    pub fn defeated(&self) -> (r: bool)
        ensures
            r == self.lost_spec(),
    {
        self.lost
    }

    pub fn consult_lines_completed(&self) -> (r: u32)
        ensures
            r == self.lines_spec(),
    {
        self.lines
    }

    pub fn consult_score(&self) -> (r: u32)
        ensures
            r == self.score_spec(),
    {
        self.score
    }

    /// What the given grid cell shows: the active piece where it covers
    /// the cell, else the settled cell.
    pub fn consult(&self, line: usize, column: usize) -> (r: &BoardPossibilities)
        requires
            self.inv(),
            line < 20,
            column < 10,
        ensures
            *r == (if self.covered(line as int, column as int) {
                self.brick_spec().color_spec()
            } else {
                self.cell(line as int, column as int)
            }),
    {
        let x = column as i32 - self.brick_coord.x as i32;
        let y = line as i32 - self.brick_coord.y as i32;
        if x > -3 && x < 2 && y > -2 && y < 3 && self.brick.consult(
            (y + 1) as usize,
            (x + 2) as usize,
        ) {
            proof {
                let py = y + 1;
                let px = x + 2;
                assert(0 <= py < 4 && 0 <= px < 4 && self.brick_spec().occupied_at(
                    py as int,
                    px as int,
                ) && line as int == self.coord_spec().y - 1 + py && column as int
                    == self.coord_spec().x - 2 + px);
                assert(self.covered(line as int, column as int));
            }
            self.brick.consult_color()
        } else {
            proof {
                if self.covered(line as int, column as int) {
                    let (py, px) = choose|py: int, px: int|
                        0 <= py < 4 && 0 <= px < 4 && #[trigger] self.brick_spec().occupied_at(
                            py,
                            px,
                        ) && line as int == self.coord_spec().y - 1 + py && column as int
                            == self.coord_spec().x - 2 + px;
                    assert(y + 1 == py && x + 2 == px);
                    assert(false);
                }
            }
            &self.board[line * 10 + column]
        }
    }

    /// Whether the active piece fits with its frame anchored at line `iy`
    /// and column `ix`.
    fn fit(&self, iy: i32, ix: i32) -> (r: bool)
        requires
            self.inv(),
            -8 <= iy <= 32,
            -8 <= ix <= 24,
        ensures
            r == self.fit_spec(iy as int, ix as int),
    {
        let ghost rot = self.brick_spec().rotation_spec() as int;
        let mut py: usize = 0;
        while py < 4
            invariant
                self.inv(),
                rot == self.brick_spec().rotation_spec() as int,
                -8 <= iy <= 32,
                -8 <= ix <= 24,
                py <= 4,
                forall|qy: int, qx: int|
                    0 <= qy < py && 0 <= qx < 4 && #[trigger] occupied_rot(
                        self.brick_spec().coord_spec(),
                        rot,
                        qy,
                        qx,
                    ) ==> {
                        &&& 0 <= ix + qx < 10
                        &&& 0 <= iy + qy < 20
                        &&& self.cell(iy + qy, ix + qx) == BoardPossibilities::Empty
                    },
            decreases 4 - py,
        {
            let mut px: usize = 0;
            while px < 4
                invariant
                    self.inv(),
                    rot == self.brick_spec().rotation_spec() as int,
                    -8 <= iy <= 32,
                    -8 <= ix <= 24,
                    py < 4,
                    px <= 4,
                    forall|qy: int, qx: int|
                        0 <= qy < py && 0 <= qx < 4 && #[trigger] occupied_rot(
                            self.brick_spec().coord_spec(),
                            rot,
                            qy,
                            qx,
                        ) ==> {
                            &&& 0 <= ix + qx < 10
                            &&& 0 <= iy + qy < 20
                            &&& self.cell(iy + qy, ix + qx) == BoardPossibilities::Empty
                        },
                    forall|qx: int|
                        0 <= qx < px && #[trigger] occupied_rot(
                            self.brick_spec().coord_spec(),
                            rot,
                            py as int,
                            qx,
                        ) ==> {
                            &&& 0 <= ix + qx < 10
                            &&& 0 <= iy + py < 20
                            &&& self.cell(iy + py as int, ix + qx) == BoardPossibilities::Empty
                        },
                decreases 4 - px,
            {
                if self.brick.consult(py, px) {
                    let cx = ix + px as i32;
                    let cy = iy + py as i32;
                    if cx < 0 || cy < 0 || cx >= 10 || cy >= 20 {
                        return false;
                    }
                    let cell = self.board[(cy as usize) * 10 + (cx as usize)];
                    if !matches!(cell, BoardPossibilities::Empty) {
                        return false;
                    }
                }
                px += 1;
            }
            py += 1;
        }
        true
    }

    pub fn new() -> (r: Board)
        ensures
            r.inv(),
            !r.lost_spec(),
            r.score_spec() == 0,
            r.lines_spec() == 0,
            r.coord_spec() == (Coord { x: 5, y: 0 }),
            forall|i: int| 0 <= i < 200 ==> #[trigger] r.cells_spec()[i] == BoardPossibilities::Empty,
    {
        let mut board = Board {
            board: Vec::new(),
            lost: false,
            score: 0,
            lines: 0,
            brick: Brick::new(),
            next_brick: Brick::new(),
            brick_coord: Coord { x: 5, y: 0 },
        };
        let mut i: usize = 0;
        while i < 200
            invariant
                board.board@.len() == i,
                i <= 200,
                board.brick.inv(),
                board.next_brick.inv(),
                !board.lost,
                board.score == 0,
                board.lines == 0,
                board.brick_coord == (Coord { x: 5, y: 0 }),
                forall|n: int| 0 <= n < i ==> #[trigger] board.board@[n] == BoardPossibilities::Empty,
            decreases 200 - i,
        {
            board.board.push(BoardPossibilities::Empty);
            i += 1;
        }
        board
    }

    /// Empty the grid, zero the counters, promote the lookahead piece and
    /// draw a fresh one, with the anchor back at the spawn column.
    pub fn reset_board(&mut self)
        requires
            old(self).inv(),
        ensures
            final(self).inv(),
            !final(self).lost_spec(),
            final(self).score_spec() == 0,
            final(self).lines_spec() == 0,
            final(self).coord_spec() == (Coord { x: 5, y: 0 }),
            final(self).brick_spec().coord_spec() == old(self).next_brick_spec().coord_spec(),
            final(self).brick_spec().rotation_spec() == old(self).next_brick_spec().rotation_spec(),
            final(self).brick_spec().color_spec() == old(self).next_brick_spec().color_spec(),
            final(self).brick_spec().rotations_spec() == old(
                self,
            ).next_brick_spec().rotations_spec(),
            forall|i: int|
                0 <= i < 200 ==> #[trigger] final(self).cells_spec()[i]
                    == BoardPossibilities::Empty,
    {
        let mut i: usize = 0;
        while i < 200
            invariant
                self.inv(),
                self.next_brick == old(self).next_brick,
                i <= 200,
                forall|n: int| 0 <= n < i ==> #[trigger] self.cells_spec()[n]
                    == BoardPossibilities::Empty,
            decreases 200 - i,
        {
            self.board[i] = BoardPossibilities::Empty;
            i += 1;
        }
        self.score = 0;
        self.lines = 0;
        self.lost = false;
        self.brick = self.next_brick.duplicate();
        self.next_brick = Brick::new();
        self.brick_coord = Coord { x: 5, y: 0 };
    }

    /// Shift the active piece one column left when the shifted position
    /// fits.
    pub fn move_left(&mut self)
        requires
            old(self).inv(),
        ensures
            final(self).inv(),
            final(self).cells_spec() == old(self).cells_spec(),
            final(self).score_spec() == old(self).score_spec(),
            final(self).lines_spec() == old(self).lines_spec(),
            final(self).lost_spec() == old(self).lost_spec(),
            final(self).brick_spec() == old(self).brick_spec(),
            final(self).next_brick_spec() == old(self).next_brick_spec(),
            final(self).coord_spec().y == old(self).coord_spec().y,
            final(self).coord_spec().x == (if old(self).fit_spec(
                old(self).coord_spec().y - 1,
                old(self).coord_spec().x - 3,
            ) && old(self).coord_spec().x >= 1 {
                old(self).coord_spec().x - 1
            } else {
                old(self).coord_spec().x as int
            }),
            Board::left_step(*old(self), *final(self)),
    {
        if self.fit(
            self.brick_coord.y as i32 - 1,
            self.brick_coord.x as i32 - 3,
        ) && self.brick_coord.x >= 1 {
            self.brick_coord.x -= 1;
        }
    }

    /// Shift the active piece one column right when the shifted position
    /// fits.
    pub fn move_right(&mut self)
        requires
            old(self).inv(),
        ensures
            final(self).inv(),
            final(self).cells_spec() == old(self).cells_spec(),
            final(self).score_spec() == old(self).score_spec(),
            final(self).lines_spec() == old(self).lines_spec(),
            final(self).lost_spec() == old(self).lost_spec(),
            final(self).brick_spec() == old(self).brick_spec(),
            final(self).next_brick_spec() == old(self).next_brick_spec(),
            final(self).coord_spec().y == old(self).coord_spec().y,
            final(self).coord_spec().x == (if old(self).fit_spec(
                old(self).coord_spec().y - 1,
                old(self).coord_spec().x - 1,
            ) {
                old(self).coord_spec().x + 1
            } else {
                old(self).coord_spec().x as int
            }),
            Board::right_step(*old(self), *final(self)),
    {
        if self.fit(
            self.brick_coord.y as i32 - 1,
            self.brick_coord.x as i32 - 1,
        ) {
            proof {
                self.brick.lemma_occupied_exists();
                let (py, px) = choose|py: int, px: int|
                    0 <= py < 4 && 0 <= px < 4 && self.brick_spec().occupied_at(py, px);
                assert(self.coord_spec().x - 1 + px < 10);
            }
            self.brick_coord.x += 1;
        }
    }

    /// Advance the rotation; when the rotated piece does not fit, step
    /// back to the previous rotation.
    pub fn rotate(&mut self)
        requires
            old(self).inv(),
        ensures
            final(self).inv(),
            final(self).cells_spec() == old(self).cells_spec(),
            final(self).score_spec() == old(self).score_spec(),
            final(self).lines_spec() == old(self).lines_spec(),
            final(self).lost_spec() == old(self).lost_spec(),
            final(self).next_brick_spec() == old(self).next_brick_spec(),
            final(self).coord_spec() == old(self).coord_spec(),
            final(self).brick_spec().coord_spec() == old(self).brick_spec().coord_spec(),
            final(self).brick_spec().color_spec() == old(self).brick_spec().color_spec(),
            final(self).brick_spec().rotations_spec() == old(self).brick_spec().rotations_spec(),
            ({
                let turned = (old(self).brick_spec().rotation_spec() + 1) % (old(
                    self,
                ).brick_spec().rotations_spec() as int);
                if old(self).fit_rot_spec(
                    turned,
                    old(self).coord_spec().y - 1,
                    old(self).coord_spec().x - 2,
                ) {
                    final(self).brick_spec().rotation_spec() == turned
                } else {
                    final(self).brick_spec().rotation_spec() == old(
                        self,
                    ).brick_spec().rotation_spec()
                }
            }),
            Board::rotate_step(*old(self), *final(self)),
    {
        self.brick.rotate();
        if !self.fit(
            self.brick_coord.y as i32 - 1,
            self.brick_coord.x as i32 - 2,
        ) {
            self.brick.unrotate();
            proof {
                let rots = old(self).brick_spec().rotations_spec() as int;
                let r0 = old(self).brick_spec().rotation_spec() as int;
                assert((r0 + 1) % rots == (if r0 + 1 == rots {
                    0int
                } else {
                    r0 + 1
                })) by (nonlinear_arith)
                    requires
                        0 <= r0 < rots,
                ;
            }
        }
    }

    /// Whether the given row has no empty cell.
    fn line_completed(&self, index: usize) -> (r: bool)
        requires
            self.inv(),
            index < 20,
        ensures
            r == row_complete(row_of(self.cells_spec(), index as int)),
    {
        let mut column: usize = 0;
        while column < 10
            invariant
                self.inv(),
                index < 20,
                column <= 10,
                forall|c: int|
                    0 <= c < column ==> #[trigger] self.cell(index as int, c)
                        != BoardPossibilities::Empty,
            decreases 10 - column,
        {
            if matches!(self.board[index * 10 + column], BoardPossibilities::Empty) {
                proof {
                    assert(row_of(self.cells_spec(), index as int)[column as int]
                        == BoardPossibilities::Empty);
                }
                return false;
            }
            column += 1;
        }
        proof {
            assert forall|c: int|
                0 <= c < 10 implies #[trigger] row_of(self.cells_spec(), index as int)[c]
                != BoardPossibilities::Empty by {
                assert(row_of(self.cells_spec(), index as int)[c] == self.cell(index as int, c));
            }
        }
        true
    }

    /// Paint the active piece's occupied cells onto the grid, skipping
    /// whatever falls outside it.
    fn fix_brick(&mut self)
        requires
            old(self).inv(),
        ensures
            final(self).inv(),
            final(self).score_spec() == old(self).score_spec(),
            final(self).lines_spec() == old(self).lines_spec(),
            final(self).lost_spec() == old(self).lost_spec(),
            final(self).brick_spec() == old(self).brick_spec(),
            final(self).next_brick_spec() == old(self).next_brick_spec(),
            final(self).coord_spec() == old(self).coord_spec(),
            final(self).cells_spec() == old(self).fixed_cells(),
    {
        let ghost pre = *old(self);
        let mut k: usize = 0;
        while k < 16
            invariant
                self.inv(),
                self.score == pre.score,
                self.lines == pre.lines,
                self.lost == pre.lost,
                self.brick == pre.brick,
                self.next_brick == pre.next_brick,
                self.brick_coord == pre.brick_coord,
                pre.inv(),
                k <= 16,
                forall|i: int|
                    0 <= i < 200 ==> #[trigger] self.cells_spec()[i] == (if pre.covered_before(
                        i / 10,
                        i % 10,
                        k as int,
                    ) {
                        pre.brick_spec().color_spec()
                    } else {
                        pre.cells_spec()[i]
                    }),
            decreases 16 - k,
        {
            let py = k / 4;
            let px = k % 4;
            let ghost mid = *self;
            if self.brick.consult(py, px) {
                let cy = self.brick_coord.y as i32 - 1 + py as i32;
                let cx = self.brick_coord.x as i32 - 2 + px as i32;
                if cy >= 0 && cx >= 0 && cy < 20 && cx < 10 {
                    let index = (cy as usize) * 10 + (cx as usize);
                    self.board[index] = *self.brick.consult_color();
                    proof {
                        assert(self.cells_spec() == mid.cells_spec().update(
                            index as int,
                            pre.brick_spec().color_spec(),
                        ));
                    }
                }
            }
            proof {
                assert forall|i: int|
                    0 <= i < 200 implies #[trigger] self.cells_spec()[i] == (if pre.covered_before(
                    i / 10,
                    i % 10,
                    k + 1,
                ) {
                    pre.brick_spec().color_spec()
                } else {
                    pre.cells_spec()[i]
                }) by {
                    let l = i / 10;
                    let c = i % 10;
                    if pre.covered_before(l, c, k + 1) && !pre.covered_before(l, c, k as int) {
                        let q = choose|q: int|
                            0 <= q < k + 1 && #[trigger] pre.brick_spec().occupied_at(
                                q / 4,
                                q % 4,
                            ) && l == pre.coord_spec().y - 1 + q / 4 && c == pre.coord_spec().x - 2
                                + q % 4;
                        assert(q == k);
                    }
                    if !pre.covered_before(l, c, k + 1) && pre.covered_before(l, c, k as int) {
                        let q = choose|q: int|
                            0 <= q < k && #[trigger] pre.brick_spec().occupied_at(q / 4, q % 4)
                                && l == pre.coord_spec().y - 1 + q / 4 && c == pre.coord_spec().x
                                - 2 + q % 4;
                        assert(0 <= q < k + 1 && pre.brick_spec().occupied_at(q / 4, q % 4) && l
                            == pre.coord_spec().y - 1 + q / 4 && c == pre.coord_spec().x - 2 + q
                            % 4);
                    }
                }
            }
            k += 1;
        }
        proof {
            assert forall|l: int, c: int|
                0 <= l < 20 && 0 <= c < 10 implies (pre.covered_before(l, c, 16) <==> pre.covered(
                l,
                c,
            )) by {
                if pre.covered(l, c) {
                    let (py, px) = choose|py: int, px: int|
                        0 <= py < 4 && 0 <= px < 4 && #[trigger] pre.brick_spec().occupied_at(
                            py,
                            px,
                        ) && l == pre.coord_spec().y - 1 + py && c == pre.coord_spec().x - 2 + px;
                    let q = py * 4 + px;
                    assert(q / 4 == py && q % 4 == px);
                    assert(0 <= q < 16 && pre.brick_spec().occupied_at(q / 4, q % 4) && l
                        == pre.coord_spec().y - 1 + q / 4 && c == pre.coord_spec().x - 2 + q % 4);
                }
                if pre.covered_before(l, c, 16) {
                    let q = choose|q: int|
                        0 <= q < 16 && #[trigger] pre.brick_spec().occupied_at(q / 4, q % 4) && l
                            == pre.coord_spec().y - 1 + q / 4 && c == pre.coord_spec().x - 2 + q
                            % 4;
                    assert(pre.covered(l, c));
                }
            }
            assert(self.cells_spec() =~= pre.fixed_cells());
        }
    }

    /// Set the loss flag when any cell of the top row is occupied.
    fn check_for_lost(&mut self)
        requires
            old(self).inv(),
        ensures
            final(self).inv(),
            final(self).cells_spec() == old(self).cells_spec(),
            final(self).score_spec() == old(self).score_spec(),
            final(self).lines_spec() == old(self).lines_spec(),
            final(self).brick_spec() == old(self).brick_spec(),
            final(self).next_brick_spec() == old(self).next_brick_spec(),
            final(self).coord_spec() == old(self).coord_spec(),
            final(self).lost_spec() == (old(self).lost_spec() || exists|c: int|
                0 <= c < 10 && old(self).cell(0, c) != BoardPossibilities::Empty),
    {
        let mut column: usize = 0;
        while column < 10
            invariant
                self.inv(),
                *self == *old(self),
                column <= 10,
                forall|c: int|
                    0 <= c < column ==> #[trigger] self.cell(0, c) == BoardPossibilities::Empty,
            decreases 10 - column,
        {
            if !matches!(self.board[column], BoardPossibilities::Empty) {
                proof {
                    assert(self.cell(0, column as int) != BoardPossibilities::Empty);
                }
                self.lost = true;
                return ;
            }
            column += 1;
        }
    }

    /// Remove every completed row, compact the rows above downward into
    /// the freed space, and award the fixed score for the number of rows
    /// cleared.
    fn remove_completed_lines(&mut self)
        requires
            old(self).inv(),
            old(self).score_spec() <= SCORE_CAP,
            old(self).lines_spec() <= LINE_CAP,
        ensures
            final(self).inv(),
            final(self).lost_spec() == old(self).lost_spec(),
            final(self).brick_spec() == old(self).brick_spec(),
            final(self).next_brick_spec() == old(self).next_brick_spec(),
            final(self).coord_spec() == old(self).coord_spec(),
            ({
                let kept = kept_rows(old(self).cells_spec(), 20);
                let cnt = completed_count(old(self).cells_spec(), 20);
                &&& final(self).score_spec() == old(self).score_spec() + line_score(cnt)
                &&& final(self).lines_spec() == old(self).lines_spec() + cnt
                &&& forall|l: int|
                    0 <= l < cnt ==> row_of(#[trigger] final(self).cells_spec(), l) == empty_row()
                &&& forall|l: int|
                    cnt <= l < 20 ==> row_of(#[trigger] final(self).cells_spec(), l) == kept[l
                        - cnt]
            }),
    {
        let ghost pre = *old(self);
        proof {
            lemma_kept_count(pre.cells_spec(), 20);
        }
        let mut completed: usize = 0;
        let mut l: usize = 0;
        while l < 20
            invariant
                self.inv(),
                *self == pre,
                pre.inv(),
                l <= 20,
                completed as int == completed_count(pre.cells_spec(), l as int),
                completed <= l,
            decreases 20 - l,
        {
            if self.line_completed(l) {
                completed += 1;
            }
            l += 1;
        }
        let mut new_board: Vec<BoardPossibilities> = Vec::new();
        let mut i: usize = 0;
        while i < completed * 10
            invariant
                completed <= 20,
                i <= completed * 10,
                new_board@.len() == i,
                forall|n: int| 0 <= n < i ==> #[trigger] new_board@[n] == BoardPossibilities::Empty,
            decreases completed * 10 - i,
        {
            new_board.push(BoardPossibilities::Empty);
            i += 1;
        }
        let ghost cnt = completed as int;
        let mut l2: usize = 0;
        while l2 < 20
            invariant
                self.inv(),
                *self == pre,
                pre.inv(),
                l2 <= 20,
                cnt == completed_count(pre.cells_spec(), 20),
                0 <= cnt <= 20,
                completed as int == cnt,
                new_board@.len() == cnt * 10 + kept_rows(pre.cells_spec(), l2 as int).len() * 10,
                kept_rows(pre.cells_spec(), l2 as int).len() + completed_count(
                    pre.cells_spec(),
                    l2 as int,
                ) == l2 as int,
                forall|n: int|
                    0 <= n < cnt * 10 ==> #[trigger] new_board@[n] == BoardPossibilities::Empty,
                forall|r: int|
                    0 <= r < kept_rows(pre.cells_spec(), l2 as int).len()
                        ==> new_board@.subrange(cnt * 10 + r * 10, cnt * 10 + r * 10 + 10)
                        == #[trigger] kept_rows(pre.cells_spec(), l2 as int)[r],
            decreases 20 - l2,
        {
            proof {
                lemma_kept_count(pre.cells_spec(), l2 as int);
                lemma_kept_count(pre.cells_spec(), l2 + 1);
            }
            if !self.line_completed(l2) {
                let ghost before = new_board@;
                let ghost kept_old = kept_rows(pre.cells_spec(), l2 as int);
                let mut c: usize = 0;
                while c < 10
                    invariant
                        self.inv(),
                        *self == pre,
                        pre.inv(),
                        l2 < 20,
                        c <= 10,
                        new_board@.len() == before.len() + c,
                        new_board@.take(before.len() as int) == before,
                        forall|n: int|
                            0 <= n < c ==> #[trigger] new_board@[before.len() + n] == pre.cell(
                                l2 as int,
                                n,
                            ),
                    decreases 10 - c,
                {
                    let ghost nb = new_board@;
                    new_board.push(self.board[l2 * 10 + c]);
                    proof {
                        assert(new_board@.take(before.len() as int) =~= nb.take(
                            before.len() as int,
                        ));
                    }
                    c += 1;
                }
                proof {
                    assert forall|n: int|
                        0 <= n < 10 implies new_board@.subrange(
                        before.len() as int,
                        before.len() as int + 10,
                    )[n] == row_of(pre.cells_spec(), l2 as int)[n] by {
                        assert(new_board@[before.len() + n] == pre.cell(l2 as int, n));
                        assert(row_of(pre.cells_spec(), l2 as int)[n] == pre.cells_spec()[l2 * 10
                            + n]);
                    }
                    assert(new_board@.subrange(
                        before.len() as int,
                        before.len() as int + 10,
                    ) =~= row_of(pre.cells_spec(), l2 as int));
                    assert(kept_rows(pre.cells_spec(), l2 + 1) == kept_old + seq![
                        row_of(pre.cells_spec(), l2 as int),
                    ]);
                    assert forall|r: int|
                        0 <= r < kept_rows(pre.cells_spec(), l2 + 1).len()
                            implies new_board@.subrange(cnt * 10 + r * 10, cnt * 10 + r * 10 + 10)
                        == #[trigger] kept_rows(pre.cells_spec(), l2 + 1)[r] by {
                        if r < kept_old.len() {
                            assert(kept_rows(pre.cells_spec(), l2 + 1)[r] == kept_old[r]);
                            assert(new_board@.subrange(cnt * 10 + r * 10, cnt * 10 + r * 10 + 10)
                                =~= before.subrange(cnt * 10 + r * 10, cnt * 10 + r * 10 + 10));
                        } else {
                            assert(r == kept_old.len());
                            assert(cnt * 10 + r * 10 == before.len());
                            assert(new_board@.subrange(cnt * 10 + r * 10, cnt * 10 + r * 10 + 10)
                                =~= new_board@.subrange(before.len() as int, before.len() as int + 10));
                        }
                    }
                    assert forall|n: int|
                        0 <= n < cnt * 10 implies #[trigger] new_board@[n]
                        == BoardPossibilities::Empty by {
                        assert(new_board@[n] == before[n]);
                    }
                }
            }
            l2 += 1;
        }
        proof {
            assert(new_board@.len() == 200);
        }
        self.board = new_board;
        if completed == 1 {
            self.score += 300;
        } else if completed == 2 {
            self.score += 800;
        } else if completed == 3 {
            self.score += 2000;
        } else if completed == 4 {
            self.score += 5000;
        }
        self.lines += completed as u32;
        proof {
            let kept = kept_rows(pre.cells_spec(), 20);
            assert forall|l3: int|
                0 <= l3 < cnt implies row_of(#[trigger] self.cells_spec(), l3) == empty_row() by {
                assert(row_of(self.cells_spec(), l3) =~= empty_row());
            }
            assert forall|l3: int|
                cnt <= l3 < 20 implies row_of(#[trigger] self.cells_spec(), l3) == kept[l3
                - cnt] by {
                let r = l3 - cnt;
                assert(self.cells_spec().subrange(cnt * 10 + r * 10, cnt * 10 + r * 10 + 10)
                    == kept[r]);
                assert(row_of(self.cells_spec(), l3) =~= self.cells_spec().subrange(
                    cnt * 10 + r * 10,
                    cnt * 10 + r * 10 + 10,
                ));
            }
        }
    }

    /// A fit check depends only on the settled cells and the piece, so it
    /// carries over between boards that agree on both.
    proof fn lemma_fit_frame(pre: Board, post: Board, rot: int, iy: int, ix: int)
        requires
            pre.cells_spec() == post.cells_spec(),
            pre.brick_spec() == post.brick_spec(),
            pre.fit_rot_spec(rot, iy, ix),
        ensures
            post.fit_rot_spec(rot, iy, ix),
    {
        assert forall|py: int, px: int|
            0 <= py < 4 && 0 <= px < 4 && #[trigger] occupied_rot(
                post.brick_spec().coord_spec(),
                rot,
                py,
                px,
            ) implies {
            &&& 0 <= ix + px < 10
            &&& 0 <= iy + py < 20
            &&& post.cell(iy + py, ix + px) == BoardPossibilities::Empty
        } by {
            assert(occupied_rot(pre.brick_spec().coord_spec(), rot, py, px));
            assert(pre.cell(iy + py, ix + px) == post.cell(iy + py, ix + px));
        }
    }

    /// One gravity step: when the piece still fits one line further down
    /// the anchor advances; otherwise the piece locks, completed rows are
    /// removed and scored, the loss condition is checked, and the
    /// lookahead piece spawns at the top.
    pub fn drop(&mut self)
        requires
            old(self).inv(),
            old(self).score_spec() <= SCORE_CAP,
            old(self).lines_spec() <= LINE_CAP,
        ensures
            final(self).inv(),
            Board::drop_step(*old(self), *final(self)),
    {
        if self.fit(
            self.brick_coord.y as i32,
            self.brick_coord.x as i32 - 2,
        ) {
            proof {
                self.brick.lemma_occupied_exists();
                let (py, px) = choose|py: int, px: int|
                    0 <= py < 4 && 0 <= px < 4 && self.brick_spec().occupied_at(py, px);
                assert(self.coord_spec().y + py < 20);
            }
            self.brick_coord.y += 1;
        } else {
            self.fix_brick();
            self.remove_completed_lines();
            let ghost m_rm = *self;
            self.check_for_lost();
            let ghost m_cl = *self;
            self.brick = self.next_brick.duplicate();
            self.next_brick = Brick::new();
            self.brick_coord.x = 5;
            self.brick_coord.y = 0;
            proof {
                let fixed = old(self).fixed_cells();
                let cnt = completed_count(fixed, 20);
                let kept = kept_rows(fixed, 20);
                assert(self.cells_spec() == m_rm.cells_spec());
                assert forall|l: int| 0 <= l < cnt implies row_of(
                    #[trigger] self.cells_spec(),
                    l,
                ) == empty_row() by {
                    assert(row_of(m_rm.cells_spec(), l) == empty_row());
                }
                assert forall|l: int| cnt <= l < 20 implies row_of(
                    #[trigger] self.cells_spec(),
                    l,
                ) == kept[l - cnt] by {
                    assert(row_of(m_rm.cells_spec(), l) == kept[l - cnt]);
                }
                assert((exists|c: int|
                    0 <= c < 10 && m_rm.cell(0, c) != BoardPossibilities::Empty) <==> (exists|
                    c: int,
                |
                    0 <= c < 10 && self.cell(0, c) != BoardPossibilities::Empty)) by {
                    if exists|c: int| 0 <= c < 10 && m_rm.cell(0, c) != BoardPossibilities::Empty {
                        let c = choose|c: int|
                            0 <= c < 10 && m_rm.cell(0, c) != BoardPossibilities::Empty;
                        assert(0 <= c < 10 && self.cell(0, c) != BoardPossibilities::Empty);
                    }
                    if exists|c: int| 0 <= c < 10 && self.cell(0, c) != BoardPossibilities::Empty {
                        let c = choose|c: int|
                            0 <= c < 10 && self.cell(0, c) != BoardPossibilities::Empty;
                        assert(0 <= c < 10 && m_rm.cell(0, c) != BoardPossibilities::Empty);
                    }
                }
            }
        }
    }

    /// How one `drop` call relates the board before it to the board after
    /// it.
    pub open spec fn drop_step(pre: Board, post: Board) -> bool {
        if pre.fit_spec(pre.coord_spec().y as int, pre.coord_spec().x - 2) {
            &&& post.cells_spec() == pre.cells_spec()
            &&& post.score_spec() == pre.score_spec()
            &&& post.lines_spec() == pre.lines_spec()
            &&& post.lost_spec() == pre.lost_spec()
            &&& post.brick_spec() == pre.brick_spec()
            &&& post.next_brick_spec() == pre.next_brick_spec()
            &&& post.coord_spec().x == pre.coord_spec().x
            &&& post.coord_spec().y == pre.coord_spec().y + 1
        } else {
            let fixed = pre.fixed_cells();
            let kept = kept_rows(fixed, 20);
            let cnt = completed_count(fixed, 20);
            &&& post.score_spec() == pre.score_spec() + line_score(cnt)
            &&& post.lines_spec() == pre.lines_spec() + cnt
            &&& (forall|l: int|
                0 <= l < cnt ==> row_of(#[trigger] post.cells_spec(), l) == empty_row())
            &&& (forall|l: int|
                cnt <= l < 20 ==> row_of(#[trigger] post.cells_spec(), l) == kept[l - cnt])
            &&& post.lost_spec() == (pre.lost_spec() || exists|c: int|
                0 <= c < 10 && post.cell(0, c) != BoardPossibilities::Empty)
            &&& post.brick_spec().coord_spec() == pre.next_brick_spec().coord_spec()
            &&& post.brick_spec().rotation_spec() == pre.next_brick_spec().rotation_spec()
            &&& post.brick_spec().color_spec() == pre.next_brick_spec().color_spec()
            &&& post.brick_spec().rotations_spec() == pre.next_brick_spec().rotations_spec()
            &&& post.coord_spec() == (Coord { x: 5, y: 0 })
        }
    }

    /// How one `move_left` call relates the board before it to the board
    /// after it.
    pub open spec fn left_step(pre: Board, post: Board) -> bool {
        &&& post.cells_spec() == pre.cells_spec()
        &&& post.score_spec() == pre.score_spec()
        &&& post.lines_spec() == pre.lines_spec()
        &&& post.lost_spec() == pre.lost_spec()
        &&& post.brick_spec() == pre.brick_spec()
        &&& post.next_brick_spec() == pre.next_brick_spec()
        &&& post.coord_spec().y == pre.coord_spec().y
        &&& post.coord_spec().x == (if pre.fit_spec(pre.coord_spec().y - 1, pre.coord_spec().x - 3)
            && pre.coord_spec().x >= 1 {
            pre.coord_spec().x - 1
        } else {
            pre.coord_spec().x as int
        })
    }

    /// How one `move_right` call relates the board before it to the board
    /// after it.
    pub open spec fn right_step(pre: Board, post: Board) -> bool {
        &&& post.cells_spec() == pre.cells_spec()
        &&& post.score_spec() == pre.score_spec()
        &&& post.lines_spec() == pre.lines_spec()
        &&& post.lost_spec() == pre.lost_spec()
        &&& post.brick_spec() == pre.brick_spec()
        &&& post.next_brick_spec() == pre.next_brick_spec()
        &&& post.coord_spec().y == pre.coord_spec().y
        &&& post.coord_spec().x == (if pre.fit_spec(pre.coord_spec().y - 1, pre.coord_spec().x - 1) {
            pre.coord_spec().x + 1
        } else {
            pre.coord_spec().x as int
        })
    }

    /// How one `rotate` call relates the board before it to the board
    /// after it: the rotation index advances when the turned piece fits
    /// and reverts to exactly the index before the call when it does not.
    pub open spec fn rotate_step(pre: Board, post: Board) -> bool {
        let turned = (pre.brick_spec().rotation_spec() + 1) % (
        pre.brick_spec().rotations_spec() as int);
        &&& post.cells_spec() == pre.cells_spec()
        &&& post.score_spec() == pre.score_spec()
        &&& post.lines_spec() == pre.lines_spec()
        &&& post.lost_spec() == pre.lost_spec()
        &&& post.next_brick_spec() == pre.next_brick_spec()
        &&& post.coord_spec() == pre.coord_spec()
        &&& post.brick_spec().coord_spec() == pre.brick_spec().coord_spec()
        &&& post.brick_spec().color_spec() == pre.brick_spec().color_spec()
        &&& post.brick_spec().rotations_spec() == pre.brick_spec().rotations_spec()
        &&& if pre.fit_rot_spec(turned, pre.coord_spec().y - 1, pre.coord_spec().x - 2) {
            post.brick_spec().rotation_spec() == turned
        } else {
            post.brick_spec().rotation_spec() == pre.brick_spec().rotation_spec()
        }
    }

    /// How one `soft_drop` call relates the board before it to the board
    /// after it: two gravity steps, each worth one extra point.
    pub open spec fn soft_step(pre: Board, post: Board) -> bool {
        exists|m1: Board, m2: Board, m3: Board|
            {
                &&& #[trigger] Board::drop_step(pre, m1)
                &&& Board::score_bumped(m1, m2, 1)
                &&& #[trigger] Board::drop_step(m2, m3)
                &&& Board::score_bumped(m3, post, 1)
            }
    }

    /// How one `hard_drop` call relates the board before it to the board
    /// after it: the piece falls as far as it still fits, two points per
    /// line, stopping just above the position where it would lock.
    pub open spec fn hard_step(pre: Board, post: Board) -> bool {
        &&& post.cells_spec() == pre.cells_spec()
        &&& post.lines_spec() == pre.lines_spec()
        &&& post.lost_spec() == pre.lost_spec()
        &&& post.brick_spec() == pre.brick_spec()
        &&& post.next_brick_spec() == pre.next_brick_spec()
        &&& post.coord_spec().x == pre.coord_spec().x
        &&& post.coord_spec().y >= pre.coord_spec().y
        &&& post.score_spec() == pre.score_spec() + 2 * (post.coord_spec().y
            - pre.coord_spec().y)
        &&& !post.fit_spec(post.coord_spec().y as int, post.coord_spec().x - 2)
        &&& forall|y2: int|
            pre.coord_spec().y <= y2 < post.coord_spec().y ==> #[trigger] post.fit_spec(
                y2,
                post.coord_spec().x - 2,
            )
    }

    /// Two boards that differ only in the score, by the given amount.
    pub open spec fn score_bumped(pre: Board, post: Board, amount: int) -> bool {
        &&& post.cells_spec() == pre.cells_spec()
        &&& post.score_spec() == pre.score_spec() + amount
        &&& post.lines_spec() == pre.lines_spec()
        &&& post.lost_spec() == pre.lost_spec()
        &&& post.brick_spec() == pre.brick_spec()
        &&& post.next_brick_spec() == pre.next_brick_spec()
        &&& post.coord_spec() == pre.coord_spec()
    }

    /// Two forced gravity steps, each worth one extra point.
    pub fn soft_drop(&mut self)
        requires
            old(self).inv(),
            old(self).score_spec() <= SCORE_CAP - 10002,
            old(self).lines_spec() <= LINE_CAP - 45,
        ensures
            final(self).inv(),
            exists|m1: Board, m2: Board, m3: Board|
                {
                    &&& #[trigger] Board::drop_step(*old(self), m1)
                    &&& Board::score_bumped(m1, m2, 1)
                    &&& #[trigger] Board::drop_step(m2, m3)
                    &&& Board::score_bumped(m3, *final(self), 1)
                },
            Board::soft_step(*old(self), *final(self)),
    {
        proof {
            lemma_kept_count(old(self).fixed_cells(), 20);
        }
        self.drop();
        let ghost m1 = *self;
        self.score += 1;
        let ghost m2 = *self;
        proof {
            lemma_kept_count(m2.fixed_cells(), 20);
        }
        self.drop();
        let ghost m3 = *self;
        self.score += 1;
        proof {
            assert(Board::drop_step(*old(self), m1) && Board::score_bumped(m1, m2, 1)
                && Board::drop_step(m2, m3) && Board::score_bumped(m3, *self, 1));
        }
    }

    /// Let the piece fall while it still fits one line further down, two
    /// points per line, stopping just above the position where it would
    /// lock.
    pub fn hard_drop(&mut self)
        requires
            old(self).inv(),
            old(self).score_spec() <= SCORE_CAP,
        ensures
            final(self).inv(),
            final(self).cells_spec() == old(self).cells_spec(),
            final(self).lines_spec() == old(self).lines_spec(),
            final(self).lost_spec() == old(self).lost_spec(),
            final(self).brick_spec() == old(self).brick_spec(),
            final(self).next_brick_spec() == old(self).next_brick_spec(),
            final(self).coord_spec().x == old(self).coord_spec().x,
            final(self).coord_spec().y >= old(self).coord_spec().y,
            final(self).score_spec() == old(self).score_spec() + 2 * (final(self).coord_spec().y
                - old(self).coord_spec().y),
            !final(self).fit_spec(
                final(self).coord_spec().y as int,
                final(self).coord_spec().x - 2,
            ),
            forall|y2: int|
                old(self).coord_spec().y <= y2 < final(self).coord_spec().y
                    ==> #[trigger] final(self).fit_spec(y2, final(self).coord_spec().x - 2),
            Board::hard_step(*old(self), *final(self)),
    {
        while self.fit(
            self.brick_coord.y as i32,
            self.brick_coord.x as i32 - 2,
        )
            invariant
                self.inv(),
                self.cells_spec() == old(self).cells_spec(),
                self.lines == old(self).lines,
                self.lost == old(self).lost,
                self.brick == old(self).brick,
                self.next_brick == old(self).next_brick,
                self.brick_coord.x == old(self).coord_spec().x,
                self.brick_coord.y >= old(self).coord_spec().y,
                old(self).score_spec() <= SCORE_CAP,
                self.score == old(self).score_spec() + 2 * (self.brick_coord.y - old(
                    self,
                ).coord_spec().y),
                self.brick_coord.y <= 20,
                forall|y2: int|
                    old(self).coord_spec().y <= y2 < self.brick_coord.y ==> #[trigger] self.fit_spec(
                        y2,
                        self.brick_coord.x - 2,
                    ),
            decreases 20 - self.brick_coord.y,
        {
            proof {
                self.brick.lemma_occupied_exists();
                let (py, px) = choose|py: int, px: int|
                    0 <= py < 4 && 0 <= px < 4 && self.brick_spec().occupied_at(py, px);
                assert(self.coord_spec().y + py < 20);
            }
            let ghost mpre = *self;
            self.brick_coord.y += 1;
            self.score += 2;
            proof {
                let ghost rot = self.brick_spec().rotation_spec() as int;
                assert forall|y2: int|
                    old(self).coord_spec().y <= y2 < self.brick_coord.y implies #[trigger] self.fit_spec(
                    y2,
                    self.brick_coord.x - 2,
                ) by {
                    if y2 < mpre.brick_coord.y {
                        assert(mpre.fit_spec(y2, mpre.brick_coord.x - 2));
                    } else {
                        assert(mpre.fit_spec(y2, mpre.brick_coord.x - 2));
                    }
                    Board::lemma_fit_frame(mpre, *self, rot, y2, self.brick_coord.x - 2);
                }
            }
        }
    }
}

} // verus!
