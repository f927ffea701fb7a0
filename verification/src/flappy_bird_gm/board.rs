//! The flappy bird simulation: a bird height, a fixed-length queue of
//! upcoming pipe hole centers, and a countdown to the next pipe. Each step
//! the bird rises or falls; at a pipe the bird must sit within the hole's
//! band or a death flag is set. Passing a pipe scores one point, drops the
//! passed hole and appends a fresh one, so the queue length never changes.

use vstd::prelude::*;

use crate::rng::random_below;

verus! {

pub const NUMBER_OF_PIPES: usize = 10;
pub const PIPE_WIDTH: i32 = 2;
pub const PIPES_DISTANCE: i32 = 7;
pub const PIPES_HOLE_SIZE: i32 = 3;
pub const MAX_DISTANCE_BETWEEN_HOLES: i32 = 6;
pub const JUMP: i32 = 2;
pub const BOARD_HEIGHT: i32 = 20;

/// Where a freshly generated hole center lands: the candidate position
/// itself when it lies on the board, else pushed back just inside the
/// nearer edge by one hole size.
pub open spec fn clamped_hole(p: int) -> int {
    if p < 0 {
        PIPES_HOLE_SIZE as int
    } else if p > BOARD_HEIGHT {
        BOARD_HEIGHT - PIPES_HOLE_SIZE
    } else {
        p
    }
}

pub struct Board {
    score: u32,
    bird_height: i32,
    pipe_holes: Vec<i32>,
    distance_to_next_pipe: i32,
    died_horizontally: bool,
    died_vertically: bool,
    in_pipe: i32,
}

impl Board {
    pub closed spec fn score_spec(self) -> u32 {
        self.score
    }

    pub closed spec fn bird_height_spec(self) -> i32 {
        self.bird_height
    }

    /// The upcoming hole centers, nearest pipe first.
    pub closed spec fn holes_spec(self) -> Seq<i32> {
        self.pipe_holes@
    }

    pub closed spec fn distance_spec(self) -> i32 {
        self.distance_to_next_pipe
    }

    pub closed spec fn in_pipe_spec(self) -> i32 {
        self.in_pipe
    }

    pub closed spec fn lost_spec(self) -> bool {
        self.died_horizontally || self.died_vertically
    }

    /// A bird at height `h` fits through the nearest hole's band.
    pub open spec fn in_hole_at(self, h: int) -> bool {
        self.holes_spec()[0] - PIPES_HOLE_SIZE / 2 <= h && h <= self.holes_spec()[0]
            + PIPES_HOLE_SIZE / 2
    }

    /// The height the bird will have after one step.
    pub open spec fn next_height(self, jump: bool) -> int {
        if jump {
            self.bird_height_spec() + JUMP
        } else {
            self.bird_height_spec() - 1
        }
    }

    /// Well-formedness: the hole queue always holds `NUMBER_OF_PIPES`
    /// centers within the board's height range, the pipe countdown and the
    /// in-pipe progress stay in range, and a live bird's height is bounded
    /// by how far it could have strayed since the last pipe.
    pub closed spec fn inv(self) -> bool {
        &&& self.pipe_holes@.len() == NUMBER_OF_PIPES
        &&& forall|i: int|
            0 <= i < self.pipe_holes@.len() ==> 0 <= #[trigger] self.pipe_holes@[i]
                && self.pipe_holes@[i] <= BOARD_HEIGHT
        &&& 0 <= self.distance_to_next_pipe <= PIPES_DISTANCE
        &&& 0 <= self.in_pipe < PIPE_WIDTH
        &&& !self.lost_spec() ==> {
            &&& -1 - (PIPES_DISTANCE - self.distance_to_next_pipe) <= self.bird_height
            &&& self.bird_height <= BOARD_HEIGHT + 1 + 2 * (PIPES_DISTANCE
                - self.distance_to_next_pipe)
        }
    }

    pub fn new() -> (r: Board)
        ensures
            r.inv(),
            !r.lost_spec(),
            r.score_spec() == 0,
    {
        let mut board = Board {
            score: 0,
            bird_height: BOARD_HEIGHT / 2,
            pipe_holes: Vec::new(),
            distance_to_next_pipe: PIPES_DISTANCE - 1,
            died_horizontally: false,
            died_vertically: false,
            in_pipe: 0,
        };
        board.reset_board();
        board
    }

    /// Put the board back in its starting state: the bird halfway up, a
    /// full queue of holes with the first one centered, and the score at
    /// zero.
    pub fn reset_board(&mut self)
        ensures
            final(self).inv(),
            !final(self).lost_spec(),
            final(self).score_spec() == 0,
            final(self).holes_spec().len() == NUMBER_OF_PIPES,
            final(self).bird_height_spec() == BOARD_HEIGHT / 2,
            final(self).holes_spec()[0] == BOARD_HEIGHT / 2,
            final(self).distance_spec() == PIPES_DISTANCE,
            final(self).in_pipe_spec() == 0,
    {
        self.pipe_holes.clear();
        self.pipe_holes.push(BOARD_HEIGHT / 2);
        while self.pipe_holes.len() < NUMBER_OF_PIPES
            invariant
                1 <= self.pipe_holes@.len() <= NUMBER_OF_PIPES,
                self.pipe_holes@[0] == BOARD_HEIGHT / 2,
                forall|i: int|
                    0 <= i < self.pipe_holes@.len() ==> 0 <= #[trigger] self.pipe_holes@[i]
                        && self.pipe_holes@[i] <= BOARD_HEIGHT,
            decreases NUMBER_OF_PIPES - self.pipe_holes@.len(),
        {
            let ghost before = self.pipe_holes@;
            self.generate_pipe();
            proof {
                assert(self.pipe_holes@.drop_last()[0] == before[0]);
                assert(self.pipe_holes@[0] == BOARD_HEIGHT / 2);
                assert forall|i: int|
                    0 <= i < self.pipe_holes@.len() implies 0 <= #[trigger] self.pipe_holes@[i]
                    && self.pipe_holes@[i] <= BOARD_HEIGHT by {
                    if i < self.pipe_holes@.len() - 1 {
                        assert(self.pipe_holes@[i] == self.pipe_holes@.drop_last()[i]);
                    }
                }
            }
        }
        self.score = 0;
        self.bird_height = BOARD_HEIGHT / 2;
        self.distance_to_next_pipe = PIPES_DISTANCE;
        self.died_horizontally = false;
        self.died_vertically = false;
        self.in_pipe = 0;
    }

    fn in_hole(&self) -> (r: bool)
        requires
            self.holes_spec().len() > 0,
            0 <= self.holes_spec()[0] <= BOARD_HEIGHT,
        ensures
            r == self.in_hole_at(self.bird_height_spec() as int),
    {
        let center_of_hole = self.pipe_holes[0];
        self.bird_height <= center_of_hole + PIPES_HOLE_SIZE / 2 && self.bird_height
            >= center_of_hole - PIPES_HOLE_SIZE / 2
    }

    /// How one `advance` call relates the board before it to the board
    /// after it: the bird rises or falls, a bird outside the nearest
    /// hole's band while entering or inside a pipe dies with everything
    /// else frozen, fully passing a pipe scores one point and replaces
    /// the passed hole by a fresh one near it, and otherwise only the
    /// countdown or the in-pipe progress advances.
    pub open spec fn advance_step(pre: Board, post: Board, jump: bool) -> bool {
        let h2 = pre.next_height(jump);
        let d = pre.distance_spec();
        &&& post.holes_spec().len() == pre.holes_spec().len()
        &&& post.bird_height_spec() == h2
        &&& (pre.in_hole_at(h2) ==> !post.lost_spec())
        &&& if (d == 1 || d == 0) && !pre.in_hole_at(h2) {
            &&& post.lost_spec()
            &&& post.score_spec() == pre.score_spec()
            &&& post.holes_spec() == pre.holes_spec()
            &&& post.distance_spec() == d
        } else if d == 0 && pre.in_pipe_spec() == PIPE_WIDTH - 1 {
            &&& !post.lost_spec()
            &&& post.score_spec() == pre.score_spec() + 1
            &&& post.holes_spec().drop_last() == pre.holes_spec().skip(1)
            &&& exists|delta: int|
                -MAX_DISTANCE_BETWEEN_HOLES <= delta < MAX_DISTANCE_BETWEEN_HOLES
                    && post.holes_spec().last() as int == #[trigger] clamped_hole(
                    pre.holes_spec().last() + delta,
                )
            &&& post.distance_spec() == PIPES_DISTANCE
            &&& post.in_pipe_spec() == 0
        } else if d == 0 {
            &&& !post.lost_spec()
            &&& post.score_spec() == pre.score_spec()
            &&& post.holes_spec() == pre.holes_spec()
            &&& post.distance_spec() == 0
            &&& post.in_pipe_spec() == pre.in_pipe_spec() + 1
        } else {
            &&& !post.lost_spec()
            &&& post.score_spec() == pre.score_spec()
            &&& post.holes_spec() == pre.holes_spec()
            &&& post.distance_spec() == d - 1
            &&& post.in_pipe_spec() == pre.in_pipe_spec()
        }
    }

    /// Step the simulation once: the bird jumps or falls, then the pipe
    /// countdown advances.
    ///
    /// A bird outside the nearest hole's band while entering or inside a
    /// pipe sets a death flag and freezes everything else. Fully passing a
    /// pipe scores one point, drops the passed hole and appends a fresh
    /// one. The hole queue length never changes.
    pub fn advance(&mut self, jump: bool)
        requires
            old(self).inv(),
            !old(self).lost_spec(),
            old(self).score_spec() < u32::MAX,
        ensures
            final(self).inv(),
            Board::advance_step(*old(self), *final(self), jump),
    {
        if jump {
            self.bird_height += JUMP;
        } else {
            self.bird_height -= 1;
        }
        if self.distance_to_next_pipe == 1 && !self.in_hole() {
            self.died_horizontally = true;
        } else if self.distance_to_next_pipe == 0 && !self.in_hole() {
            self.died_vertically = true;
        } else if self.distance_to_next_pipe == 0 && self.in_pipe == PIPE_WIDTH - 1 {
            self.distance_to_next_pipe = PIPES_DISTANCE;
            self.in_pipe = 0;
            self.score += 1;
            self.pipe_holes.remove(0);
            proof {
                assert(self.pipe_holes@ =~= old(self).pipe_holes@.skip(1));
                assert(self.pipe_holes@.last() == old(self).pipe_holes@.last());
            }
            self.generate_pipe();
            proof {
                assert(self.pipe_holes@.drop_last() =~= old(self).pipe_holes@.skip(1));
                assert forall|i: int|
                    0 <= i < self.pipe_holes@.len() implies 0 <= #[trigger] self.pipe_holes@[i]
                    && self.pipe_holes@[i] <= BOARD_HEIGHT by {
                    if i < self.pipe_holes@.len() - 1 {
                        assert(self.pipe_holes@[i] == self.pipe_holes@.drop_last()[i]);
                        assert(old(self).pipe_holes@.skip(1)[i] == old(self).pipe_holes@[i + 1]);
                    }
                }
            }
        } else if self.distance_to_next_pipe == 0 {
            self.in_pipe += 1;
        } else {
            self.distance_to_next_pipe -= 1;
        }
    }

    pub fn lost(&self) -> (r: bool)
        ensures
            r == self.lost_spec(),
    {
        self.died_horizontally || self.died_vertically
    }

    pub fn consult_score(&self) -> (r: u32)
        ensures
            r == self.score_spec(),
    {
        self.score
    }

    /// How many upcoming holes the queue holds.
    pub fn number_of_holes(&self) -> (r: usize)
        ensures
            r == self.holes_spec().len(),
    {
        self.pipe_holes.len()
    }

    /// The bird's current height.
    pub fn consult_bird_height(&self) -> (r: i32)
        ensures
            r == self.bird_height_spec(),
    {
        self.bird_height
    }

    /// The center of the nearest upcoming hole.
    pub fn consult_next_hole(&self) -> (r: i32)
        requires
            self.holes_spec().len() > 0,
        ensures
            r == self.holes_spec()[0],
    {
        self.pipe_holes[0]
    }

    /// Append one hole: the previous last center moved by a bounded random
    /// offset, clamped to the board's height range.
    fn generate_pipe(&mut self)
        requires
            old(self).pipe_holes@.len() < usize::MAX,
            forall|i: int|
                0 <= i < old(self).pipe_holes@.len() ==> 0 <= #[trigger] old(self).pipe_holes@[i]
                    && old(self).pipe_holes@[i] <= BOARD_HEIGHT,
        ensures
            final(self).pipe_holes@.len() == old(self).pipe_holes@.len() + 1,
            final(self).pipe_holes@.drop_last() == old(self).pipe_holes@,
            0 <= final(self).pipe_holes@.last() <= BOARD_HEIGHT,
            old(self).pipe_holes@.len() > 0 ==> exists|delta: int|
                -MAX_DISTANCE_BETWEEN_HOLES <= delta < MAX_DISTANCE_BETWEEN_HOLES
                    && final(self).pipe_holes@.last() as int == #[trigger] clamped_hole(
                    old(self).pipe_holes@.last() + delta,
                ),
            final(self).score == old(self).score,
            final(self).bird_height == old(self).bird_height,
            final(self).distance_to_next_pipe == old(self).distance_to_next_pipe,
            final(self).died_horizontally == old(self).died_horizontally,
            final(self).died_vertically == old(self).died_vertically,
            final(self).in_pipe == old(self).in_pipe,
    {
        let draw = random_below((2 * MAX_DISTANCE_BETWEEN_HOLES) as usize);
        let delta: i32 = draw as i32 - MAX_DISTANCE_BETWEEN_HOLES;
        let new_pos: i32 = if self.pipe_holes.len() > 0 {
            self.pipe_holes[self.pipe_holes.len() - 1] + delta
        } else {
            BOARD_HEIGHT / 2
        };
        if new_pos < 0 {
            self.pipe_holes.push(PIPES_HOLE_SIZE);
        } else if new_pos > BOARD_HEIGHT {
            self.pipe_holes.push(BOARD_HEIGHT - PIPES_HOLE_SIZE);
        } else {
            self.pipe_holes.push(new_pos);
        }
        proof {
            if old(self).pipe_holes@.len() > 0 {
                let d = delta as int;
                assert(-MAX_DISTANCE_BETWEEN_HOLES <= d < MAX_DISTANCE_BETWEEN_HOLES
                    && self.pipe_holes@.last() as int == clamped_hole(
                    old(self).pipe_holes@.last() + d,
                ));
            }
        }
    }
}

} // verus!
