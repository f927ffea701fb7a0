//! The 2048 simulation: a four by four grid of tile values (zero for an
//! empty cell), a move counter and a score. A move slides every tile
//! toward one wall; a tile that reaches an equal tile merges with it into
//! one doubled tile, and a tile takes part in at most one merge per move.
//! After a move that changed anything, one fresh tile appears on a random
//! empty cell and the board is checked for being stuck.

use vstd::prelude::*;

use crate::game_manager::Directions;
use crate::rng::random_below;

verus! {

/// The largest tile value for which one more merge cannot overflow the
/// cell arithmetic.
pub const TILE_LIMIT: u32 = 0x0800_0000;

/// The largest score for which one more move cannot overflow the score
/// arithmetic.
pub const SCORE_LIMIT: u32 = 0x7FFF_FFFF;

pub open spec fn int_values(s: Seq<u32>) -> Seq<int> {
    s.map_values(|x: u32| x as int)
}

pub open spec fn zeros(n: nat) -> Seq<int> {
    Seq::new(n, |i: int| 0)
}

/// The tile values of a line with the empty cells dropped, wall side
/// first.
pub open spec fn nonzero(s: Seq<int>) -> Seq<int>
    decreases s.len(),
{
    if s.len() == 0 {
        Seq::empty()
    } else if s[0] == 0 {
        nonzero(s.skip(1))
    } else {
        seq![s[0]] + nonzero(s.skip(1))
    }
}

/// One merge pass over a compacted line: the two leading tiles merge into
/// one doubled tile when equal, and the merged tile takes no further part
/// in the pass.
pub open spec fn merged_line(s: Seq<int>) -> Seq<int>
    decreases s.len(),
{
    if s.len() <= 1 {
        s
    } else if s[0] == s[1] {
        seq![2 * s[0]] + merged_line(s.skip(2))
    } else {
        seq![s[0]] + merged_line(s.skip(1))
    }
}

/// The score a merge pass awards: the value of every merged tile.
pub open spec fn merge_score(s: Seq<int>) -> int
    decreases s.len(),
{
    if s.len() <= 1 {
        0
    } else if s[0] == s[1] {
        2 * s[0] + merge_score(s.skip(2))
    } else {
        merge_score(s.skip(1))
    }
}

/// What a line holds after sliding toward its wall (index zero): the
/// merged compacted tiles, then empty cells.
pub open spec fn slide_spec(s: Seq<int>, n: nat) -> Seq<int> {
    merged_line(nonzero(s)) + zeros((n - merged_line(nonzero(s)).len()) as nat)
}

/// Dropping the empty cells keeps the tile bounds and never lengthens the
/// line, and drops every zero.
pub proof fn lemma_nonzero_bounds(s: Seq<int>, bound: int)
    requires
        forall|i: int| 0 <= i < s.len() ==> 0 <= #[trigger] s[i] <= bound,
    ensures
        nonzero(s).len() <= s.len(),
        forall|i: int| 0 <= i < nonzero(s).len() ==> 0 < #[trigger] nonzero(s)[i] <= bound,
    decreases s.len(),
{
    if s.len() > 0 {
        lemma_nonzero_bounds(s.skip(1), bound);
    }
}

/// One merge pass never lengthens the line, keeps every tile positive and
/// at most doubled, and awards at most the line's length times the old
/// bound.
pub proof fn lemma_merged_bounds(s: Seq<int>, bound: int)
    requires
        0 <= bound,
        forall|i: int| 0 <= i < s.len() ==> 0 < #[trigger] s[i] <= bound,
    ensures
        merged_line(s).len() <= s.len(),
        s.len() > 0 ==> merged_line(s).len() >= 1,
        forall|i: int|
            0 <= i < merged_line(s).len() ==> 0 < #[trigger] merged_line(s)[i] <= 2 * bound,
        0 <= merge_score(s) <= bound * s.len(),
    decreases s.len(),
{
    if s.len() <= 1 {
    } else if s[0] == s[1] {
        lemma_merged_bounds(s.skip(2), bound);
        assert(bound * s.len() == bound * (s.len() - 2) + 2 * bound) by (nonlinear_arith);
    } else {
        lemma_merged_bounds(s.skip(1), bound);
        assert(bound * (s.len() - 1) <= bound * s.len()) by (nonlinear_arith)
            requires
                0 <= bound,
                1 <= s.len(),
        ;
    }
}

/// The law of a merge: a line that starts with two equal tiles of value
/// `v` merges them into one tile of value `2v`, awards exactly `2v`
/// points, and the merged tile takes no further part: the rest of the
/// line is merged on its own. In particular a freshly merged tile never
/// chain-merges with a following equal tile.
pub proof fn lemma_merge_pair(v: int, rest: Seq<int>)
    ensures
        merged_line(seq![v, v] + rest) == seq![2 * v] + merged_line(rest),
        merge_score(seq![v, v] + rest) == 2 * v + merge_score(rest),
        merged_line(seq![v, v, 2 * v]) == seq![2 * v, 2 * v],
{
    let s = seq![v, v] + rest;
    assert(s[0] == v && s[1] == v);
    assert(s.skip(2) =~= rest);
    let t = seq![v, v, 2 * v];
    assert(t.skip(2) =~= seq![2 * v]);
    assert(merged_line(seq![2 * v]) == seq![2 * v]);
    assert(merged_line(t) =~= seq![2 * v, 2 * v]);
}

pub struct Board {
    board: Vec<u32>,
    number_of_moves: u32,
    score: u32,
    lost: bool,
}

impl Board {
    pub closed spec fn cells_spec(self) -> Seq<u32> {
        self.board@
    }

    pub closed spec fn score_spec(self) -> u32 {
        self.score
    }

    pub closed spec fn moves_spec(self) -> u32 {
        self.number_of_moves
    }

    pub closed spec fn lost_spec(self) -> bool {
        self.lost
    }

    pub open spec fn cell(self, line: int, column: int) -> int {
        self.cells_spec()[line * 4 + column] as int
    }

    /// Well-formedness: the grid holds exactly four by four cells.
    pub open spec fn inv(self) -> bool {
        self.cells_spec().len() == 16
    }

    /// A line of the grid read toward the given wall: index zero is the
    /// cell a slide pushes tiles toward.
    pub open spec fn lane(self, direction: Directions, k: int, j: int) -> int {
        match direction {
            Directions::Left => self.cell(k, j),
            Directions::Right => self.cell(k, 3 - j),
            Directions::Up => self.cell(j, k),
            Directions::Down => self.cell(3 - j, k),
        }
    }

    pub open spec fn lane_seq(self, direction: Directions, k: int) -> Seq<int> {
        Seq::new(4, |j: int| self.lane(direction, k, j))
    }

    /// The score one move toward `direction` awards.
    pub open spec fn move_gain(self, direction: Directions) -> int {
        merge_score(nonzero(self.lane_seq(direction, 0))) + merge_score(
            nonzero(self.lane_seq(direction, 1)),
        ) + merge_score(nonzero(self.lane_seq(direction, 2))) + merge_score(
            nonzero(self.lane_seq(direction, 3)),
        )
    }

    /// Whether every lane of the board, slid toward `direction`, is what
    /// it already holds: such a move changes nothing.
    pub open spec fn slide_is_noop(self, direction: Directions) -> bool {
        forall|k: int|
            0 <= k < 4 ==> #[trigger] self.lane_seq(direction, k) == slide_spec(
                self.lane_seq(direction, k),
                4,
            )
    }

    /// The board is stuck: no empty cell and no equal adjacent pair.
    pub open spec fn stuck_spec(self) -> bool {
        &&& forall|l: int, c: int| 0 <= l < 4 && 0 <= c < 4 ==> #[trigger] self.cell(l, c) != 0
        &&& forall|l: int, c: int|
            0 <= l < 4 && 0 <= c < 3 ==> #[trigger] self.cell(l, c) != self.cell(l, c + 1)
        &&& forall|l: int, c: int|
            0 <= l < 3 && 0 <= c < 4 ==> #[trigger] self.cell(l, c) != self.cell(l + 1, c)
    }

    /// Room for one more move without the arithmetic leaving its types:
    /// modest bounds on the tiles, the score and the move counter that
    /// ordinary play never approaches.
    pub open spec fn headroom_spec(self) -> bool {
        &&& forall|i: int| 0 <= i < self.cells_spec().len() ==> #[trigger] self.cells_spec()[i] <= TILE_LIMIT
        &&& self.score_spec() <= SCORE_LIMIT
        &&& self.moves_spec() < u32::MAX
    }

    /// What the whole grid holds after sliding every lane toward
    /// `direction`, before any new tile appears.
    pub open spec fn slid_cells(self, direction: Directions) -> Seq<int> {
        Seq::new(
            16,
            |i: int|
                match direction {
                    Directions::Left => slide_spec(self.lane_seq(direction, i / 4), 4)[i % 4],
                    Directions::Right => slide_spec(self.lane_seq(direction, i / 4), 4)[3 - i % 4],
                    Directions::Up => slide_spec(self.lane_seq(direction, i % 4), 4)[i / 4],
                    Directions::Down => slide_spec(self.lane_seq(direction, i % 4), 4)[3 - i / 4],
                },
        )
    }

    /// The gain of the first `k` lanes of a move.
    pub open spec fn gain_upto(self, direction: Directions, k: int) -> int
        decreases k,
    {
        if k <= 0 {
            0
        } else {
            self.gain_upto(direction, k - 1) + merge_score(
                nonzero(self.lane_seq(direction, k - 1)),
            )
        }
    }
}

/// Slide one lane of four tiles toward index zero: drop the empty cells,
/// merge the leading equal pairs once each, and pad with empty cells.
/// Returns the slid lane and the score the merges award.
fn slide_values(vals: &Vec<u32>) -> (res: (Vec<u32>, u32))
    requires
        vals@.len() == 4,
        forall|i: int| 0 <= i < vals@.len() ==> #[trigger] vals@[i] <= TILE_LIMIT,
    ensures
        res.0@.len() == 4,
        int_values(res.0@) == slide_spec(int_values(vals@), 4),
        res.1 == merge_score(nonzero(int_values(vals@))),
        res.1 <= 4 * TILE_LIMIT,
{
    let ghost s = int_values(vals@);
    let mut compacted: Vec<u32> = Vec::new();
    let mut i: usize = 0;
    proof {
        assert(s.skip(0) =~= s);
    }
    while i < vals.len()
        invariant
            vals@.len() == 4,
            forall|n: int| 0 <= n < vals@.len() ==> #[trigger] vals@[n] <= TILE_LIMIT,
            s == int_values(vals@),
            i <= 4,
            compacted@.len() <= i,
            forall|n: int| 0 <= n < compacted@.len() ==> 0 < #[trigger] compacted@[n] <= TILE_LIMIT,
            int_values(compacted@) + nonzero(s.skip(i as int)) == nonzero(s),
        decreases vals@.len() - i,
    {
        proof {
            assert(s.skip(i as int).skip(1) =~= s.skip(i + 1));
            assert(s.skip(i as int)[0] == s[i as int]);
        }
        let ghost before = compacted@;
        if vals[i] != 0 {
            compacted.push(vals[i]);
            proof {
                assert(int_values(compacted@) =~= int_values(before) + seq![s[i as int]]);
                assert(nonzero(s.skip(i as int)) == seq![s[i as int]] + nonzero(s.skip(i + 1)));
                assert((int_values(before) + seq![s[i as int]]) + nonzero(s.skip(i + 1))
                    =~= int_values(before) + (seq![s[i as int]] + nonzero(s.skip(i + 1))));
            }
        }
        i += 1;
    }
    proof {
        assert(s.skip(4) =~= Seq::<int>::empty());
        assert(int_values(compacted@) + nonzero(s.skip(4)) =~= int_values(compacted@));
        assert(int_values(compacted@) == nonzero(s));
        lemma_nonzero_bounds(s, TILE_LIMIT as int);
        lemma_merged_bounds(nonzero(s), TILE_LIMIT as int);
    }
    let ghost comp = int_values(compacted@);
    let mut out: Vec<u32> = Vec::new();
    let mut gain: u32 = 0;
    let mut j: usize = 0;
    proof {
        assert(comp.skip(0) =~= comp);
    }
    while j < compacted.len()
        invariant
            compacted@.len() <= 4,
            forall|n: int| 0 <= n < compacted@.len() ==> 0 < #[trigger] compacted@[n] <= TILE_LIMIT,
            comp == int_values(compacted@),
            j <= compacted@.len(),
            out@.len() <= j,
            forall|n: int| 0 <= n < out@.len() ==> #[trigger] out@[n] <= 2 * TILE_LIMIT,
            int_values(out@) + merged_line(comp.skip(j as int)) == merged_line(comp),
            gain + merge_score(comp.skip(j as int)) == merge_score(comp),
            gain <= merge_score(comp),
        decreases compacted@.len() - j,
    {
        proof {
            assert(comp.skip(j as int)[0] == comp[j as int]);
            assert(comp.skip(j as int).skip(1) =~= comp.skip(j + 1));
            if j + 2 <= compacted@.len() {
                assert(comp.skip(j as int)[1] == comp[j + 1]);
                assert(comp.skip(j as int).skip(2) =~= comp.skip(j + 2));
            }
            lemma_merged_bounds(comp, TILE_LIMIT as int);
            lemma_merged_bounds(comp.skip(j as int), TILE_LIMIT as int);
        }
        if j + 1 < compacted.len() && compacted[j] == compacted[j + 1] {
            let v = compacted[j];
            proof {
                lemma_merged_bounds(comp.skip(j + 2), TILE_LIMIT as int);
                assert(merged_line(comp.skip(j as int)) == seq![2 * comp[j as int]] + merged_line(
                    comp.skip(j + 2),
                ));
                assert(merge_score(comp.skip(j as int)) == 2 * comp[j as int] + merge_score(
                    comp.skip(j + 2),
                ));
            }
            let ghost before = out@;
            out.push(2 * v);
            gain = gain + 2 * v;
            proof {
                assert(int_values(out@) =~= int_values(before) + seq![2 * comp[j as int]]);
                assert((int_values(before) + seq![2 * comp[j as int]]) + merged_line(
                    comp.skip(j + 2),
                ) =~= int_values(before) + (seq![2 * comp[j as int]] + merged_line(
                    comp.skip(j + 2),
                )));
            }
            j += 2;
        } else {
            proof {
                if j + 1 == compacted@.len() {
                    assert(comp.skip(j as int) =~= seq![comp[j as int]]);
                    assert(merged_line(comp.skip(j as int)) == seq![comp[j as int]]);
                    assert(merge_score(comp.skip(j as int)) == 0);
                    assert(merged_line(comp.skip(j + 1)) =~= Seq::<int>::empty());
                    assert(comp.skip(j + 1) =~= Seq::<int>::empty());
                } else {
                    assert(merged_line(comp.skip(j as int)) == seq![comp[j as int]] + merged_line(
                        comp.skip(j + 1),
                    ));
                    assert(merge_score(comp.skip(j as int)) == merge_score(comp.skip(j + 1)));
                }
                lemma_merged_bounds(comp.skip(j + 1), TILE_LIMIT as int);
            }
            let ghost before = out@;
            out.push(compacted[j]);
            proof {
                assert(int_values(out@) =~= int_values(before) + seq![comp[j as int]]);
                assert((int_values(before) + seq![comp[j as int]]) + merged_line(
                    comp.skip(j + 1),
                ) =~= int_values(before) + (seq![comp[j as int]] + merged_line(
                    comp.skip(j + 1),
                )));
            }
            j += 1;
        }
    }
    proof {
        assert(comp.skip(compacted@.len() as int) =~= Seq::<int>::empty());
        assert(merged_line(comp.skip(compacted@.len() as int)) =~= Seq::<int>::empty());
        assert(int_values(out@) + merged_line(comp.skip(compacted@.len() as int)) =~= int_values(
            out@,
        ));
        assert(int_values(out@) == merged_line(comp));
        lemma_merged_bounds(comp, TILE_LIMIT as int);
        assert(merge_score(comp.skip(compacted@.len() as int)) == 0);
        assert(gain == merge_score(comp));
        assert(merge_score(comp) <= TILE_LIMIT * 4);
    }
    let ghost merged = merged_line(comp);
    while out.len() < 4
        invariant
            merged == merged_line(nonzero(s)),
            merged.len() <= out@.len() <= 4,
            int_values(out@) == merged + zeros((out@.len() - merged.len()) as nat),
        decreases 4 - out@.len(),
    {
        let ghost before = out@;
        out.push(0);
        proof {
            assert(zeros((out@.len() - merged.len()) as nat) =~= zeros(
                (before.len() - merged.len()) as nat,
            ) + seq![0int]);
            assert(int_values(out@) =~= int_values(before) + seq![0int]);
            assert((merged + zeros((before.len() - merged.len()) as nat)) + seq![0int]
                =~= merged + (zeros((before.len() - merged.len()) as nat) + seq![0int]));
        }
    }
    proof {
        assert(int_values(out@) == slide_spec(s, 4));
    }
    (out, gain)
}


/// Writing the four cells of one lane leaves every other lane as it was,
/// and a lane reads exactly its four cells in wall order.
proof fn lemma_lane_frame(
    pre: Board,
    post: Board,
    direction: Directions,
    k: int,
    i0: int,
    i1: int,
    i2: int,
    i3: int,
)
    requires
        pre.inv(),
        post.inv(),
        0 <= k < 4,
        match direction {
            Directions::Left => i0 == 4 * k && i1 == 4 * k + 1 && i2 == 4 * k + 2 && i3 == 4 * k
                + 3,
            Directions::Right => i0 == 4 * k + 3 && i1 == 4 * k + 2 && i2 == 4 * k + 1 && i3 == 4
                * k,
            Directions::Up => i0 == k && i1 == 4 + k && i2 == 8 + k && i3 == 12 + k,
            Directions::Down => i0 == 12 + k && i1 == 8 + k && i2 == 4 + k && i3 == k,
        },
        forall|n: int|
            0 <= n < 16 && n != i0 && n != i1 && n != i2 && n != i3 ==> #[trigger] post.cells_spec()[n]
                == pre.cells_spec()[n],
    ensures
        pre.lane_seq(direction, k) == seq![
            pre.cells_spec()[i0] as int,
            pre.cells_spec()[i1] as int,
            pre.cells_spec()[i2] as int,
            pre.cells_spec()[i3] as int,
        ],
        post.lane_seq(direction, k) == seq![
            post.cells_spec()[i0] as int,
            post.cells_spec()[i1] as int,
            post.cells_spec()[i2] as int,
            post.cells_spec()[i3] as int,
        ],
        forall|k2: int|
            0 <= k2 < 4 && k2 != k ==> #[trigger] post.lane_seq(direction, k2) == pre.lane_seq(
                direction,
                k2,
            ),
{
    assert(pre.lane_seq(direction, k) =~= seq![
        pre.cells_spec()[i0] as int,
        pre.cells_spec()[i1] as int,
        pre.cells_spec()[i2] as int,
        pre.cells_spec()[i3] as int,
    ]);
    assert(post.lane_seq(direction, k) =~= seq![
        post.cells_spec()[i0] as int,
        post.cells_spec()[i1] as int,
        post.cells_spec()[i2] as int,
        post.cells_spec()[i3] as int,
    ]);
    assert forall|k2: int| 0 <= k2 < 4 && k2 != k implies #[trigger] post.lane_seq(direction, k2)
        == pre.lane_seq(direction, k2) by {
        assert forall|j: int| 0 <= j < 4 implies post.lane(direction, k2, j) == pre.lane(
            direction,
            k2,
            j,
        ) by {
            match direction {
                Directions::Left => {
                    assert(k2 * 4 + j != i0 && k2 * 4 + j != i1 && k2 * 4 + j != i2 && k2 * 4 + j
                        != i3);
                },
                Directions::Right => {
                    assert(k2 * 4 + (3 - j) != i0 && k2 * 4 + (3 - j) != i1 && k2 * 4 + (3 - j)
                        != i2 && k2 * 4 + (3 - j) != i3);
                },
                Directions::Up => {
                    assert(j * 4 + k2 != i0 && j * 4 + k2 != i1 && j * 4 + k2 != i2 && j * 4 + k2
                        != i3);
                },
                Directions::Down => {
                    assert((3 - j) * 4 + k2 != i0 && (3 - j) * 4 + k2 != i1 && (3 - j) * 4 + k2
                        != i2 && (3 - j) * 4 + k2 != i3);
                },
            }
        }
        assert(post.lane_seq(direction, k2) =~= pre.lane_seq(direction, k2));
    }
}

impl Board {
    /// Slide every lane toward `direction`, merging once per tile, and add
    /// the merge values to the score. Returns whether anything changed.
    #[verifier::rlimit(100)]
    fn move_dir(&mut self, direction: &Directions) -> (moved: bool)
        requires
            old(self).inv(),
            old(self).headroom_spec(),
        ensures
            final(self).inv(),
            final(self).moves_spec() == old(self).moves_spec(),
            final(self).lost_spec() == old(self).lost_spec(),
            forall|k: int|
                0 <= k < 4 ==> #[trigger] final(self).lane_seq(*direction, k) == slide_spec(
                    old(self).lane_seq(*direction, k),
                    4,
                ),
            final(self).score_spec() == old(self).score_spec() + old(self).move_gain(*direction),
            moved == !old(self).slide_is_noop(*direction),
            int_values(final(self).cells_spec()) == old(self).slid_cells(*direction),
    {
        let mut moved = false;
        let mut k: usize = 0;
        while k < 4
            invariant
                self.inv(),
                old(self).inv(),
                old(self).headroom_spec(),
                k <= 4,
                self.number_of_moves == old(self).number_of_moves,
                self.lost == old(self).lost,
                forall|k2: int|
                    k as int <= k2 < 4 ==> #[trigger] self.lane_seq(*direction, k2) == old(
                        self,
                    ).lane_seq(*direction, k2),
                forall|k2: int|
                    0 <= k2 < k as int ==> #[trigger] self.lane_seq(*direction, k2) == slide_spec(
                        old(self).lane_seq(*direction, k2),
                        4,
                    ),
                self.score == old(self).score + old(self).gain_upto(*direction, k as int),
                self.score <= old(self).score + k * (4 * TILE_LIMIT),
                (moved <==> exists|k2: int|
                    0 <= k2 < k as int && #[trigger] old(self).lane_seq(*direction, k2)
                        != slide_spec(old(self).lane_seq(*direction, k2), 4)),
            decreases 4 - k,
        {
            let (i0, i1, i2, i3): (usize, usize, usize, usize) = match direction {
                Directions::Left => (k * 4, k * 4 + 1, k * 4 + 2, k * 4 + 3),
                Directions::Right => (k * 4 + 3, k * 4 + 2, k * 4 + 1, k * 4),
                Directions::Up => (k, 4 + k, 8 + k, 12 + k),
                Directions::Down => (12 + k, 8 + k, 4 + k, k),
            };
            proof {
                assert(self.lane_seq(*direction, k as int) =~= seq![
                    self.cells_spec()[i0 as int] as int,
                    self.cells_spec()[i1 as int] as int,
                    self.cells_spec()[i2 as int] as int,
                    self.cells_spec()[i3 as int] as int,
                ]);
                assert(old(self).lane_seq(*direction, k as int) =~= seq![
                    old(self).cells_spec()[i0 as int] as int,
                    old(self).cells_spec()[i1 as int] as int,
                    old(self).cells_spec()[i2 as int] as int,
                    old(self).cells_spec()[i3 as int] as int,
                ]);
            }
            let mut vals: Vec<u32> = Vec::new();
            vals.push(self.board[i0]);
            vals.push(self.board[i1]);
            vals.push(self.board[i2]);
            vals.push(self.board[i3]);
            proof {
                assert(int_values(vals@) =~= self.lane_seq(*direction, k as int));
                assert(int_values(vals@) == old(self).lane_seq(*direction, k as int));
                assert forall|n: int| 0 <= n < vals@.len() implies #[trigger] vals@[n]
                    <= TILE_LIMIT by {
                    assert(vals@[n] as int == old(self).lane_seq(*direction, k as int)[n]);
                }
            }
            let r = slide_values(&vals);
            let out = r.0;
            let ghost mid = *self;
            self.board[i0] = out[0];
            self.board[i1] = out[1];
            self.board[i2] = out[2];
            self.board[i3] = out[3];
            let changed = !(out[0] == vals[0] && out[1] == vals[1] && out[2] == vals[2] && out[3]
                == vals[3]);
            moved = moved || changed;
            proof {
                assert(old(self).gain_upto(*direction, k + 1) == old(self).gain_upto(
                    *direction,
                    k as int,
                ) + merge_score(nonzero(old(self).lane_seq(*direction, k as int))));
                lemma_nonzero_bounds(old(self).lane_seq(*direction, k as int), TILE_LIMIT as int);
                lemma_merged_bounds(
                    nonzero(old(self).lane_seq(*direction, k as int)),
                    TILE_LIMIT as int,
                );
            }
            self.score = self.score + r.1;
            proof {
                assert forall|n: int|
                    0 <= n < 16 && n != i0 && n != i1 && n != i2 && n != i3 implies #[trigger] self.cells_spec()[n]
                    == mid.cells_spec()[n] by {}
                lemma_lane_frame(
                    mid,
                    *self,
                    *direction,
                    k as int,
                    i0 as int,
                    i1 as int,
                    i2 as int,
                    i3 as int,
                );
                assert(self.lane_seq(*direction, k as int) =~= int_values(out@));
                assert(self.lane_seq(*direction, k as int) == slide_spec(
                    old(self).lane_seq(*direction, k as int),
                    4,
                ));
                assert forall|k2: int|
                    k as int + 1 <= k2 < 4 implies #[trigger] self.lane_seq(*direction, k2) == old(
                    self,
                ).lane_seq(*direction, k2) by {
                    assert(mid.lane_seq(*direction, k2) == old(self).lane_seq(*direction, k2));
                    assert(self.lane_seq(*direction, k2) == mid.lane_seq(*direction, k2));
                }
                assert forall|k2: int|
                    0 <= k2 < k as int implies #[trigger] self.lane_seq(*direction, k2)
                    == slide_spec(old(self).lane_seq(*direction, k2), 4) by {
                    assert(mid.lane_seq(*direction, k2) == slide_spec(
                        old(self).lane_seq(*direction, k2),
                        4,
                    ));
                    assert(self.lane_seq(*direction, k2) == mid.lane_seq(*direction, k2));
                }
                assert((int_values(out@) == int_values(vals@)) <==> (out@[0] == vals@[0] && out@[1]
                    == vals@[1] && out@[2] == vals@[2] && out@[3] == vals@[3])) by {
                    if out@[0] == vals@[0] && out@[1] == vals@[1] && out@[2] == vals@[2] && out@[3]
                        == vals@[3] {
                        assert(int_values(out@) =~= int_values(vals@));
                    }
                }
                assert(changed <==> old(self).lane_seq(*direction, k as int) != slide_spec(
                    old(self).lane_seq(*direction, k as int),
                    4,
                ));
                assert((k as int + 1) * (4 * TILE_LIMIT) == k as int * (4 * TILE_LIMIT) + 4
                    * TILE_LIMIT) by (nonlinear_arith);
            }
            k += 1;
        }
        proof {
            reveal_with_fuel(Board::gain_upto, 5);
            assert(old(self).gain_upto(*direction, 4) == old(self).move_gain(*direction));
            assert forall|i: int|
                0 <= i < 16 implies int_values(self.cells_spec())[i] == old(self).slid_cells(
                *direction,
            )[i] by {
                let l = i / 4;
                let c = i % 4;
                match *direction {
                    Directions::Left => {
                        assert(self.lane_seq(*direction, l)[c] == self.cell(l, c));
                    },
                    Directions::Right => {
                        assert(self.lane_seq(*direction, l)[3 - c] == self.cell(l, c));
                    },
                    Directions::Up => {
                        assert(self.lane_seq(*direction, c)[l] == self.cell(l, c));
                    },
                    Directions::Down => {
                        assert(self.lane_seq(*direction, c)[3 - l] == self.cell(l, c));
                    },
                }
            }
            assert(int_values(self.cells_spec()) =~= old(self).slid_cells(*direction));
        }
        moved
    }

    pub fn new() -> (r: Board)
        ensures
            r.inv(),
            r.score_spec() == 0,
            r.moves_spec() == 0,
            !r.lost_spec(),
            r.headroom_spec(),
            exists|j1: int, j2: int|
                {
                    &&& 0 <= j1 < 16
                    &&& 0 <= j2 < 16
                    &&& j1 != j2
                    &&& (r.cells_spec()[j1] == 2 || r.cells_spec()[j1] == 4)
                    &&& (r.cells_spec()[j2] == 2 || r.cells_spec()[j2] == 4)
                    &&& forall|n: int|
                        0 <= n < 16 && n != j1 && n != j2 ==> #[trigger] r.cells_spec()[n] == 0
                },
    {
        let mut board = Board { board: Vec::new(), number_of_moves: 0, score: 0, lost: false };
        let mut i: usize = 0;
        while i < 16
            invariant
                board.board@.len() == i,
                i <= 16,
                board.number_of_moves == 0,
                board.score == 0,
                !board.lost,
                forall|n: int| 0 <= n < i ==> #[trigger] board.board@[n] == 0,
            decreases 16 - i,
        {
            board.board.push(0);
            i += 1;
        }
        board.start_game();
        board
    }

    /// Empty every cell and zero the counters. No tile is spawned; a new
    /// round begins with `start_game`.
    pub fn reset_board(&mut self)
        requires
            old(self).inv(),
        ensures
            final(self).inv(),
            final(self).score_spec() == 0,
            final(self).moves_spec() == 0,
            !final(self).lost_spec(),
            forall|n: int| 0 <= n < 16 ==> #[trigger] final(self).cells_spec()[n] == 0,
            final(self).headroom_spec(),
    {
        let mut index: usize = 0;
        while index < 16
            invariant
                self.inv(),
                index <= 16,
                forall|n: int| 0 <= n < index ==> #[trigger] self.cells_spec()[n] == 0,
            decreases 16 - index,
        {
            self.board[index] = 0;
            index += 1;
        }
        self.number_of_moves = 0;
        self.score = 0;
        self.lost = false;
    }

    /// Spawn the two tiles a fresh round starts with: on an empty board,
    /// exactly two cells become a two or a four.
    pub fn start_game(&mut self)
        requires
            old(self).inv(),
        ensures
            final(self).inv(),
            final(self).score_spec() == old(self).score_spec(),
            final(self).moves_spec() == old(self).moves_spec(),
            final(self).lost_spec() == old(self).lost_spec(),
            forall|n: int|
                0 <= n < 16 ==> #[trigger] final(self).cells_spec()[n] == old(self).cells_spec()[n]
                    || final(self).cells_spec()[n] == 2 || final(self).cells_spec()[n] == 4,
            (forall|n: int| 0 <= n < 16 ==> old(self).cells_spec()[n] == 0) ==> exists|
                j1: int,
                j2: int,
            |
                {
                    &&& 0 <= j1 < 16
                    &&& 0 <= j2 < 16
                    &&& j1 != j2
                    &&& (final(self).cells_spec()[j1] == 2 || final(self).cells_spec()[j1] == 4)
                    &&& (final(self).cells_spec()[j2] == 2 || final(self).cells_spec()[j2] == 4)
                    &&& forall|n: int|
                        0 <= n < 16 && n != j1 && n != j2
                            ==> #[trigger] final(self).cells_spec()[n] == 0
                },
    {
        let ghost pre = *self;
        self.generate_block();
        let ghost mid = *self;
        self.generate_block();
        proof {
            if forall|n: int| 0 <= n < 16 ==> pre.cells_spec()[n] == 0 {
                assert(pre.cells_spec()[0] == 0);
                let j1 = choose|j: int|
                    0 <= j < 16 && pre.cells_spec()[j] == 0 && (mid.cells_spec()
                        == pre.cells_spec().update(j, 2u32) || mid.cells_spec()
                        == pre.cells_spec().update(j, 4u32));
                let ghost other: int = if j1 == 0 {
                    1
                } else {
                    0
                };
                assert(mid.cells_spec()[other] == pre.cells_spec()[other]);
                assert(mid.cells_spec()[other] == 0);
                let j2 = choose|j: int|
                    0 <= j < 16 && mid.cells_spec()[j] == 0 && (self.cells_spec()
                        == mid.cells_spec().update(j, 2u32) || self.cells_spec()
                        == mid.cells_spec().update(j, 4u32));
                assert(mid.cells_spec()[j1] == 2 || mid.cells_spec()[j1] == 4);
                assert(j1 != j2);
                assert(self.cells_spec()[j1] == mid.cells_spec()[j1]);
                assert(self.cells_spec()[j2] == 2 || self.cells_spec()[j2] == 4);
                assert forall|n: int|
                    0 <= n < 16 && n != j1 && n != j2 implies #[trigger] self.cells_spec()[n]
                    == 0 by {
                    assert(self.cells_spec()[n] == mid.cells_spec()[n]);
                    assert(mid.cells_spec()[n] == pre.cells_spec()[n]);
                }
            }
        }
    }

    /// True when the last move left the board stuck.
    pub fn defeated(&self) -> (r: bool)
        ensures
            r == self.lost_spec(),
    {
        self.lost
    }

    pub fn consult_score(&self) -> (r: u32)
        ensures
            r == self.score_spec(),
    {
        self.score
    }

    pub fn consult_number_of_moves(&self) -> (r: u32)
        ensures
            r == self.moves_spec(),
    {
        self.number_of_moves
    }

    /// Read one cell of the grid.
    pub fn consult_board(&self, line: usize, column: usize) -> (r: u32)
        requires
            self.inv(),
            line < 4,
            column < 4,
        ensures
            r as int == self.cell(line as int, column as int),
    {
        self.board[line * 4 + column]
    }

    /// Whether one more move surely stays within the score and tile
    /// arithmetic. Ordinary play never comes near the limits.
    pub fn move_headroom(&self) -> (r: bool)
        requires
            self.inv(),
        ensures
            r == self.headroom_spec(),
    {
        if !(self.score <= SCORE_LIMIT && self.number_of_moves < u32::MAX) {
            return false;
        }
        let mut index: usize = 0;
        while index < 16
            invariant
                self.inv(),
                index <= 16,
                forall|n: int| 0 <= n < index ==> #[trigger] self.cells_spec()[n] <= TILE_LIMIT,
            decreases 16 - index,
        {
            if self.board[index] > TILE_LIMIT {
                return false;
            }
            index += 1;
        }
        true
    }

    /// The board is stuck when no cell is empty and no two equal tiles
    /// sit side by side.
    fn cannot_move(&self) -> (r: bool)
        requires
            self.inv(),
        ensures
            r == self.stuck_spec(),
    {
        let mut line: usize = 0;
        while line < 4
            invariant
                self.inv(),
                line <= 4,
                forall|l: int, c: int|
                    0 <= l < line && 0 <= c < 4 ==> #[trigger] self.cell(l, c) != 0,
                forall|l: int, c: int|
                    0 <= l < line && 0 <= c < 3 ==> #[trigger] self.cell(l, c) != self.cell(
                        l,
                        c + 1,
                    ),
                forall|l: int, c: int|
                    0 <= l < line && l < 3 && 0 <= c < 4 ==> #[trigger] self.cell(l, c)
                        != self.cell(l + 1, c),
            decreases 4 - line,
        {
            let mut column: usize = 0;
            while column < 4
                invariant
                    self.inv(),
                    line < 4,
                    column <= 4,
                    forall|l: int, c: int|
                        0 <= l < line && 0 <= c < 4 ==> #[trigger] self.cell(l, c) != 0,
                    forall|l: int, c: int|
                        0 <= l < line && 0 <= c < 3 ==> #[trigger] self.cell(l, c) != self.cell(
                            l,
                            c + 1,
                        ),
                    forall|l: int, c: int|
                        0 <= l < line && l < 3 && 0 <= c < 4 ==> #[trigger] self.cell(l, c)
                            != self.cell(l + 1, c),
                    forall|c: int| 0 <= c < column ==> #[trigger] self.cell(line as int, c) != 0,
                    forall|c: int|
                        0 <= c < column && c < 3 ==> #[trigger] self.cell(line as int, c)
                            != self.cell(line as int, c + 1),
                    forall|c: int|
                        0 <= c < column && line < 3 ==> #[trigger] self.cell(line as int, c)
                            != self.cell(line as int + 1, c),
                decreases 4 - column,
            {
                let value = self.board[line * 4 + column];
                if value == 0 {
                    proof {
                        assert(self.cell(line as int, column as int) == 0);
                    }
                    return false;
                }
                if column < 3 && value == self.board[line * 4 + column + 1] {
                    proof {
                        assert(self.cell(line as int, column as int) == self.cell(
                            line as int,
                            column as int + 1,
                        ));
                    }
                    return false;
                }
                if line < 3 && value == self.board[(line + 1) * 4 + column] {
                    proof {
                        assert(self.cell(line as int, column as int) == self.cell(
                            line as int + 1,
                            column as int,
                        ));
                    }
                    return false;
                }
                column += 1;
            }
            line += 1;
        }
        true
    }

    /// Put a tile of the given value on the first empty cell at or after
    /// `index`, probing upward and wrapping around. One full sweep visits
    /// every cell, so a board with an empty cell always receives the
    /// tile; only a full board is left as it is.
    pub fn place_block(&mut self, index: usize, value: u32)
        requires
            old(self).inv(),
            index < 16,
        ensures
            final(self).inv(),
            final(self).score_spec() == old(self).score_spec(),
            final(self).moves_spec() == old(self).moves_spec(),
            final(self).lost_spec() == old(self).lost_spec(),
            old(self).cells_spec()[index as int] == 0 ==> final(self).cells_spec() == old(
                self,
            ).cells_spec().update(index as int, value),
            if exists|j: int| 0 <= j < 16 && old(self).cells_spec()[j] == 0 {
                exists|j: int|
                    0 <= j < 16 && old(self).cells_spec()[j] == 0 && final(self).cells_spec()
                        == old(self).cells_spec().update(j, value)
            } else {
                final(self).cells_spec() == old(self).cells_spec()
            },
    {
        if self.board[index] == 0 {
            self.board[index] = value;
            proof {
                assert(self.cells_spec() =~= old(self).cells_spec().update(index as int, value));
            }
            return ;
        }
        let mut cur = index;
        let mut steps: usize = 0;
        let mut found = false;
        while steps < 15 && !found
            invariant
                self.inv(),
                *self == *old(self),
                index < 16,
                self.cells_spec()[index as int] != 0,
                cur < 16,
                steps <= 15,
                !found ==> cur as int == (if index + steps < 16 {
                    index + steps
                } else {
                    index + steps - 16
                }),
                !found ==> forall|j: int|
                    index < j < 16 && j <= index + steps ==> #[trigger] self.cells_spec()[j] != 0,
                !found ==> forall|j: int|
                    0 <= j <= index + steps - 16 ==> #[trigger] self.cells_spec()[j] != 0,
                found ==> self.cells_spec()[cur as int] == 0,
            decreases 15 - steps,
        {
            cur = if cur == 15 {
                0
            } else {
                cur + 1
            };
            if self.board[cur] == 0 {
                found = true;
            }
            steps += 1;
        }
        if found {
            let ghost j = cur as int;
            self.board[cur] = value;
            proof {
                assert(self.cells_spec() =~= old(self).cells_spec().update(j, value));
            }
        } else {
            proof {
                assert forall|j: int| 0 <= j < 16 implies #[trigger] self.cells_spec()[j] != 0 by {
                    if j != index as int && j > index as int {
                        assert(index < j < 16 && j <= index + 15);
                    } else if j != index as int {
                        assert(0 <= j <= index + 15 - 16);
                    }
                }
            }
        }
    }

    /// Spawn one tile on a random empty cell: a two in nine cases of ten,
    /// else a four. Exactly one tile appears whenever an empty cell
    /// exists; only a full board is left as it is.
    fn generate_block(&mut self)
        requires
            old(self).inv(),
        ensures
            final(self).inv(),
            final(self).score_spec() == old(self).score_spec(),
            final(self).moves_spec() == old(self).moves_spec(),
            final(self).lost_spec() == old(self).lost_spec(),
            if exists|j: int| 0 <= j < 16 && old(self).cells_spec()[j] == 0 {
                exists|j: int|
                    0 <= j < 16 && old(self).cells_spec()[j] == 0 && (final(self).cells_spec()
                        == old(self).cells_spec().update(j, 2u32) || final(self).cells_spec()
                        == old(self).cells_spec().update(j, 4u32))
            } else {
                final(self).cells_spec() == old(self).cells_spec()
            },
    {
        let index = random_below(16);
        let random = random_below(10);
        if random == 4 {
            self.place_block(index, 4);
        } else {
            self.place_block(index, 2);
        }
    }

    /// How one `move_pieces` call relates the board before it to the
    /// board after it: a move that changes nothing leaves everything as
    /// it was; any other move slides and merges every lane, awards the
    /// merge gain, counts the move, spawns exactly one two or four on an
    /// empty cell of the slid board whenever one exists, and records
    /// whether the board is now stuck.
    pub open spec fn move_step(pre: Board, post: Board, direction: Directions) -> bool {
        if pre.slide_is_noop(direction) {
            &&& post.cells_spec() == pre.cells_spec()
            &&& post.score_spec() == pre.score_spec()
            &&& post.moves_spec() == pre.moves_spec()
            &&& post.lost_spec() == pre.lost_spec()
        } else {
            &&& post.score_spec() == pre.score_spec() + pre.move_gain(direction)
            &&& post.moves_spec() == pre.moves_spec() + 1
            &&& post.lost_spec() == post.stuck_spec()
            &&& if exists|j: int| 0 <= j < 16 && pre.slid_cells(direction)[j] == 0 {
                exists|j: int|
                    0 <= j < 16 && pre.slid_cells(direction)[j] == 0 && (int_values(
                        post.cells_spec(),
                    ) == pre.slid_cells(direction).update(j, 2) || int_values(post.cells_spec())
                        == pre.slid_cells(direction).update(j, 4))
            } else {
                int_values(post.cells_spec()) == pre.slid_cells(direction)
            }
        }
    }

    /// Slide every tile toward `direction`. If anything moved or merged,
    /// count the move, spawn one random tile on an empty cell, and record
    /// whether the board is now stuck.
    ///
    /// Each merge of two equal tiles of value `v` leaves one tile of
    /// value `2v` and adds `2v` to the score; a tile merges at most once
    /// per move.
    pub fn move_pieces(&mut self, direction: &Directions)
        requires
            old(self).inv(),
            old(self).headroom_spec(),
        ensures
            final(self).inv(),
            Board::move_step(*old(self), *final(self), *direction),
    {
        let moved = self.move_dir(direction);
        if moved {
            self.number_of_moves += 1;
            let ghost mid = *self;
            self.generate_block();
            proof {
                if exists|j: int| 0 <= j < 16 && old(self).slid_cells(*direction)[j] == 0 {
                    let j0 = choose|j: int|
                        0 <= j < 16 && old(self).slid_cells(*direction)[j] == 0;
                    assert(mid.cells_spec()[j0] as int == int_values(mid.cells_spec())[j0]);
                    assert(mid.cells_spec()[j0] == 0);
                    let j = choose|j: int|
                        0 <= j < 16 && mid.cells_spec()[j] == 0 && (self.cells_spec()
                            == mid.cells_spec().update(j, 2u32) || self.cells_spec()
                            == mid.cells_spec().update(j, 4u32));
                    assert(old(self).slid_cells(*direction)[j] == mid.cells_spec()[j] as int);
                    if self.cells_spec() == mid.cells_spec().update(j, 2u32) {
                        assert(int_values(self.cells_spec()) =~= old(self).slid_cells(
                            *direction,
                        ).update(j, 2));
                    } else {
                        assert(int_values(self.cells_spec()) =~= old(self).slid_cells(
                            *direction,
                        ).update(j, 4));
                    }
                } else {
                    if exists|j: int| 0 <= j < 16 && mid.cells_spec()[j] == 0 {
                        let j = choose|j: int| 0 <= j < 16 && mid.cells_spec()[j] == 0;
                        assert(old(self).slid_cells(*direction)[j] == mid.cells_spec()[j] as int);
                        assert(false);
                    }
                    assert(self.cells_spec() == mid.cells_spec());
                    assert(int_values(self.cells_spec()) == old(self).slid_cells(*direction));
                }
            }
            let stuck = self.cannot_move();
            let ghost pre_lost = *self;
            self.lost = stuck;
            proof {
                assert(self.cells_spec() == pre_lost.cells_spec());
                assert(pre_lost.stuck_spec() ==> self.stuck_spec()) by {
                    if pre_lost.stuck_spec() {
                        assert forall|l: int, c: int|
                            0 <= l < 4 && 0 <= c < 4 implies #[trigger] self.cell(l, c) != 0 by {
                            assert(self.cell(l, c) == pre_lost.cell(l, c));
                        }
                        assert forall|l: int, c: int|
                            0 <= l < 4 && 0 <= c < 3 implies #[trigger] self.cell(l, c)
                            != self.cell(l, c + 1) by {
                            assert(self.cell(l, c) == pre_lost.cell(l, c));
                            assert(self.cell(l, c + 1) == pre_lost.cell(l, c + 1));
                        }
                        assert forall|l: int, c: int|
                            0 <= l < 3 && 0 <= c < 4 implies #[trigger] self.cell(l, c)
                            != self.cell(l + 1, c) by {
                            assert(self.cell(l, c) == pre_lost.cell(l, c));
                            assert(self.cell(l + 1, c) == pre_lost.cell(l + 1, c));
                        }
                    }
                }
                assert(self.stuck_spec() ==> pre_lost.stuck_spec()) by {
                    if self.stuck_spec() {
                        assert forall|l: int, c: int|
                            0 <= l < 4 && 0 <= c < 4 implies #[trigger] pre_lost.cell(l, c)
                            != 0 by {
                            assert(self.cell(l, c) == pre_lost.cell(l, c));
                        }
                        assert forall|l: int, c: int|
                            0 <= l < 4 && 0 <= c < 3 implies #[trigger] pre_lost.cell(l, c)
                            != pre_lost.cell(l, c + 1) by {
                            assert(self.cell(l, c) == pre_lost.cell(l, c));
                            assert(self.cell(l, c + 1) == pre_lost.cell(l, c + 1));
                        }
                        assert forall|l: int, c: int|
                            0 <= l < 3 && 0 <= c < 4 implies #[trigger] pre_lost.cell(l, c)
                            != pre_lost.cell(l + 1, c) by {
                            assert(self.cell(l, c) == pre_lost.cell(l, c));
                            assert(self.cell(l + 1, c) == pre_lost.cell(l + 1, c));
                        }
                    }
                }
            }
        } else {
            proof {
                assert forall|n: int|
                    0 <= n < 16 implies #[trigger] self.cells_spec()[n] == old(
                    self,
                ).cells_spec()[n] by {
                    assert(int_values(self.cells_spec())[n] == old(self).slid_cells(*direction)[n]);
                    let l = n / 4;
                    let c = n % 4;
                    match *direction {
                        Directions::Left => {
                            assert(old(self).lane_seq(*direction, l) == slide_spec(
                                old(self).lane_seq(*direction, l),
                                4,
                            ));
                            assert(old(self).lane_seq(*direction, l)[c] == old(self).cell(l, c));
                        },
                        Directions::Right => {
                            assert(old(self).lane_seq(*direction, l) == slide_spec(
                                old(self).lane_seq(*direction, l),
                                4,
                            ));
                            assert(old(self).lane_seq(*direction, l)[3 - c] == old(self).cell(
                                l,
                                c,
                            ));
                        },
                        Directions::Up => {
                            assert(old(self).lane_seq(*direction, c) == slide_spec(
                                old(self).lane_seq(*direction, c),
                                4,
                            ));
                            assert(old(self).lane_seq(*direction, c)[l] == old(self).cell(l, c));
                        },
                        Directions::Down => {
                            assert(old(self).lane_seq(*direction, c) == slide_spec(
                                old(self).lane_seq(*direction, c),
                                4,
                            ));
                            assert(old(self).lane_seq(*direction, c)[3 - l] == old(self).cell(
                                l,
                                c,
                            ));
                        },
                    }
                }
                assert(self.cells_spec() =~= old(self).cells_spec());
                assert(old(self).move_gain(*direction) == 0) by {
                    assert forall|k: int|
                        0 <= k < 4 implies merge_score(
                        nonzero(old(self).lane_seq(*direction, k)),
                    ) == 0 by {
                        let s = old(self).lane_seq(*direction, k);
                        assert(forall|i: int| 0 <= i < s.len() ==> #[trigger] s[i] >= 0);
                        assert(s.len() == 4);
                        lemma_noop_lane_gain(s);
                    }
                }
            }
        }
    }
}

/// Dropping empty cells keeps every tile, so the survivors of a line of
/// nonnegative values are positive.
proof fn lemma_nonzero_pos(s: Seq<int>)
    requires
        forall|i: int| 0 <= i < s.len() ==> #[trigger] s[i] >= 0,
    ensures
        nonzero(s).len() <= s.len(),
        forall|i: int| 0 <= i < nonzero(s).len() ==> #[trigger] nonzero(s)[i] > 0,
    decreases s.len(),
{
    if s.len() > 0 {
        lemma_nonzero_pos(s.skip(1));
    }
}

/// A merge pass keeps positive tiles positive; it keeps the line's length
/// only when it merges nothing, and then it awards nothing.
proof fn lemma_merged_len(s: Seq<int>)
    requires
        forall|i: int| 0 <= i < s.len() ==> #[trigger] s[i] > 0,
    ensures
        merged_line(s).len() <= s.len(),
        forall|i: int| 0 <= i < merged_line(s).len() ==> #[trigger] merged_line(s)[i] > 0,
        merged_line(s).len() == s.len() ==> merge_score(s) == 0,
    decreases s.len(),
{
    if s.len() <= 1 {
    } else if s[0] == s[1] {
        lemma_merged_len(s.skip(2));
    } else {
        lemma_merged_len(s.skip(1));
    }
}

/// Appending empty cells to a line of positive tiles and dropping the
/// empty cells again gives the line back.
proof fn lemma_nonzero_of_padded(t: Seq<int>, m: nat)
    requires
        forall|i: int| 0 <= i < t.len() ==> #[trigger] t[i] > 0,
    ensures
        nonzero(t + zeros(m)) == t,
    decreases t.len(), m,
{
    let s = t + zeros(m);
    if t.len() == 0 {
        if m == 0 {
            assert(s =~= Seq::<int>::empty());
            assert(nonzero(s) =~= t);
        } else {
            assert(s[0] == 0);
            assert(s.skip(1) =~= Seq::<int>::empty() + zeros((m - 1) as nat));
            lemma_nonzero_of_padded(Seq::<int>::empty(), (m - 1) as nat);
            assert(nonzero(s) =~= t);
        }
    } else {
        assert(s[0] == t[0]);
        assert(s[0] != 0);
        assert(s.skip(1) =~= t.skip(1) + zeros(m));
        lemma_nonzero_of_padded(t.skip(1), m);
        assert(nonzero(s) == seq![t[0]] + nonzero(t.skip(1) + zeros(m)));
        assert(seq![t[0]] + t.skip(1) =~= t);
    }
}

/// A lane of nonnegative values that its own slide leaves unchanged
/// awards no score: nothing merged.
proof fn lemma_noop_lane_gain(s: Seq<int>)
    requires
        forall|i: int| 0 <= i < s.len() ==> #[trigger] s[i] >= 0,
        s == slide_spec(s, s.len() as nat),
    ensures
        merge_score(nonzero(s)) == 0,
{
    lemma_nonzero_pos(s);
    let t = nonzero(s);
    lemma_merged_len(t);
    let m = merged_line(t);
    lemma_nonzero_of_padded(m, (s.len() - m.len()) as nat);
    assert(nonzero(s) == nonzero(m + zeros((s.len() - m.len()) as nat)));
    assert(t == m);
    assert(merged_line(t).len() == t.len());
}

} // verus!
