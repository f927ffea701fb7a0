//! The seven tetris pieces: a four by four occupancy template, a color, a
//! rotation index, and how many distinct rotations the piece has. A piece
//! is read through its current rotation; rotating is a permutation of the
//! template, so a piece always occupies some cell.

use vstd::prelude::*;

use crate::rng::random_below;
use crate::tetris_gm::board::BoardPossibilities;

verus! {

pub const NUMBER_OF_BRICKS: usize = 7;

pub struct Brick {
    coord: Vec<bool>,
    color: BoardPossibilities,
    rotation: i8,
    number_of_rotations: i8,
}

/// How many of the first `n` template cells are occupied.
pub open spec fn occ_count(coord: Seq<bool>, n: int) -> int
    decreases n,
{
    if n <= 0 {
        0
    } else {
        occ_count(coord, n - 1) + (if coord[n - 1] {
            1int
        } else {
            0int
        })
    }
}

/// The template index a given rotation reads for a cell of the frame.
pub open spec fn tmpl_index(rot: int, line: int, column: int) -> int {
    if rot == 0 {
        line * 4 + column
    } else if rot == 1 {
        12 + line - column * 4
    } else if rot == 2 {
        15 - line * 4 - column
    } else {
        3 - line + column * 4
    }
}

/// Whether a template, read under the given rotation, occupies a cell of
/// the frame.
pub open spec fn occupied_rot(coord: Seq<bool>, rot: int, line: int, column: int) -> bool {
    coord[tmpl_index(rot, line, column)]
}

impl Brick {
    pub closed spec fn coord_spec(self) -> Seq<bool> {
        self.coord@
    }

    pub closed spec fn color_spec(self) -> BoardPossibilities {
        self.color
    }

    pub closed spec fn rotation_spec(self) -> i8 {
        self.rotation
    }

    pub closed spec fn rotations_spec(self) -> i8 {
        self.number_of_rotations
    }

    /// The template index the current rotation reads for a cell.
    pub open spec fn template_index(self, line: int, column: int) -> int {
        tmpl_index(self.rotation_spec() as int, line, column)
    }

    /// Whether the piece, under its current rotation, occupies the given
    /// cell of its four by four frame.
    pub open spec fn occupied_at(self, line: int, column: int) -> bool {
        occupied_rot(self.coord_spec(), self.rotation_spec() as int, line, column)
    }

    /// Well-formedness: a sixteen-cell template, a rotation index within
    /// the piece's own rotation count, and exactly four occupied template
    /// cells; every rotation reads the template through a permutation, so
    /// the piece occupies exactly four cells of its frame too.
    pub open spec fn inv(self) -> bool {
        &&& self.coord_spec().len() == 16
        &&& 0 <= self.rotation_spec() < self.rotations_spec()
        &&& (self.rotations_spec() == 1 || self.rotations_spec() == 2 || self.rotations_spec()
            == 4)
        &&& occ_count(self.coord_spec(), 16) == 4
        &&& exists|i: int| 0 <= i < 16 && self.coord_spec()[i]
    }

    /// A piece always occupies some cell of its frame, under every
    /// rotation: each rotation reads the template through a permutation.
    pub proof fn lemma_occupied_exists(self)
        requires
            self.inv(),
        ensures
            exists|line: int, column: int|
                0 <= line < 4 && 0 <= column < 4 && self.occupied_at(line, column),
    {
        let i = choose|i: int| 0 <= i < 16 && self.coord_spec()[i];
        if self.rotation_spec() == 0 {
            let l = i / 4;
            let c = i % 4;
            assert(self.template_index(l, c) == i);
            assert(self.occupied_at(l, c));
        } else if self.rotation_spec() == 1 {
            let l = i % 4;
            let c = 3 - i / 4;
            assert(self.template_index(l, c) == i);
            assert(self.occupied_at(l, c));
        } else if self.rotation_spec() == 2 {
            let l = 3 - i / 4;
            let c = 3 - i % 4;
            assert(self.template_index(l, c) == i);
            assert(self.occupied_at(l, c));
        } else {
            let l = 3 - i % 4;
            let c = i / 4;
            assert(self.template_index(l, c) == i);
            assert(self.occupied_at(l, c));
        }
    }

    /// The occupancy template of one of the seven pieces, as drawn in its
    /// base rotation.
    pub open spec fn shape_spec(kind: int) -> Seq<bool> {
        if kind == 0 {
            seq![
                false, false, false, false,
                true, true, true, true,
                false, false, false, false,
                false, false, false, false,
            ]
        } else if kind == 1 {
            seq![
                false, true, false, false,
                false, true, true, true,
                false, false, false, false,
                false, false, false, false,
            ]
        } else if kind == 2 {
            seq![
                false, false, false, true,
                false, true, true, true,
                false, false, false, false,
                false, false, false, false,
            ]
        } else if kind == 3 {
            seq![
                false, true, true, false,
                false, true, true, false,
                false, false, false, false,
                false, false, false, false,
            ]
        } else if kind == 4 {
            seq![
                false, false, true, true,
                false, true, true, false,
                false, false, false, false,
                false, false, false, false,
            ]
        } else if kind == 5 {
            seq![
                false, false, true, false,
                false, true, true, true,
                false, false, false, false,
                false, false, false, false,
            ]
        } else {
            seq![
                false, true, true, false,
                false, false, true, true,
                false, false, false, false,
                false, false, false, false,
            ]
        }
    }

    /// Build the piece of the given kind in its base rotation.
    pub fn from_kind(kind: usize) -> (r: Brick)
        requires
            kind < 7,
        ensures
            r.inv(),
            r.rotation_spec() == 0,
            r.coord_spec() == Brick::shape_spec(kind as int),
    {
        let shape: Vec<bool> = match kind {
            0 => Brick::build_shape(false, false, false, false, true, true, true, true),
            1 => Brick::build_shape(false, true, false, false, false, true, true, true),
            2 => Brick::build_shape(false, false, false, true, false, true, true, true),
            3 => Brick::build_shape(false, true, true, false, false, true, true, false),
            4 => Brick::build_shape(false, false, true, true, false, true, true, false),
            5 => Brick::build_shape(false, false, true, false, false, true, true, true),
            _ => Brick::build_shape(false, true, true, false, false, false, true, true),
        };
        let color = match kind {
            0 => BoardPossibilities::Cyan,
            1 => BoardPossibilities::Blue,
            2 => BoardPossibilities::Orange,
            3 => BoardPossibilities::Yellow,
            4 => BoardPossibilities::Green,
            5 => BoardPossibilities::Pink,
            _ => BoardPossibilities::Red,
        };
        let number_of_rotations: i8 = match kind {
            0 => 2,
            3 => 1,
            _ => 4,
        };
        let r = Brick { coord: shape, color, rotation: 0, number_of_rotations };
        proof {
            assert(r.coord_spec() =~= Brick::shape_spec(kind as int));
            assert(r.coord_spec()[6]);
            reveal_with_fuel(occ_count, 17);
            assert(occ_count(r.coord_spec(), 16) == 4);
        }
        r
    }

    /// The two template rows a piece draws in, followed by eight empty
    /// cells.
    #[verifier::rlimit(50)]
    fn build_shape(
        a0: bool,
        a1: bool,
        a2: bool,
        a3: bool,
        b0: bool,
        b1: bool,
        b2: bool,
        b3: bool,
    ) -> (r: Vec<bool>)
        ensures
            r@ =~= seq![
                a0, a1, a2, a3,
                b0, b1, b2, b3,
                false, false, false, false,
                false, false, false, false,
            ],
    {
        let mut shape: Vec<bool> = Vec::new();
        shape.push(a0);
        shape.push(a1);
        shape.push(a2);
        shape.push(a3);
        shape.push(b0);
        shape.push(b1);
        shape.push(b2);
        shape.push(b3);
        shape.push(false);
        shape.push(false);
        shape.push(false);
        shape.push(false);
        shape.push(false);
        shape.push(false);
        shape.push(false);
        shape.push(false);
        shape
    }

    /// Draw one of the seven pieces at random.
    pub fn new() -> (r: Brick)
        ensures
            r.inv(),
            r.rotation_spec() == 0,
    {
        let kind = random_below(NUMBER_OF_BRICKS);
        Brick::from_kind(kind)
    }

    /// An exact copy of the piece.
    pub fn duplicate(&self) -> (r: Brick)
        ensures
            r.coord_spec() == self.coord_spec(),
            r.color_spec() == self.color_spec(),
            r.rotation_spec() == self.rotation_spec(),
            r.rotations_spec() == self.rotations_spec(),
    {
        let mut coord: Vec<bool> = Vec::new();
        let mut i: usize = 0;
        while i < self.coord.len()
            invariant
                i <= self.coord@.len(),
                coord@ =~= self.coord@.take(i as int),
            decreases self.coord@.len() - i,
        {
            coord.push(self.coord[i]);
            i += 1;
        }
        proof {
            assert(coord@ =~= self.coord@);
        }
        Brick {
            coord,
            color: self.color,
            rotation: self.rotation,
            number_of_rotations: self.number_of_rotations,
        }
    }

    /// Advance to the next rotation, wrapping at the piece's own rotation
    /// count.
    pub fn rotate(&mut self)
        requires
            old(self).inv(),
        ensures
            final(self).inv(),
            final(self).coord_spec() == old(self).coord_spec(),
            final(self).color_spec() == old(self).color_spec(),
            final(self).rotations_spec() == old(self).rotations_spec(),
            final(self).rotation_spec() as int == (old(self).rotation_spec() + 1) % (old(
                self,
            ).rotations_spec() as int),
    {
        let next = (self.rotation as u32 + 1) % (self.number_of_rotations as u32);
        self.rotation = next as i8;
        proof {
            let i = choose|i: int| 0 <= i < 16 && old(self).coord_spec()[i];
            assert(0 <= i < 16 && self.coord_spec()[i]);
        }
    }

    /// Step back one rotation, wrapping at the piece's own rotation
    /// count, as the board does when a rotation did not fit: undoing a
    /// `rotate` lands on exactly the index the piece had before it.
    pub fn unrotate(&mut self)
        requires
            old(self).inv(),
        ensures
            final(self).inv(),
            final(self).coord_spec() == old(self).coord_spec(),
            final(self).color_spec() == old(self).color_spec(),
            final(self).rotations_spec() == old(self).rotations_spec(),
            final(self).rotation_spec() == (if old(self).rotation_spec() == 0 {
                old(self).rotations_spec() - 1
            } else {
                old(self).rotation_spec() - 1
            }),
    {
        if self.rotation == 0 {
            self.rotation = self.number_of_rotations - 1;
        } else {
            self.rotation -= 1;
        }
        proof {
            let i = choose|i: int| 0 <= i < 16 && old(self).coord_spec()[i];
            assert(0 <= i < 16 && self.coord_spec()[i]);
        }
    }

    /// Whether the piece occupies the given cell of its frame under its
    /// current rotation.
    pub fn consult(&self, line: usize, column: usize) -> (r: bool)
        requires
            self.inv(),
            line < 4,
            column < 4,
        ensures
            r == self.occupied_at(line as int, column as int),
    {
        if self.rotation == 0 {
            self.coord[line * 4 + column]
        } else if self.rotation == 1 {
            self.coord[(12 + line) - column * 4]
        } else if self.rotation == 2 {
            self.coord[(15 - line * 4) - column]
        } else {
            self.coord[(3 - line) + column * 4]
        }
    }

    pub fn consult_color(&self) -> (r: &BoardPossibilities)
        ensures
            *r == self.color_spec(),
    {
        &self.color
    }
}

} // verus!
