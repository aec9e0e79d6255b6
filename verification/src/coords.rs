//! Axial coordinates on a hexagonal lattice and the six adjacency
//! directions.
//!
//! A cell is addressed by a pair `(q, r)`; the implicit third cube
//! coordinate is `s = -q - r`, so `q + r + s == 0` always holds for the
//! derived triple. Arithmetic is component-wise.

use vstd::prelude::*;

verus! {

/// A discrete axial coordinate: one cell of the hexagonal lattice.
#[derive(Clone, Copy, Debug, PartialEq, Eq, Structural)]
pub struct Axial {
    pub q: i32,
    pub r: i32,
}

impl Axial {
    /// The derived cube coordinate `s`, which completes `q + r + s == 0`.
    pub open spec fn s_spec(self) -> int {
        -self.q - self.r
    }

    pub fn new(q: i32, r: i32) -> (a: Axial)
        ensures
            a.q == q,
            a.r == r,
    {
        Axial { q, r }
    }

    /// The derived cube coordinate `s`, widened so it cannot overflow.
    pub fn s(self) -> (s: i64)
        ensures
            s == self.s_spec(),
    {
        -(self.q as i64) - (self.r as i64)
    }

    /// Component-wise sum.
    pub fn plus(self, rhs: Axial) -> (a: Axial)
        requires
            i32::MIN <= self.q + rhs.q <= i32::MAX,
            i32::MIN <= self.r + rhs.r <= i32::MAX,
        ensures
            a.q == self.q + rhs.q,
            a.r == self.r + rhs.r,
    {
        Axial { q: self.q + rhs.q, r: self.r + rhs.r }
    }

    /// Component-wise difference.
    pub fn minus(self, rhs: Axial) -> (a: Axial)
        requires
            i32::MIN <= self.q - rhs.q <= i32::MAX,
            i32::MIN <= self.r - rhs.r <= i32::MAX,
        ensures
            a.q == self.q - rhs.q,
            a.r == self.r - rhs.r,
    {
        Axial { q: self.q - rhs.q, r: self.r - rhs.r }
    }

    /// Component-wise negation.
    pub fn negate(self) -> (a: Axial)
        requires
            self.q > i32::MIN,
            self.r > i32::MIN,
        ensures
            a.q == -self.q,
            a.r == -self.r,
    {
        Axial { q: -self.q, r: -self.r }
    }

    /// Component-wise scaling by an integer factor.
    pub fn scale(self, k: i32) -> (a: Axial)
        requires
            i32::MIN <= self.q * k <= i32::MAX,
            i32::MIN <= self.r * k <= i32::MAX,
        ensures
            a.q == self.q * k,
            a.r == self.r * k,
    {
        Axial { q: self.q * k, r: self.r * k }
    }

    /// The adjacent cell in the given direction.
    pub fn neighbor(self, dir: Direction) -> (a: Axial)
        requires
            i32::MIN <= self.q + dir.offset_q() <= i32::MAX,
            i32::MIN <= self.r + dir.offset_r() <= i32::MAX,
        ensures
            a.q == self.q + dir.offset_q(),
            a.r == self.r + dir.offset_r(),
    {
        self.plus(dir.as_axial())
    }
}

/// The six adjacency directions of a hexagonal cell, at 60-degree
/// Cartesian angle increments starting from East at 0 degrees and going
/// counter-clockwise.
#[derive(Clone, Copy, Debug, PartialEq, Eq, Structural)]
pub enum Direction {
    East,
    NorthEast,
    NorthWest,
    West,
    SouthWest,
    SouthEast,
}

impl Direction {
    /// The `q` component of this direction's unit adjacency offset.
    ///
    /// Under the Cartesian transform (`x = half_tile_width * (2q + r)`,
    /// `y = row_step * r`) the `q` axis points due east, so East is
    /// `(1, 0)` and the other offsets follow at 60-degree steps
    /// counter-clockwise.
    pub open spec fn offset_q(self) -> int {
        match self {
            Direction::East => 1,
            Direction::NorthEast => 0,
            Direction::NorthWest => -1,
            Direction::West => -1,
            Direction::SouthWest => 0,
            Direction::SouthEast => 1,
        }
    }

    /// The `r` component of this direction's unit adjacency offset.
    pub open spec fn offset_r(self) -> int {
        match self {
            Direction::East => 0,
            Direction::NorthEast => 1,
            Direction::NorthWest => 1,
            Direction::West => 0,
            Direction::SouthWest => -1,
            Direction::SouthEast => -1,
        }
    }

    /// This direction's unit adjacency offset as an axial coordinate.
    pub fn as_axial(self) -> (a: Axial)
        ensures
            a.q == self.offset_q(),
            a.r == self.offset_r(),
    {
        match self {
            Direction::East => Axial { q: 1, r: 0 },
            Direction::NorthEast => Axial { q: 0, r: 1 },
            Direction::NorthWest => Axial { q: -1, r: 1 },
            Direction::West => Axial { q: -1, r: 0 },
            Direction::SouthWest => Axial { q: 0, r: -1 },
            Direction::SouthEast => Axial { q: 1, r: -1 },
        }
    }

    /// The direction `opposite` returns, as a spec-level function.
    pub open spec fn opposite_spec(self) -> Direction {
        match self {
            Direction::East => Direction::West,
            Direction::NorthEast => Direction::SouthWest,
            Direction::NorthWest => Direction::SouthEast,
            Direction::West => Direction::East,
            Direction::SouthWest => Direction::NorthEast,
            Direction::SouthEast => Direction::NorthWest,
        }
    }

    /// The direction whose adjacency offset is the negation of this one's.
    pub fn opposite(self) -> (d: Direction)
        ensures
            d == self.opposite_spec(),
            d.offset_q() == -self.offset_q(),
            d.offset_r() == -self.offset_r(),
    {
        match self {
            Direction::East => Direction::West,
            Direction::NorthEast => Direction::SouthWest,
            Direction::NorthWest => Direction::SouthEast,
            Direction::West => Direction::East,
            Direction::SouthWest => Direction::NorthEast,
            Direction::SouthEast => Direction::NorthWest,
        }
    }

    /// The Cartesian angle of this direction, as the multiple `k` of 60
    /// degrees (pi/3 radians) with East at `k == 0`, increasing
    /// counter-clockwise.
    pub fn as_angle_sixths(self) -> (k: u32)
        ensures
            k == match self {
                Direction::East => 0int,
                Direction::NorthEast => 1int,
                Direction::NorthWest => 2int,
                Direction::West => 3int,
                Direction::SouthWest => 4int,
                Direction::SouthEast => 5int,
            },
            k < 6,
    {
        match self {
            Direction::East => 0,
            Direction::NorthEast => 1,
            Direction::NorthWest => 2,
            Direction::West => 3,
            Direction::SouthWest => 4,
            Direction::SouthEast => 5,
        }
    }

    /// The reflection of this direction across the vertical axis.
    pub fn invert_x(self) -> (d: Direction)
        ensures
            d == self.invert_x_spec(),
    {
        match self {
            Direction::East => Direction::West,
            Direction::NorthEast => Direction::NorthWest,
            Direction::NorthWest => Direction::NorthEast,
            Direction::West => Direction::East,
            Direction::SouthWest => Direction::SouthEast,
            Direction::SouthEast => Direction::SouthWest,
        }
    }

    pub open spec fn invert_x_spec(self) -> Direction {
        match self {
            Direction::East => Direction::West,
            Direction::NorthEast => Direction::NorthWest,
            Direction::NorthWest => Direction::NorthEast,
            Direction::West => Direction::East,
            Direction::SouthWest => Direction::SouthEast,
            Direction::SouthEast => Direction::SouthWest,
        }
    }

    /// The reflection of this direction across the horizontal axis.
    pub fn invert_y(self) -> (d: Direction)
        ensures
            d == self.invert_y_spec(),
    {
        match self {
            Direction::East => Direction::East,
            Direction::NorthEast => Direction::SouthEast,
            Direction::NorthWest => Direction::SouthWest,
            Direction::West => Direction::West,
            Direction::SouthWest => Direction::NorthWest,
            Direction::SouthEast => Direction::NorthEast,
        }
    }

    pub open spec fn invert_y_spec(self) -> Direction {
        match self {
            Direction::East => Direction::East,
            Direction::NorthEast => Direction::SouthEast,
            Direction::NorthWest => Direction::SouthWest,
            Direction::West => Direction::West,
            Direction::SouthWest => Direction::NorthWest,
            Direction::SouthEast => Direction::NorthEast,
        }
    }
}

/// Walking one step in a direction and one step in the opposite direction
/// returns to the start: the adjacency offsets cancel exactly.
pub proof fn lemma_neighbor_opposite_cancels(q: int, r: int, d: Direction)
    ensures
        q + d.offset_q() + d.opposite_spec().offset_q() == q,
        r + d.offset_r() + d.opposite_spec().offset_r() == r,
{
}

/// Reflecting a direction across the vertical axis twice is the identity.
pub proof fn lemma_invert_x_involution(d: Direction)
    ensures
        d.invert_x_spec().invert_x_spec() == d,
{
}

/// Reflecting a direction across the horizontal axis twice is the identity.
pub proof fn lemma_invert_y_involution(d: Direction)
    ensures
        d.invert_y_spec().invert_y_spec() == d,
{
}

/// The six adjacency offsets are pairwise distinct.
pub proof fn lemma_offsets_distinct(d1: Direction, d2: Direction)
    ensures
        d1 != d2 ==> (d1.offset_q(), d1.offset_r()) != (d2.offset_q(), d2.offset_r()),
{
}

} // verus!
