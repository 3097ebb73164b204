use vstd::prelude::*;

use crate::geometry::vector::{lemma_signed, Vector, COORD_LIMIT, UNIT};

verus! {

/// One of the four cardinal headings. The vertical axis grows downwards,
/// so `UP` decreases `y`.
#[derive(Clone, Copy, Debug, PartialEq, Eq, Structural)]
pub enum Direction {
    UP,
    DOWN,
    RIGHT,
    LEFT,
}

impl Direction {
    /// The sign of the heading along the horizontal axis.
    pub open spec fn dx(self) -> int {
        match self {
            Direction::RIGHT => 1,
            Direction::LEFT => -1,
            _ => 0,
        }
    }

    /// The sign of the heading along the vertical axis.
    pub open spec fn dy(self) -> int {
        match self {
            Direction::DOWN => 1,
            Direction::UP => -1,
            _ => 0,
        }
    }

    pub open spec fn is_horizontal(self) -> bool {
        self == Direction::RIGHT || self == Direction::LEFT
    }

    /// The point `distance` length units ahead of `p` along this heading.
    pub open spec fn ahead(self, p: Vector, distance: int) -> (int, int) {
        (p.x + self.dx() * distance, p.y + self.dy() * distance)
    }

    pub open spec fn opposite_spec(self) -> Direction {
        match self {
            Direction::UP => Direction::DOWN,
            Direction::DOWN => Direction::UP,
            Direction::RIGHT => Direction::LEFT,
            Direction::LEFT => Direction::RIGHT,
        }
    }

    pub fn opposite(&self) -> (r: Direction)
        ensures
            r == self.opposite_spec(),
    {
        match *self {
            Direction::UP => Direction::DOWN,
            Direction::DOWN => Direction::UP,
            Direction::RIGHT => Direction::LEFT,
            Direction::LEFT => Direction::RIGHT,
        }
    }

    /// The heading as a vector of length `UNIT`.
    pub fn as_vector(&self) -> (r: Vector)
        ensures
            r.x == self.dx() * UNIT,
            r.y == self.dy() * UNIT,
    {
        self.offset(UNIT)
    }

    /// The displacement of `distance` length units along this heading.
    pub fn offset(&self, distance: i64) -> (r: Vector)
        requires
            0 <= distance <= COORD_LIMIT,
        ensures
            r.x == self.dx() * distance,
            r.y == self.dy() * distance,
    {
        proof {
            lemma_signed(self.dx(), distance as int);
            lemma_signed(self.dy(), distance as int);
        }
        match *self {
            Direction::UP => Vector { x: 0, y: -distance },
            Direction::DOWN => Vector { x: 0, y: distance },
            Direction::RIGHT => Vector { x: distance, y: 0 },
            Direction::LEFT => Vector { x: -distance, y: 0 },
        }
    }
}

} // verus!
