use vstd::prelude::*;

use crate::geometry::vector::{abs, sign, Vector, COORD_LIMIT, UNIT};

verus! {

/// A directed segment from `begin` to `end`.
#[derive(Clone, Copy, Debug, PartialEq, Eq, Structural)]
pub struct LineSegment {
    pub begin: Vector,
    pub end: Vector,
}

/// `p` lies on the closed segment from `b` to `e`: it is collinear with
/// them and between them.
pub open spec fn on_segment(b: Vector, e: Vector, p: Vector) -> bool {
    &&& (e.x - b.x) * (p.y - b.y) == (e.y - b.y) * (p.x - b.x)
    &&& (p.x - b.x) * (e.x - p.x) + (p.y - b.y) * (e.y - p.y) >= 0
}

/// Consecutive points of `points` joined into segments.
pub open spec fn segments_of(points: Seq<Vector>) -> Seq<LineSegment> {
    Seq::new(
        if points.len() == 0 { 0 } else { (points.len() - 1) as nat },
        |i: int| LineSegment { begin: points[i], end: points[i + 1] },
    )
}

impl LineSegment {
    pub open spec fn in_range(self) -> bool {
        self.begin.in_range() && self.end.in_range()
    }

    pub fn new(begin: Vector, end: Vector) -> (r: LineSegment)
        ensures
            r.begin == begin && r.end == end,
    {
        LineSegment { begin, end }
    }

    /// The displacement from `begin` to `end`.
    pub fn as_vector(&self) -> (r: Vector)
        requires
            self.in_range(),
        ensures
            r.x == self.end.x - self.begin.x,
            r.y == self.end.y - self.begin.y,
    {
        self.end.minus(&self.begin)
    }

    pub fn is_point(&self) -> (r: bool)
        ensures
            r == (self.begin == self.end),
    {
        self.begin == self.end
    }

    /// The Euclidean length, rounded down to a whole length unit.
    pub fn length(&self) -> (r: i64)
        requires
            self.in_range(),
            abs(self.end.x - self.begin.x) <= COORD_LIMIT,
            abs(self.end.y - self.begin.y) <= COORD_LIMIT,
        ensures
            r >= 0,
            r * r <= (self.end.x - self.begin.x) * (self.end.x - self.begin.x) + (self.end.y
                - self.begin.y) * (self.end.y - self.begin.y) < (r + 1) * (r + 1),
    {
        self.as_vector().length()
    }

    /// The unit heading of a non-degenerate axis-aligned segment.
    pub fn direction(&self) -> (r: Vector)
        requires
            self.in_range(),
            self.begin.x == self.end.x || self.begin.y == self.end.y,
            !(self.begin == self.end),
        ensures
            r.x == sign(self.end.x - self.begin.x) * UNIT,
            r.y == sign(self.end.y - self.begin.y) * UNIT,
    {
        self.as_vector().normalized()
    }

    /// Whether `point` lies on this closed segment.
    pub fn contains(&self, point: &Vector) -> (r: bool)
        requires
            self.in_range(),
            point.in_range(),
        ensures
            r == on_segment(self.begin, self.end, *point),
    {
        let bx = self.begin.x as i128;
        let by = self.begin.y as i128;
        let ex = self.end.x as i128;
        let ey = self.end.y as i128;
        let px = point.x as i128;
        let py = point.y as i128;
        proof {
            lemma_difference_product_bound(ex - bx, py - by);
            lemma_difference_product_bound(ey - by, px - bx);
            lemma_difference_product_bound(px - bx, ex - px);
            lemma_difference_product_bound(py - by, ey - py);
        }
        let collinear = (ex - bx) * (py - by) == (ey - by) * (px - bx);
        let between = (px - bx) * (ex - px) + (py - by) * (ey - py) >= 0;
        collinear && between
    }

    /// The segments joining each point of `positions` to the next one.
    pub fn segments_from_positions(positions: &[Vector]) -> (r: Vec<LineSegment>)
        ensures
            r@ == segments_of(positions@),
    {
        let mut r: Vec<LineSegment> = Vec::new();
        if positions.len() == 0 {
            assert(r@ =~= segments_of(positions@));
            return r;
        }
        let mut i: usize = 1;
        while i < positions.len()
            invariant
                1 <= i <= positions@.len(),
                r@ == segments_of(positions@.subrange(0, i as int)),
            decreases positions.len() - i,
        {
            r.push(LineSegment { begin: positions[i - 1], end: positions[i] });
            i = i + 1;
            assert(r@ =~= segments_of(positions@.subrange(0, i as int)));
        }
        assert(positions@.subrange(0, i as int) =~= positions@);
        r
    }
}

/// Differences of in-range coordinates multiply without leaving `i128`.
proof fn lemma_difference_product_bound(a: int, b: int)
    requires
        abs(a) <= 2 * COORD_LIMIT,
        abs(b) <= 2 * COORD_LIMIT,
    ensures
        abs(a * b) <= 4 * COORD_LIMIT * COORD_LIMIT,
{
    assert(abs(a * b) == abs(a) * abs(b)) by (nonlinear_arith);
    assert((2 * COORD_LIMIT) * (2 * COORD_LIMIT) == 4 * COORD_LIMIT * COORD_LIMIT) by (nonlinear_arith);
    assert(abs(a) * abs(b) <= (2 * COORD_LIMIT) * (2 * COORD_LIMIT)) by (nonlinear_arith)
        requires
            0 <= abs(a) <= 2 * COORD_LIMIT,
            0 <= abs(b) <= 2 * COORD_LIMIT;
}

} // verus!
