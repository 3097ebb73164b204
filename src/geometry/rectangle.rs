use vstd::prelude::*;

use crate::geometry::line_segment::LineSegment;
use crate::geometry::vector::{abs, Vector, COORD_LIMIT};

verus! {

/// An axis-aligned rectangle given by its corner of least coordinates and
/// its extent.
#[derive(Clone, Copy, Debug, PartialEq, Eq, Structural)]
pub struct Rectangle {
    pub bottom_left_vertex: Vector,
    pub width: i64,
    pub height: i64,
}

impl Rectangle {
    /// All four corners lie within `COORD_LIMIT`.
    pub open spec fn in_range(self) -> bool {
        &&& self.bottom_left_vertex.in_range()
        &&& abs(self.bottom_left_vertex.x + self.width) <= COORD_LIMIT
        &&& abs(self.bottom_left_vertex.y + self.height) <= COORD_LIMIT
    }

    pub open spec fn corner(self, i: int) -> Vector {
        let o = self.bottom_left_vertex;
        if i == 0 {
            o
        } else if i == 1 {
            Vector { x: (o.x + self.width) as i64, y: o.y }
        } else if i == 2 {
            Vector { x: (o.x + self.width) as i64, y: (o.y + self.height) as i64 }
        } else {
            Vector { x: o.x, y: (o.y + self.height) as i64 }
        }
    }

    /// The border segment number `i`: bottom, right, top, left.
    pub open spec fn side(self, i: int) -> LineSegment {
        LineSegment { begin: self.corner(i), end: self.corner((i + 1) % 4) }
    }

    pub fn new(bottom_left_vertex: Vector, width: i64, height: i64) -> (r: Rectangle)
        ensures
            r.bottom_left_vertex == bottom_left_vertex,
            r.width == width,
            r.height == height,
    {
        Rectangle { bottom_left_vertex, width, height }
    }

    /// The four border segments, in the order bottom, right, top, left.
    pub fn as_line_segments(&self) -> (r: [LineSegment; 4])
        requires
            self.in_range(),
        ensures
            forall|i: int| 0 <= i < 4 ==> #[trigger] r@[i] == self.side(i),
            forall|i: int| 0 <= i < 4 ==> (#[trigger] r@[i]).in_range(),
    {
        let bottom_left = self.bottom_left_vertex;
        let bottom_right = Vector::new(bottom_left.x + self.width, bottom_left.y);
        let top_right = Vector::new(bottom_right.x, bottom_right.y + self.height);
        let top_left = Vector::new(bottom_left.x, top_right.y);
        let r = [
            LineSegment::new(bottom_left, bottom_right),
            LineSegment::new(bottom_right, top_right),
            LineSegment::new(top_right, top_left),
            LineSegment::new(top_left, bottom_left),
        ];
        assert(r@[0] == self.side(0));
        assert(r@[1] == self.side(1));
        assert(r@[2] == self.side(2));
        assert(r@[3] == self.side(3));
        r
    }
}

} // verus!
