use vstd::prelude::*;

verus! {

/// Length units per side of a board cell.
pub const UNIT: i64 = 1_000_000;

/// Half a cell: cell centres and cell borders are multiples of this.
pub const HALF_UNIT: i64 = 500_000;

/// Largest coordinate magnitude that the geometry handles without overflow.
pub const COORD_LIMIT: i64 = 1_152_921_504_606_846_976;

/// A point or a displacement in the plane, in length units.
#[derive(Clone, Copy, Debug, PartialEq, Eq, Structural)]
pub struct Vector {
    pub x: i64,
    pub y: i64,
}

pub open spec fn abs(v: int) -> int {
    if v < 0 { -v } else { v }
}

/// -1, 0 or 1 as `v` is negative, zero or positive.
pub open spec fn sign(v: int) -> int {
    if v > 0 { 1 } else if v < 0 { -1 } else { 0 }
}

/// Rounds to the nearest multiple of `UNIT`, halves away from zero.
pub open spec fn round_to_unit(v: int) -> int {
    if v >= 0 {
        ((v + HALF_UNIT) / (UNIT as int)) * UNIT
    } else {
        -(((-v + HALF_UNIT) / (UNIT as int)) * UNIT)
    }
}

impl Vector {
    /// Both coordinates lie within `COORD_LIMIT`.
    pub open spec fn in_range(self) -> bool {
        abs(self.x as int) <= COORD_LIMIT && abs(self.y as int) <= COORD_LIMIT
    }

    /// Lies on one of the two axes (or is zero).
    pub open spec fn is_axis_aligned(self) -> bool {
        self.x == 0 || self.y == 0
    }

    pub open spec fn squared_length(self) -> int {
        self.x * self.x + self.y * self.y
    }

    pub fn new(x: i64, y: i64) -> (r: Vector)
        ensures
            r.x == x && r.y == y,
    {
        Vector { x, y }
    }

    /// The Euclidean length, rounded down to a whole length unit.
    pub fn length(&self) -> (r: i64)
        requires
            self.in_range(),
        ensures
            r >= 0,
            r * r <= self.squared_length() < (r + 1) * (r + 1),
    {
        let ax: u128 = if self.x < 0 { (-(self.x as i128)) as u128 } else { self.x as u128 };
        let ay: u128 = if self.y < 0 { (-(self.y as i128)) as u128 } else { self.y as u128 };
        assert(ax * ax <= COORD_LIMIT * COORD_LIMIT) by (nonlinear_arith)
            requires ax <= COORD_LIMIT;
        assert(ay * ay <= COORD_LIMIT * COORD_LIMIT) by (nonlinear_arith)
            requires ay <= COORD_LIMIT;
        let n: u128 = ax * ax + ay * ay;
        assert(n == self.squared_length()) by (nonlinear_arith)
            requires
                ax == abs(self.x as int),
                ay == abs(self.y as int),
                n == ax * ax + ay * ay;
        // Invariant: lo * lo <= n < hi * hi.
        let mut lo: u128 = 0;
        let mut hi: u128 = 0x8000_0000_0000_0000;
        assert(n < hi * hi) by (nonlinear_arith)
            requires
                n == ax * ax + ay * ay,
                ax <= COORD_LIMIT,
                ay <= COORD_LIMIT,
                hi == 0x8000_0000_0000_0000u128;
        while hi - lo > 1
            invariant
                lo < hi <= 0x8000_0000_0000_0000,
                lo * lo <= n < hi * hi,
            decreases hi - lo,
        {
            let mid: u128 = lo + (hi - lo) / 2;
            assert(mid * mid <= 0x4000_0000_0000_0000_0000_0000_0000_0000) by (nonlinear_arith)
                requires mid <= 0x8000_0000_0000_0000u128;
            if mid * mid <= n {
                lo = mid;
            } else {
                hi = mid;
            }
        }
        assert(hi == lo + 1);
        lo as i64
    }

    /// The vector of length `UNIT` pointing the same way as this
    /// non-zero axis-aligned vector.
    pub fn normalized(&self) -> (r: Vector)
        requires
            self.is_axis_aligned(),
            *self != (Vector { x: 0, y: 0 }),
        ensures
            r.x == sign(self.x as int) * UNIT,
            r.y == sign(self.y as int) * UNIT,
    {
        let x: i64 = if self.x > 0 { UNIT } else if self.x < 0 { -UNIT } else { 0 };
        let y: i64 = if self.y > 0 { UNIT } else if self.y < 0 { -UNIT } else { 0 };
        Vector { x, y }
    }

    pub fn opposite(&self) -> (r: Vector)
        requires
            self.in_range(),
        ensures
            r.x == -self.x && r.y == -self.y,
    {
        Vector { x: -self.x, y: -self.y }
    }

    /// Rounds each coordinate to the nearest whole cell, halves away from zero.
    pub fn round(&self) -> (r: Vector)
        requires
            self.in_range(),
        ensures
            r.x == round_to_unit(self.x as int),
            r.y == round_to_unit(self.y as int),
    {
        Vector { x: round_coordinate(self.x), y: round_coordinate(self.y) }
    }

    /// `lhs.x * rhs.x + lhs.y * rhs.y`, in squared length units.
    pub fn scalar_product(lhs: &Vector, rhs: &Vector) -> (r: i128)
        requires
            lhs.in_range(),
            rhs.in_range(),
        ensures
            r == lhs.x * rhs.x + lhs.y * rhs.y,
    {
        proof {
            lemma_product_bound(lhs.x as int, rhs.x as int);
            lemma_product_bound(lhs.y as int, rhs.y as int);
        }
        (lhs.x as i128) * (rhs.x as i128) + (lhs.y as i128) * (rhs.y as i128)
    }

    pub fn plus(&self, rhs: &Vector) -> (r: Vector)
        requires
            i64::MIN <= self.x + rhs.x <= i64::MAX,
            i64::MIN <= self.y + rhs.y <= i64::MAX,
        ensures
            r.x == self.x + rhs.x && r.y == self.y + rhs.y,
    {
        Vector { x: self.x + rhs.x, y: self.y + rhs.y }
    }

    pub fn minus(&self, rhs: &Vector) -> (r: Vector)
        requires
            i64::MIN <= self.x - rhs.x <= i64::MAX,
            i64::MIN <= self.y - rhs.y <= i64::MAX,
        ensures
            r.x == self.x - rhs.x && r.y == self.y - rhs.y,
    {
        Vector { x: self.x - rhs.x, y: self.y - rhs.y }
    }
}

fn round_coordinate(v: i64) -> (r: i64)
    requires
        abs(v as int) <= COORD_LIMIT,
    ensures
        r == round_to_unit(v as int),
{
    if v >= 0 {
        ((v + HALF_UNIT) / UNIT) * UNIT
    } else {
        -(((-v + HALF_UNIT) / UNIT) * UNIT)
    }
}

/// Multiplying by a sign.
pub proof fn lemma_signed(s: int, d: int)
    ensures
        s == 0 ==> s * d == 0,
        s == 1 ==> s * d == d,
        s == -1 ==> s * d == -d,
{
}

/// Two distinct multiples of `m` lie at least `m` apart.
pub proof fn lemma_lattice_gap(a: int, b: int, m: int)
    requires
        m > 0,
        a % m == 0,
        b % m == 0,
        a < b,
    ensures
        b - a >= m,
{
    vstd::arithmetic::div_mod::lemma_fundamental_div_mod(a, m);
    vstd::arithmetic::div_mod::lemma_fundamental_div_mod(b, m);
    let qa = a / m;
    let qb = b / m;
    assert(qa < qb) by (nonlinear_arith)
        requires a == m * qa, b == m * qb, a < b, m > 0;
    assert(b - a >= m) by (nonlinear_arith)
        requires a == m * qa, b == m * qb, qa + 1 <= qb, m > 0;
}

/// Products of two in-range coordinates fit well inside `i128`.
pub proof fn lemma_product_bound(a: int, b: int)
    requires
        abs(a) <= COORD_LIMIT,
        abs(b) <= COORD_LIMIT,
    ensures
        abs(a * b) <= COORD_LIMIT * COORD_LIMIT,
        -0x1_0000_0000_0000_0000_0000_0000_0000_0000 <= a * b <= 0x1_0000_0000_0000_0000_0000_0000_0000_0000,
{
    assert(abs(a * b) == abs(a) * abs(b)) by (nonlinear_arith);
    assert(abs(a) * abs(b) <= COORD_LIMIT * COORD_LIMIT) by (nonlinear_arith)
        requires
            0 <= abs(a) <= COORD_LIMIT,
            0 <= abs(b) <= COORD_LIMIT;
}

} // verus!
