//! Fixed-point planar geometry: positions and velocities in milli-units.

use vstd::prelude::*;

verus! {

/// Largest coordinate magnitude (in milli-units) the library works with;
/// about 2^30 milli-units, i.e. roughly a million distance units.
pub const COORD_LIMIT: i64 = 0x4000_0000;

/// A planar vector in fixed-point milli-units (1 distance unit = 1000).
#[derive(Clone, Copy, Debug, PartialEq, Eq, Structural)]
pub struct Vec2f {
    pub x: i64,
    pub y: i64,
}

impl Vec2f {
    /// Both coordinates within the working range.
    pub open spec fn in_range(self) -> bool {
        -COORD_LIMIT <= self.x <= COORD_LIMIT && -COORD_LIMIT <= self.y <= COORD_LIMIT
    }

    pub fn new(x: i64, y: i64) -> (r: Vec2f)
        ensures
            r.x == x,
            r.y == y,
    {
        Vec2f { x, y }
    }

    /// Squared Euclidean distance to `other`, exact.
    pub fn dist_squared(&self, other: &Vec2f) -> (r: i128)
        requires
            self.in_range(),
            other.in_range(),
        ensures
            r == dist_sq(*self, *other),
    {
        let dx: i128 = self.x as i128 - other.x as i128;
        let dy: i128 = self.y as i128 - other.y as i128;
        proof {
            assert(0 <= dx * dx <= 0x4000_0000_0000_0000 && 0 <= dy * dy
                <= 0x4000_0000_0000_0000) by (nonlinear_arith)
                requires
                    -0x8000_0000 <= dx <= 0x8000_0000,
                    -0x8000_0000 <= dy <= 0x8000_0000;
        }
        dx * dx + dy * dy
    }
}

/// Squared distance between two points, as unbounded integers.
pub open spec fn dist_sq(a: Vec2f, b: Vec2f) -> int {
    (a.x - b.x) * (a.x - b.x) + (a.y - b.y) * (a.y - b.y)
}

/// Division of `a` by positive `b`, rounding the magnitude down
/// (toward zero), as the executable `scaled_div` computes it.
pub open spec fn scaled_div_spec(a: int, b: int) -> int
    recommends
        b > 0,
{
    if a < 0 {
        -((-a) / b)
    } else {
        a / b
    }
}

/// Divide `a` by positive `b`, rounding toward zero.
pub fn scaled_div(a: i64, b: i64) -> (r: i64)
    requires
        b > 0,
        a != i64::MIN,
    ensures
        r == scaled_div_spec(a as int, b as int),
        -(if a < 0 { -a } else { a as int }) <= r <= (if a < 0 { -a } else { a as int }),
{
    if a < 0 {
        let m: i64 = (-a) / b;
        proof {
            assert(0 <= (-a) as int / b as int <= (-a) as int) by (nonlinear_arith)
                requires a < 0, b > 0;
        }
        -m
    } else {
        proof {
            assert(0 <= a as int / b as int <= a as int) by (nonlinear_arith)
                requires a >= 0, b > 0;
        }
        a / b
    }
}

/// `v` clamped into the closed interval `[lo, hi]`.
pub open spec fn clamp_spec(v: int, lo: int, hi: int) -> int
    recommends
        lo <= hi,
{
    if v < lo {
        lo
    } else if v > hi {
        hi
    } else {
        v
    }
}

/// Clamp `v` into `[lo, hi]`.
pub fn clamp(v: i64, lo: i64, hi: i64) -> (r: i64)
    requires
        lo <= hi,
    ensures
        r == clamp_spec(v as int, lo as int, hi as int),
{
    if v < lo {
        lo
    } else if v > hi {
        hi
    } else {
        v
    }
}

} // verus!
