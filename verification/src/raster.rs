//! Discrete line rasterization, relying on the `line_drawing` crate.

use vstd::prelude::*;

verus! {

/// The sequence of grid cells that Bresenham's line algorithm walks from
/// `start` to `end`. The walk is a pure function of the two endpoints.
pub uninterp spec fn bresenham_of(start: (i64, i64), end: (i64, i64)) -> Seq<(i64, i64)>;

/// Whether `p` lies in the axis-aligned bounding box of `a` and `b`.
pub open spec fn in_box(p: (i64, i64), a: (i64, i64), b: (i64, i64)) -> bool {
    &&& (a.0 <= p.0 <= b.0 || b.0 <= p.0 <= a.0)
    &&& (a.1 <= p.1 <= b.1 || b.1 <= p.1 <= a.1)
}

/// Relies on `line_drawing::Bresenham`: walks the discrete line from
/// `start` to `end`, including both endpoints, visiting only cells inside
/// their bounding box; the walk depends on the endpoints alone.
#[verifier::external_body]
pub fn bresenham_line(start: (i64, i64), end: (i64, i64)) -> (r: Vec<(i64, i64)>)
    requires
        -0x4000_0000_0000 <= start.0 <= 0x4000_0000_0000,
        -0x4000_0000_0000 <= start.1 <= 0x4000_0000_0000,
        -0x4000_0000_0000 <= end.0 <= 0x4000_0000_0000,
        -0x4000_0000_0000 <= end.1 <= 0x4000_0000_0000,
    ensures
        r@ == bresenham_of(start, end),
        r@.len() >= 1,
        r@[0] == start,
        r@[r@.len() - 1] == end,
        forall|i: int| 0 <= i < r@.len() ==> in_box(#[trigger] r@[i], start, end),
{
    line_drawing::Bresenham::new(start, end).collect()
}

} // verus!
