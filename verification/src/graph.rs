//! The occupancy grid as an 8-connected graph: cells are vertices, and a
//! cell has an edge to each free neighboring cell.

use vstd::prelude::*;
use crate::geometry::Vec2f;
use crate::occupancy::{
    GridModel, SparseOccupancy, SparseOccupancyIndex, RESOLUTION_LIMIT,
};

verus! {

/// The `k`-th of the eight compass-direction offsets.
pub open spec fn neighbor_offset(k: int) -> (int, int) {
    if k == 0 {
        (-1, 1)
    } else if k == 1 {
        (0, 1)
    } else if k == 2 {
        (1, 1)
    } else if k == 3 {
        (-1, 0)
    } else if k == 4 {
        (1, 0)
    } else if k == 5 {
        (-1, -1)
    } else if k == 6 {
        (0, -1)
    } else {
        (1, -1)
    }
}

/// The `k`-th compass neighbor of a cell.
pub open spec fn nth_neighbor(c: SparseOccupancyIndex, k: int) -> SparseOccupancyIndex {
    SparseOccupancyIndex {
        x: (c.x + neighbor_offset(k).0) as i64,
        y: (c.y + neighbor_offset(k).1) as i64,
    }
}

/// Whether two cells are distinct and touch in one of the eight
/// compass directions.
pub open spec fn adjacent8(a: SparseOccupancyIndex, b: SparseOccupancyIndex) -> bool {
    exists|k: int| 0 <= k < 8 && nth_neighbor(a, k) == b
}

/// Whether the grid reports cell `c` as known and free.
pub open spec fn is_free(m: GridModel, c: SparseOccupancyIndex) -> bool {
    m.occupancy_of(c) == Some(false)
}

/// All eight neighbors of `c` are occupied or unknown: nothing can step
/// into `c` from any direction.
pub open spec fn all_neighbors_blocked(m: GridModel, c: SparseOccupancyIndex) -> bool {
    forall|k: int| 0 <= k < 8 ==> !is_free(m, nth_neighbor(c, k))
}

/// Adjacency is symmetric: each compass offset has an opposite one.
pub proof fn lemma_adjacent8_symmetric(a: SparseOccupancyIndex, b: SparseOccupancyIndex)
    requires
        adjacent8(a, b),
        a.in_range(),
        b.in_range(),
    ensures
        adjacent8(b, a),
{
    let k = choose|k: int| 0 <= k < 8 && nth_neighbor(a, k) == b;
    if k == 0 {
        assert(nth_neighbor(b, 7) == a);
    } else if k == 1 {
        assert(nth_neighbor(b, 6) == a);
    } else if k == 2 {
        assert(nth_neighbor(b, 5) == a);
    } else if k == 3 {
        assert(nth_neighbor(b, 4) == a);
    } else if k == 4 {
        assert(nth_neighbor(b, 3) == a);
    } else if k == 5 {
        assert(nth_neighbor(b, 2) == a);
    } else if k == 6 {
        assert(nth_neighbor(b, 1) == a);
    } else {
        assert(nth_neighbor(b, 0) == a);
    }
}

/// A free cell lies in the working coordinate range: it is either inside
/// the known radius or was once rasterized from in-range endpoints.
pub proof fn lemma_free_in_range(m: GridModel, c: SparseOccupancyIndex)
    requires
        m.wf(),
        m.occupancy_of(c) is Some,
    ensures
        c.in_range(),
{
    if m.grid.contains_key(crate::occupancy::cell_key(c)) {
        crate::occupancy::lemma_cell_key_roundtrip(c);
    } else {
        assert(m.in_bounds(c));
        assert(c.in_range()) by (nonlinear_arith)
            requires
                (c.x * m.resolution) * (c.x * m.resolution) + (c.y * m.resolution) * (c.y
                    * m.resolution) < 20_000 * 20_000,
                m.resolution >= 1,
                crate::geometry::COORD_LIMIT == 0x4000_0000;
    }
}

/// The edges from a cell through the first `k` compass directions, in
/// direction order: one edge per free neighbor.
pub open spec fn edges_upto(m: GridModel, from: SparseOccupancyIndex, k: int) -> Seq<
    (SparseOccupancyIndex, SparseOccupancyIndex),
>
    decreases k,
{
    if k <= 0 {
        Seq::empty()
    } else {
        let prev = edges_upto(m, from, k - 1);
        let n = nth_neighbor(from, k - 1);
        if is_free(m, n) {
            prev.push((from, n))
        } else {
            prev
        }
    }
}

/// What `edges_upto` holds: exactly the free compass neighbors.
pub proof fn lemma_edges_upto(m: GridModel, from: SparseOccupancyIndex, k: int)
    requires
        0 <= k <= 8,
    ensures
        forall|i: int| 0 <= i < edges_upto(m, from, k).len() ==> {
            let e = #[trigger] edges_upto(m, from, k)[i];
            e.0 == from && is_free(m, e.1) && adjacent8(from, e.1)
        },
        forall|j: int|
            0 <= j < k && is_free(m, #[trigger] nth_neighbor(from, j)) ==> edges_upto(
                m,
                from,
                k,
            ).contains((from, nth_neighbor(from, j))),
    decreases k,
{
    if k > 0 {
        lemma_edges_upto(m, from, k - 1);
        let prev = edges_upto(m, from, k - 1);
        let cur = edges_upto(m, from, k);
        let n = nth_neighbor(from, k - 1);
        assert forall|i: int| 0 <= i < cur.len() implies {
            let e = #[trigger] cur[i];
            e.0 == from && is_free(m, e.1) && adjacent8(from, e.1)
        } by {
            if is_free(m, n) && i == cur.len() - 1 {
                assert(0 <= k - 1 < 8 && nth_neighbor(from, k - 1) == n);
            }
        }
        assert forall|j: int|
            0 <= j < k && is_free(m, #[trigger] nth_neighbor(from, j)) implies cur.contains(
            (from, nth_neighbor(from, j)),
        ) by {
            if j == k - 1 {
                assert(cur[cur.len() - 1] == (from, n));
            } else {
                assert(prev.contains((from, nth_neighbor(from, j))));
                let i = choose|i: int|
                    0 <= i < prev.len() && prev[i] == (from, nth_neighbor(from, j));
                assert(cur[i] == (from, nth_neighbor(from, j)));
            }
        }
    }
}

/// The `i`-th compass neighbor of a cell, as executable code.
fn neighbor_at(c: &SparseOccupancyIndex, i: usize) -> (r: SparseOccupancyIndex)
    requires
        i < 8,
        c.in_range(),
    ensures
        r == nth_neighbor(*c, i as int),
        -0x4000_0001 <= r.x <= 0x4000_0001,
        -0x4000_0001 <= r.y <= 0x4000_0001,
{
    match i {
        0 => SparseOccupancyIndex { x: c.x - 1, y: c.y + 1 },
        1 => SparseOccupancyIndex { x: c.x, y: c.y + 1 },
        2 => SparseOccupancyIndex { x: c.x + 1, y: c.y + 1 },
        3 => SparseOccupancyIndex { x: c.x - 1, y: c.y },
        4 => SparseOccupancyIndex { x: c.x + 1, y: c.y },
        5 => SparseOccupancyIndex { x: c.x - 1, y: c.y - 1 },
        6 => SparseOccupancyIndex { x: c.x, y: c.y - 1 },
        _ => SparseOccupancyIndex { x: c.x + 1, y: c.y - 1 },
    }
}

impl SparseOccupancy {
    /// The continuous-space center of a cell, if the cell lies within the
    /// known universe.
    pub fn vertex(&self, key: &SparseOccupancyIndex) -> (r: Option<Vec2f>)
        requires
            0 < self@.resolution <= RESOLUTION_LIMIT,
            key.in_range(),
        ensures
            self@.in_bounds(*key) ==> r == Some(cell_center(*key, self@.resolution)),
            !self@.in_bounds(*key) ==> r is None,
    {
        if self.check_in_bounds(key) {
            Some(cell_center_at(key, self.resolution()))
        } else {
            None
        }
    }

    /// The outgoing edges of a cell: one edge to each of its eight
    /// compass neighbors whose occupancy is known free. Occupied and
    /// unknown neighbors are not traversable.
    pub fn edges_from_vertex(&self, from_key: &SparseOccupancyIndex) -> (r: Vec<
        (SparseOccupancyIndex, SparseOccupancyIndex),
    >)
        requires
            0 < self@.resolution <= RESOLUTION_LIMIT,
            from_key.in_range(),
        ensures
            r@ == edges_upto(self@, *from_key, 8),
    {
        let mut r: Vec<(SparseOccupancyIndex, SparseOccupancyIndex)> = Vec::new();
        let mut i: usize = 0;
        while i < 8
            invariant
                0 <= i <= 8,
                0 < self@.resolution <= RESOLUTION_LIMIT,
                from_key.in_range(),
                r@ == edges_upto(self@, *from_key, i as int),
            decreases 8 - i,
        {
            let n = neighbor_at(from_key, i);
            match self.get_occupancy_from_idx(&n) {
                Some(false) => {
                    r.push((*from_key, n));
                },
                _ => {},
            }
            i += 1;
        }
        r
    }
}

/// The center of cell `c` at the given resolution.
pub open spec fn cell_center(c: SparseOccupancyIndex, resolution: int) -> Vec2f {
    Vec2f {
        x: (c.x * resolution + resolution / 2) as i64,
        y: (c.y * resolution + resolution / 2) as i64,
    }
}

/// Compute the center of a cell.
pub fn cell_center_at(c: &SparseOccupancyIndex, resolution: i64) -> (r: Vec2f)
    requires
        0 < resolution <= RESOLUTION_LIMIT,
        c.in_range(),
    ensures
        r == cell_center(*c, resolution as int),
        r.x == c.x * resolution + resolution / 2,
        r.y == c.y * resolution + resolution / 2,
        -0x4_0000_0000_0000 <= r.x <= 0x4_0000_0000_0000,
        -0x4_0000_0000_0000 <= r.y <= 0x4_0000_0000_0000,
{
    proof {
        assert(-0x4000_0000 * 1_000_000 <= c.x * resolution <= 0x4000_0000 * 1_000_000
            && -0x4000_0000 * 1_000_000 <= c.y * resolution <= 0x4000_0000 * 1_000_000)
            by (nonlinear_arith)
            requires
                -0x4000_0000 <= c.x <= 0x4000_0000,
                -0x4000_0000 <= c.y <= 0x4000_0000,
                0 < resolution <= 1_000_000;
    }
    Vec2f { x: c.x * resolution + resolution / 2, y: c.y * resolution + resolution / 2 }
}

/// A cell's center falls back into that same cell under floor division.
pub proof fn lemma_center_cell(c: SparseOccupancyIndex, resolution: int)
    requires
        0 < resolution <= RESOLUTION_LIMIT,
        c.in_range(),
    ensures
        crate::occupancy::cell_coord(cell_center(c, resolution).x as int, resolution) == c.x,
        crate::occupancy::cell_coord(cell_center(c, resolution).y as int, resolution) == c.y,
{
    assert(-0x4000_0000 * 1_000_000 <= c.x * resolution <= 0x4000_0000 * 1_000_000
        && -0x4000_0000 * 1_000_000 <= c.y * resolution <= 0x4000_0000 * 1_000_000)
        by (nonlinear_arith)
        requires
            -0x4000_0000 <= c.x <= 0x4000_0000,
            -0x4000_0000 <= c.y <= 0x4000_0000,
            0 < resolution <= 1_000_000;
    vstd::arithmetic::div_mod::lemma_fundamental_div_mod_converse(
        c.x * resolution + resolution / 2,
        resolution,
        c.x as int,
        resolution / 2,
    );
    vstd::arithmetic::div_mod::lemma_fundamental_div_mod_converse(
        c.y * resolution + resolution / 2,
        resolution,
        c.y as int,
        resolution / 2,
    );
}

} // verus!
