//! Sparse occupancy grid: wall segments rasterized into cells, with a
//! consistent inverse index from obstacle id to its occupied cells.

use vstd::prelude::*;
use vstd::arithmetic::div_mod::{lemma_fundamental_div_mod, lemma_fundamental_div_mod_converse};
use std::collections::{HashMap, HashSet};
use crate::geometry::{Vec2f, COORD_LIMIT};

verus! {

broadcast use vstd::std_specs::hash::group_hash_axioms;

/// Largest grid resolution (milli-units per cell) the grid accepts.
pub const RESOLUTION_LIMIT: i64 = 1_000_000;

/// Radius (in milli-units) of the known universe around the origin:
/// cells whose corner lies farther out are reported as unknown.
pub const KNOWN_RADIUS: i64 = 20_000;

/// A grid cell: integer coordinates at a fixed resolution.
#[derive(Clone, Copy, Debug, PartialEq, Eq, Hash, Structural)]
pub struct SparseOccupancyIndex {
    pub x: i64,
    pub y: i64,
}

/// The packed hash key of a cell: an injective encoding of the two
/// signed coordinates into one unsigned word.
pub open spec fn cell_key(c: SparseOccupancyIndex) -> u128 {
    ((c.x + 0x8000_0000_0000_0000) * 0x1_0000_0000_0000_0000 + (c.y + 0x8000_0000_0000_0000)) as u128
}

/// Packing cells into keys is injective.
pub proof fn lemma_cell_key_injective(a: SparseOccupancyIndex, b: SparseOccupancyIndex)
    requires
        cell_key(a) == cell_key(b),
    ensures
        a == b,
{
    let ka = (a.x + 0x8000_0000_0000_0000) * 0x1_0000_0000_0000_0000 + (a.y + 0x8000_0000_0000_0000);
    let kb = (b.x + 0x8000_0000_0000_0000) * 0x1_0000_0000_0000_0000 + (b.y + 0x8000_0000_0000_0000);
    assert(0 <= ka < 0x1_0000_0000_0000_0000_0000_0000_0000_0000) by (nonlinear_arith)
        requires
            -0x8000_0000_0000_0000 <= a.x < 0x8000_0000_0000_0000,
            -0x8000_0000_0000_0000 <= a.y < 0x8000_0000_0000_0000,
            ka == (a.x + 0x8000_0000_0000_0000) * 0x1_0000_0000_0000_0000 + (a.y + 0x8000_0000_0000_0000);
    assert(0 <= kb < 0x1_0000_0000_0000_0000_0000_0000_0000_0000) by (nonlinear_arith)
        requires
            -0x8000_0000_0000_0000 <= b.x < 0x8000_0000_0000_0000,
            -0x8000_0000_0000_0000 <= b.y < 0x8000_0000_0000_0000,
            kb == (b.x + 0x8000_0000_0000_0000) * 0x1_0000_0000_0000_0000 + (b.y + 0x8000_0000_0000_0000);
    assert(ka == kb);
    assert(a.x == b.x && a.y == b.y) by (nonlinear_arith)
        requires
            ka == kb,
            ka == (a.x + 0x8000_0000_0000_0000) * 0x1_0000_0000_0000_0000 + (a.y + 0x8000_0000_0000_0000),
            kb == (b.x + 0x8000_0000_0000_0000) * 0x1_0000_0000_0000_0000 + (b.y + 0x8000_0000_0000_0000),
            -0x8000_0000_0000_0000 <= a.x < 0x8000_0000_0000_0000,
            -0x8000_0000_0000_0000 <= a.y < 0x8000_0000_0000_0000,
            -0x8000_0000_0000_0000 <= b.x < 0x8000_0000_0000_0000,
            -0x8000_0000_0000_0000 <= b.y < 0x8000_0000_0000_0000;
}

/// The cell whose packed key is `k`: packing is a bijection between
/// cells and keys.
pub open spec fn key_cell(k: u128) -> SparseOccupancyIndex {
    SparseOccupancyIndex {
        x: (k as int / 0x1_0000_0000_0000_0000 - 0x8000_0000_0000_0000) as i64,
        y: (k as int % 0x1_0000_0000_0000_0000 - 0x8000_0000_0000_0000) as i64,
    }
}

/// Unpacking inverts packing.
pub proof fn lemma_key_cell_of_key(k: u128)
    ensures
        cell_key(key_cell(k)) == k,
{
    let ki = k as int;
    let d = 0x1_0000_0000_0000_0000;
    lemma_fundamental_div_mod(ki, d);
    let a = ki / d;
    let b = ki % d;
    assert(0 <= b < d);
    assert(0 <= a < d) by (nonlinear_arith)
        requires
            ki == d * a + b,
            0 <= b < d,
            0 <= ki < d * d;
    let c = key_cell(k);
    assert(c.x == a - 0x8000_0000_0000_0000 && c.y == b - 0x8000_0000_0000_0000);
    assert((c.x + 0x8000_0000_0000_0000) * d + (c.y + 0x8000_0000_0000_0000) == ki)
        by (nonlinear_arith)
        requires
            c.x == a - 0x8000_0000_0000_0000,
            c.y == b - 0x8000_0000_0000_0000,
            ki == d * a + b,
            d == 0x1_0000_0000_0000_0000;
}

/// Packing inverts unpacking.
pub proof fn lemma_cell_key_roundtrip(c: SparseOccupancyIndex)
    ensures
        key_cell(cell_key(c)) == c,
{
    lemma_key_cell_of_key(cell_key(c));
    lemma_cell_key_injective(key_cell(cell_key(c)), c);
}

/// The cell holding a fixed-point coordinate: floor division by the
/// (positive) resolution. Spec-mode `/` is Euclidean division, which for
/// a positive divisor rounds toward negative infinity.
pub open spec fn cell_coord(v: int, resolution: int) -> int
    recommends
        resolution > 0,
{
    v / resolution
}

/// Floor-divide a coordinate by the resolution.
pub fn floor_div_coord(v: i64, resolution: i64) -> (r: i64)
    requires
        0 < resolution <= RESOLUTION_LIMIT,
        -0x4_0000_0000_0000 <= v <= 0x4_0000_0000_0000,
    ensures
        r == cell_coord(v as int, resolution as int),
        (if v < 0 { -v } else { v as int }) >= (if r < 0 { -r } else { r as int }),
{
    if v >= 0 {
        let q = v / resolution;
        proof {
            assert(0 <= v as int / resolution as int <= v) by (nonlinear_arith)
                requires v >= 0, resolution > 0;
        }
        q
    } else {
        let n = -v;
        let q = (n + resolution - 1) / resolution;
        proof {
            let ni = n as int;
            let d = resolution as int;
            let qi = (ni + d - 1) / d;
            lemma_fundamental_div_mod(ni + d - 1, d);
            let s = (ni + d - 1) % d;
            assert(d * qi == ni + d - 1 - s);
            assert((-qi) * d == -(d * qi)) by (nonlinear_arith);
            assert(-ni == (-qi) * d + (d - 1 - s));
            lemma_fundamental_div_mod_converse(-ni, d, -qi, d - 1 - s);
            assert(0 <= qi <= ni) by (nonlinear_arith)
                requires ni >= 1, d > 0, d * qi == ni + d - 1 - s, 0 <= s < d;
        }
        -q
    }
}

impl SparseOccupancyIndex {
    /// The packed hash key of this cell.
    pub fn key(&self) -> (k: u128)
        ensures
            k == cell_key(*self),
    {
        let a: u128 = ((self.x as i128) + 0x8000_0000_0000_0000i128) as u128;
        let b: u128 = ((self.y as i128) + 0x8000_0000_0000_0000i128) as u128;
        proof {
            assert(a * 0x1_0000_0000_0000_0000 + b
                == (self.x + 0x8000_0000_0000_0000) * 0x1_0000_0000_0000_0000
                    + (self.y + 0x8000_0000_0000_0000)) by (nonlinear_arith)
                requires
                    a == self.x + 0x8000_0000_0000_0000,
                    b == self.y + 0x8000_0000_0000_0000;
            assert(a * 0x1_0000_0000_0000_0000 + b < 0x1_0000_0000_0000_0000_0000_0000_0000_0000)
                by (nonlinear_arith)
                requires
                    a < 0x1_0000_0000_0000_0000,
                    b < 0x1_0000_0000_0000_0000;
        }
        a * 0x1_0000_0000_0000_0000u128 + b
    }

    /// Both cell coordinates within the working range.
    pub open spec fn in_range(self) -> bool {
        -COORD_LIMIT <= self.x <= COORD_LIMIT && -COORD_LIMIT <= self.y <= COORD_LIMIT
    }

    /// The cell that holds the given fixed-point position.
    pub fn from_vec2f(vec: &Vec2f, resolution: i64) -> (r: Self)
        requires
            0 < resolution <= RESOLUTION_LIMIT,
            -0x4_0000_0000_0000 <= vec.x <= 0x4_0000_0000_0000,
            -0x4_0000_0000_0000 <= vec.y <= 0x4_0000_0000_0000,
        ensures
            r.x == cell_coord(vec.x as int, resolution as int),
            r.y == cell_coord(vec.y as int, resolution as int),
            (vec.in_range() ==> r.in_range()),
            r == SparseOccupancyIndex::of_point(*vec, resolution as int),
    {
        SparseOccupancyIndex {
            x: floor_div_coord(vec.x, resolution),
            y: floor_div_coord(vec.y, resolution),
        }
    }

    /// The cell holding `v`, as a spec-level value.
    pub open spec fn of_point(v: Vec2f, resolution: int) -> SparseOccupancyIndex {
        SparseOccupancyIndex {
            x: cell_coord(v.x as int, resolution) as i64,
            y: cell_coord(v.y as int, resolution) as i64,
        }
    }

    /// The fixed-point position of this cell's lower corner.
    pub fn to_vec2f(&self, resolution: i64) -> (r: Vec2f)
        requires
            0 < resolution <= RESOLUTION_LIMIT,
            self.in_range(),
        ensures
            r.x == self.x * resolution,
            r.y == self.y * resolution,
    {
        proof {
            assert(-COORD_LIMIT * RESOLUTION_LIMIT <= self.x * resolution <= COORD_LIMIT * RESOLUTION_LIMIT)
                by (nonlinear_arith)
                requires
                    -COORD_LIMIT <= self.x <= COORD_LIMIT,
                    0 < resolution <= RESOLUTION_LIMIT;
            assert(-COORD_LIMIT * RESOLUTION_LIMIT <= self.y * resolution <= COORD_LIMIT * RESOLUTION_LIMIT)
                by (nonlinear_arith)
                requires
                    -COORD_LIMIT <= self.y <= COORD_LIMIT,
                    0 < resolution <= RESOLUTION_LIMIT;
        }
        Vec2f { x: self.x * resolution, y: self.y * resolution }
    }
}

/// The cell of an in-range position is itself in range.
pub proof fn lemma_of_point_in_range(v: Vec2f, resolution: int)
    requires
        0 < resolution,
        v.in_range(),
    ensures
        SparseOccupancyIndex::of_point(v, resolution).in_range(),
{
    lemma_coord_div_in_range(v.x as int, resolution);
    lemma_coord_div_in_range(v.y as int, resolution);
}

proof fn lemma_coord_div_in_range(x: int, resolution: int)
    requires
        0 < resolution,
        -COORD_LIMIT <= x <= COORD_LIMIT,
    ensures
        -COORD_LIMIT <= cell_coord(x, resolution) <= COORD_LIMIT,
{
    lemma_fundamental_div_mod(x, resolution);
    vstd::arithmetic::div_mod::lemma_mod_bound(x, resolution);
    let q = x / resolution;
    let r = x % resolution;
    assert(resolution * q == x - r);
    assert(0 <= r < resolution);
    assert(q >= -0x4000_0000) by (nonlinear_arith)
        requires
            resolution * q == x - r,
            x >= -0x4000_0000,
            0 <= r < resolution,
            resolution >= 1;
    assert(q <= 0x4000_0000) by (nonlinear_arith)
        requires
            resolution * q == x - r,
            x <= 0x4000_0000,
            0 <= r,
            resolution >= 1;
}

/// The mathematical state of a sparse occupancy grid: the occupant set of
/// each (packed) cell, the cells claimed by each obstacle id, and the
/// resolution.
#[verifier::ext_equal]
pub struct GridModel {
    pub grid: Map<u128, Set<u32>>,
    pub entities: Map<u32, Seq<SparseOccupancyIndex>>,
    pub resolution: int,
}

/// Whether one of the first `n` cells of `cells` packs to the key `k`.
pub open spec fn covered_upto(cells: Seq<SparseOccupancyIndex>, n: int, k: u128) -> bool {
    exists|j: int| 0 <= j < n && j < cells.len() && cell_key(cells[j]) == k
}

/// Whether some cell of `cells` packs to the key `k`.
pub open spec fn covered(cells: Seq<SparseOccupancyIndex>, k: u128) -> bool {
    covered_upto(cells, cells.len() as int, k)
}

/// The cells of the discrete line between two cells.
pub open spec fn wall_cells(a: SparseOccupancyIndex, b: SparseOccupancyIndex) -> Seq<SparseOccupancyIndex> {
    crate::raster::bresenham_of((a.x, a.y), (b.x, b.y)).map_values(
        |p: (i64, i64)| SparseOccupancyIndex { x: p.0, y: p.1 },
    )
}

impl GridModel {
    /// The set of obstacle ids occupying cell `c`.
    pub open spec fn occupants(self, c: SparseOccupancyIndex) -> Set<u32> {
        if self.grid.contains_key(cell_key(c)) {
            self.grid[cell_key(c)]
        } else {
            Set::empty()
        }
    }

    /// The cells currently claimed by obstacle `id`.
    pub open spec fn cells_of(self, id: u32) -> Seq<SparseOccupancyIndex> {
        if self.entities.contains_key(id) {
            self.entities[id]
        } else {
            Seq::empty()
        }
    }

    /// Whether the corner of cell `c` lies within the known universe.
    pub open spec fn in_bounds(self, c: SparseOccupancyIndex) -> bool {
        (c.x * self.resolution) * (c.x * self.resolution)
            + (c.y * self.resolution) * (c.y * self.resolution)
            < KNOWN_RADIUS * KNOWN_RADIUS
    }

    /// The occupancy report for cell `c`: `Some(true)` if occupied,
    /// `Some(false)` if known free, `None` if outside the known universe
    /// and never marked.
    pub open spec fn occupancy_of(self, c: SparseOccupancyIndex) -> Option<bool> {
        if self.grid.contains_key(cell_key(c)) {
            Some(self.grid[cell_key(c)].len() > 0)
        } else if self.in_bounds(c) {
            Some(false)
        } else {
            None
        }
    }

    /// Obstacle `id` claims cell `c` in the inverse index.
    pub open spec fn entity_has(self, id: u32, c: SparseOccupancyIndex) -> bool {
        self.entities.contains_key(id) && self.entities[id].contains(c)
    }

    /// Obstacle `id` is in cell `c`'s occupant set.
    pub open spec fn occupant_has(self, id: u32, c: SparseOccupancyIndex) -> bool {
        self.grid.contains_key(cell_key(c)) && self.grid[cell_key(c)].contains(id)
    }

    /// The two indices agree: a cell is in an obstacle's cell list exactly
    /// when that obstacle is in the cell's occupant set.
    pub open spec fn consistent(self) -> bool {
        forall|id: u32, c: SparseOccupancyIndex|
            #![trigger self.entity_has(id, c)]
            #![trigger self.occupant_has(id, c)]
            self.entity_has(id, c) <==> self.occupant_has(id, c)
    }

    /// Every claimed cell lies in the working coordinate range.
    pub open spec fn cells_in_range(self) -> bool {
        forall|id: u32, j: int|
            self.entities.contains_key(id) && 0 <= j < self.entities[id].len()
                ==> (#[trigger] self.entities[id][j]).in_range()
    }

    /// Every key of the occupant map unpacks to a cell in the working
    /// coordinate range.
    pub open spec fn keys_in_range(self) -> bool {
        forall|k: u128| #[trigger] self.grid.contains_key(k) ==> key_cell(k).in_range()
    }

    /// Well-formed grid state.
    pub open spec fn wf(self) -> bool {
        &&& self.consistent()
        &&& self.cells_in_range()
        &&& self.keys_in_range()
        &&& 0 < self.resolution <= RESOLUTION_LIMIT
    }

    /// The grid state after obstacle `id` is set to the wall from cell `a`
    /// to cell `b`: `id` leaves every occupant set it was in, then claims
    /// exactly the cells of the discrete line between `a` and `b`.
    pub open spec fn wall_update(self, id: u32, a: SparseOccupancyIndex, b: SparseOccupancyIndex) -> GridModel {
        let cells = wall_cells(a, b);
        GridModel {
            grid: Map::new(
                |k: u128| self.grid.contains_key(k) || covered(cells, k),
                |k: u128|
                    {
                        let base = if self.grid.contains_key(k) {
                            self.grid[k].remove(id)
                        } else {
                            Set::empty()
                        };
                        if covered(cells, k) {
                            base.insert(id)
                        } else {
                            base
                        }
                    },
            ),
            entities: self.entities.insert(id, cells),
            resolution: self.resolution,
        }
    }
}

/// Updating the same wall twice with the same endpoints leaves the grid
/// exactly as one update does.
pub proof fn lemma_wall_update_idempotent(m: GridModel, id: u32, a: SparseOccupancyIndex, b: SparseOccupancyIndex)
    ensures
        m.wall_update(id, a, b).wall_update(id, a, b) == m.wall_update(id, a, b),
{
    let m1 = m.wall_update(id, a, b);
    let m2 = m1.wall_update(id, a, b);
    let cells = wall_cells(a, b);
    assert forall|k: u128| m1.grid.contains_key(k) implies m2.grid[k] =~= m1.grid[k] by {
        let base1 = if m.grid.contains_key(k) {
            m.grid[k].remove(id)
        } else {
            Set::<u32>::empty()
        };
        assert(base1.remove(id) =~= base1);
        if covered(cells, k) {
            assert(m1.grid[k] == base1.insert(id));
            assert(m1.grid[k].remove(id) =~= base1);
        }
    }
    assert(m2.grid =~~= m1.grid);
    assert(m2.entities =~~= m1.entities);
    assert(m2 =~~= m1);
}

/// A wall update keeps the two indices consistent.
pub proof fn lemma_wall_update_consistent(m: GridModel, id: u32, a: SparseOccupancyIndex, b: SparseOccupancyIndex)
    requires
        m.consistent(),
    ensures
        m.wall_update(id, a, b).consistent(),
{
    let m1 = m.wall_update(id, a, b);
    let cells = wall_cells(a, b);
    assert forall|id2: u32, c: SparseOccupancyIndex| m1.entity_has(id2, c) implies m1.occupant_has(
        id2,
        c,
    ) by {
        if id2 == id {
            let j = choose|j: int| 0 <= j < cells.len() && cells[j] == c;
            assert(cell_key(cells[j]) == cell_key(c));
            assert(covered(cells, cell_key(c)));
        } else {
            assert(m.entity_has(id2, c));
            assert(m.occupant_has(id2, c));
        }
    }
    assert forall|id2: u32, c: SparseOccupancyIndex| m1.occupant_has(id2, c) implies m1.entity_has(
        id2,
        c,
    ) by {
        let k = cell_key(c);
        if id2 == id {
            assert(covered(cells, k));
            let j = choose|j: int| 0 <= j < cells.len() && cell_key(cells[j]) == k;
            lemma_cell_key_injective(cells[j], c);
            assert(m1.entities[id].contains(c));
        } else {
            assert(m.grid.contains_key(k) && m.grid[k].contains(id2));
            assert(m.occupant_has(id2, c));
            assert(m.entity_has(id2, c));
        }
    }
}

/// A sparse 2D occupancy grid of wall segments, with an inverse index
/// from obstacle id to the cells it occupies.
pub struct SparseOccupancy {
    grid: HashMap<u128, HashSet<u32>>,
    entity_list: HashMap<u32, Vec<SparseOccupancyIndex>>,
    resolution: i64,
}

impl View for SparseOccupancy {
    type V = GridModel;

    closed spec fn view(&self) -> GridModel {
        GridModel {
            grid: self.grid@.map_values(|s: HashSet<u32>| s@),
            entities: self.entity_list@.map_values(|v: Vec<SparseOccupancyIndex>| v@),
            resolution: self.resolution as int,
        }
    }
}

/// The grid map after obstacle `id` has been removed from the occupant
/// sets of the first `n` listed cells.
pub open spec fn grid_clear_upto(
    g: Map<u128, Set<u32>>,
    id: u32,
    pts: Seq<SparseOccupancyIndex>,
    n: int,
) -> Map<u128, Set<u32>>
    decreases n,
{
    if n <= 0 {
        g
    } else {
        let prev = grid_clear_upto(g, id, pts, n - 1);
        let k = cell_key(pts[n - 1]);
        if prev.contains_key(k) {
            prev.insert(k, prev[k].remove(id))
        } else {
            prev
        }
    }
}

/// The grid map after obstacle `id` has been added to the occupant sets
/// of the first `n` listed cells.
pub open spec fn grid_mark_upto(
    g: Map<u128, Set<u32>>,
    id: u32,
    cells: Seq<SparseOccupancyIndex>,
    n: int,
) -> Map<u128, Set<u32>>
    decreases n,
{
    if n <= 0 {
        g
    } else {
        let prev = grid_mark_upto(g, id, cells, n - 1);
        let k = cell_key(cells[n - 1]);
        let base = if prev.contains_key(k) {
            prev[k]
        } else {
            Set::empty()
        };
        prev.insert(k, base.insert(id))
    }
}

proof fn lemma_grid_clear_upto(g: Map<u128, Set<u32>>, id: u32, pts: Seq<SparseOccupancyIndex>, n: int)
    requires
        0 <= n <= pts.len(),
    ensures
        grid_clear_upto(g, id, pts, n).dom() =~= g.dom(),
        forall|k: u128| #[trigger] g.contains_key(k) ==> grid_clear_upto(g, id, pts, n)[k] == (
        if covered_upto(pts, n, k) {
            g[k].remove(id)
        } else {
            g[k]
        }),
    decreases n,
{
    if n > 0 {
        lemma_grid_clear_upto(g, id, pts, n - 1);
        let prev = grid_clear_upto(g, id, pts, n - 1);
        let kk = cell_key(pts[n - 1]);
        assert forall|k: u128| #[trigger] g.contains_key(k) implies grid_clear_upto(g, id, pts, n)[k]
            == (if covered_upto(pts, n, k) {
            g[k].remove(id)
        } else {
            g[k]
        }) by {
            if k == kk {
                assert(covered_upto(pts, n, k));
                if covered_upto(pts, n - 1, k) {
                    assert(g[k].remove(id).remove(id) =~= g[k].remove(id));
                }
            } else {
                assert(covered_upto(pts, n, k) == covered_upto(pts, n - 1, k)) by {
                    if covered_upto(pts, n, k) {
                        let j = choose|j: int|
                            0 <= j < n && j < pts.len() && cell_key(pts[j]) == k;
                        assert(0 <= j < n - 1 && cell_key(pts[j]) == k);
                    }
                    if covered_upto(pts, n - 1, k) {
                        let j = choose|j: int|
                            0 <= j < n - 1 && j < pts.len() && cell_key(pts[j]) == k;
                        assert(0 <= j < n && cell_key(pts[j]) == k);
                    }
                }
            }
        }
    }
}

proof fn lemma_grid_mark_upto(g: Map<u128, Set<u32>>, id: u32, cells: Seq<SparseOccupancyIndex>, n: int)
    requires
        0 <= n <= cells.len(),
    ensures
        forall|k: u128|
            grid_mark_upto(g, id, cells, n).contains_key(k) <==> (g.contains_key(k)
                || covered_upto(cells, n, k)),
        forall|k: u128| #[trigger] grid_mark_upto(g, id, cells, n).contains_key(k)
            ==> grid_mark_upto(g, id, cells, n)[k] == (if covered_upto(cells, n, k) {
            (if g.contains_key(k) {
                g[k]
            } else {
                Set::empty()
            }).insert(id)
        } else {
            g[k]
        }),
    decreases n,
{
    if n > 0 {
        lemma_grid_mark_upto(g, id, cells, n - 1);
        let prev = grid_mark_upto(g, id, cells, n - 1);
        let kk = cell_key(cells[n - 1]);
        let base0 = if g.contains_key(kk) {
            g[kk]
        } else {
            Set::<u32>::empty()
        };
        assert forall|k: u128|
            grid_mark_upto(g, id, cells, n).contains_key(k) <==> (g.contains_key(k)
                || covered_upto(cells, n, k)) by {
            if k == kk {
                assert(cell_key(cells[n - 1]) == k);
                assert(covered_upto(cells, n, k));
            } else {
                if covered_upto(cells, n, k) {
                    let j = choose|j: int| 0 <= j < n && j < cells.len() && cell_key(cells[j]) == k;
                    assert(0 <= j < n - 1 && cell_key(cells[j]) == k);
                    assert(covered_upto(cells, n - 1, k));
                }
                if covered_upto(cells, n - 1, k) {
                    let j = choose|j: int|
                        0 <= j < n - 1 && j < cells.len() && cell_key(cells[j]) == k;
                    assert(0 <= j < n && cell_key(cells[j]) == k);
                    assert(covered_upto(cells, n, k));
                }
            }
        }
        assert forall|k: u128| #[trigger] grid_mark_upto(g, id, cells, n).contains_key(k)
            implies grid_mark_upto(g, id, cells, n)[k] == (if covered_upto(cells, n, k) {
            (if g.contains_key(k) {
                g[k]
            } else {
                Set::empty()
            }).insert(id)
        } else {
            g[k]
        }) by {
            if k == kk {
                assert(covered_upto(cells, n, k));
                if covered_upto(cells, n - 1, k) {
                    assert(base0.insert(id).insert(id) =~= base0.insert(id));
                }
            } else {
                assert(covered_upto(cells, n, k) == covered_upto(cells, n - 1, k)) by {
                    if covered_upto(cells, n, k) {
                        let j = choose|j: int|
                            0 <= j < n && j < cells.len() && cell_key(cells[j]) == k;
                        assert(0 <= j < n - 1 && cell_key(cells[j]) == k);
                    }
                    if covered_upto(cells, n - 1, k) {
                        let j = choose|j: int|
                            0 <= j < n - 1 && j < cells.len() && cell_key(cells[j]) == k;
                        assert(0 <= j < n && cell_key(cells[j]) == k);
                    }
                }
            }
        }
    }
}

impl SparseOccupancy {
    /// A fresh, empty grid at the given resolution (milli-units per cell).
    /// A non-positive resolution is a configuration error and is refused.
    pub fn new(resolution: i64) -> (r: Self)
        requires
            0 < resolution <= RESOLUTION_LIMIT,
        ensures
            r@.grid =~= Map::empty(),
            r@.entities =~= Map::empty(),
            r@.resolution == resolution,
            r@.wf(),
    {
        let r = SparseOccupancy {
            grid: HashMap::new(),
            entity_list: HashMap::new(),
            resolution,
        };
        proof {
            assert(r@.grid =~= Map::empty());
            assert(r@.entities =~= Map::empty());
        }
        r
    }

    /// The grid's resolution in milli-units per cell.
    pub fn resolution(&self) -> (r: i64)
        ensures
            r == self@.resolution,
    {
        self.resolution
    }

    /// Add obstacle `id` to the occupant set of one cell.
    fn mark(&mut self, index: &SparseOccupancyIndex, id: &u32)
        ensures
            final(self)@.grid == old(self)@.grid.insert(
                cell_key(*index),
                (if old(self)@.grid.contains_key(cell_key(*index)) {
                    old(self)@.grid[cell_key(*index)]
                } else {
                    Set::empty()
                }).insert(*id),
            ),
            final(self).entity_list == old(self).entity_list,
            final(self).resolution == old(self).resolution,
    {
        let k = index.key();
        let ghost target = old(self)@.grid.insert(
            cell_key(*index),
            (if old(self)@.grid.contains_key(cell_key(*index)) {
                old(self)@.grid[cell_key(*index)]
            } else {
                Set::empty()
            }).insert(*id),
        );
        match self.grid.remove(&k) {
            Some(s) => {
                let mut s = s;
                s.insert(*id);
                self.grid.insert(k, s);
            },
            None => {
                let mut s: HashSet<u32> = HashSet::new();
                s.insert(*id);
                self.grid.insert(k, s);
            },
        }
        proof {
            assert(self@.grid =~~= target);
        }
    }

    /// Whether the corner of `index` lies within the known universe.
    pub fn check_in_bounds(&self, index: &SparseOccupancyIndex) -> (r: bool)
        requires
            0 < self@.resolution <= RESOLUTION_LIMIT,
        ensures
            r == self@.in_bounds(*index),
    {
        proof {
            assert(-0x80000_0000_0000_0000_0000 <= (index.x as int) * (self.resolution as int)
                <= 0x80000_0000_0000_0000_0000 && -0x80000_0000_0000_0000_0000 <= (index.y as int)
                * (self.resolution as int) <= 0x80000_0000_0000_0000_0000) by (nonlinear_arith)
                requires
                    -0x8000_0000_0000_0000 <= index.x < 0x8000_0000_0000_0000,
                    -0x8000_0000_0000_0000 <= index.y < 0x8000_0000_0000_0000,
                    0 < self.resolution <= 1_000_000;
        }
        let px: i128 = (index.x as i128) * (self.resolution as i128);
        let py: i128 = (index.y as i128) * (self.resolution as i128);
        if px >= KNOWN_RADIUS as i128 || px <= -(KNOWN_RADIUS as i128) || py >= KNOWN_RADIUS as i128
            || py <= -(KNOWN_RADIUS as i128) {
            proof {
                assert(px * px + py * py >= KNOWN_RADIUS * KNOWN_RADIUS) by (nonlinear_arith)
                    requires
                        px >= KNOWN_RADIUS || px <= -KNOWN_RADIUS || py >= KNOWN_RADIUS || py
                            <= -KNOWN_RADIUS,
                        KNOWN_RADIUS > 0;
            }
            false
        } else {
            proof {
                assert(0 <= px * px <= 0x1_0000_0000_0000_0000 && 0 <= py * py
                    <= 0x1_0000_0000_0000_0000) by (nonlinear_arith)
                    requires
                        -20_000 <= px <= 20_000,
                        -20_000 <= py <= 20_000;
            }
            px * px + py * py < (KNOWN_RADIUS as i128) * (KNOWN_RADIUS as i128)
        }
    }

    /// The occupancy report for a cell.
    pub fn get_occupancy_from_idx(&self, index: &SparseOccupancyIndex) -> (r: Option<bool>)
        requires
            0 < self@.resolution <= RESOLUTION_LIMIT,
        ensures
            r == self@.occupancy_of(*index),
    {
        let k = index.key();
        match self.grid.get(&k) {
            Some(s) => Some(s.len() > 0),
            None => {
                if self.check_in_bounds(index) {
                    Some(false)
                } else {
                    None
                }
            },
        }
    }

    /// The occupancy report for the cell holding a fixed-point position.
    pub fn get_occupancy(&self, pt: &Vec2f) -> (r: Option<bool>)
        requires
            0 < self@.resolution <= RESOLUTION_LIMIT,
            pt.in_range(),
        ensures
            r == self@.occupancy_of(SparseOccupancyIndex::of_point(*pt, self@.resolution)),
    {
        let index = SparseOccupancyIndex::from_vec2f(pt, self.resolution);
        self.get_occupancy_from_idx(&index)
    }

    /// Add or update a wall: clear every cell previously claimed by `id`,
    /// then rasterize the segment between the two endpoints and claim
    /// exactly those cells.
    pub fn add_or_update_wall(&mut self, id: &u32, start: &Vec2f, end: &Vec2f)
        requires
            old(self)@.wf(),
            start.in_range(),
            end.in_range(),
        ensures
            final(self)@ == old(self)@.wall_update(
                *id,
                SparseOccupancyIndex::of_point(*start, old(self)@.resolution),
                SparseOccupancyIndex::of_point(*end, old(self)@.resolution),
            ),
            final(self)@.wf(),
    {
        let ghost m0 = self@;
        let s = SparseOccupancyIndex::from_vec2f(start, self.resolution);
        let e = SparseOccupancyIndex::from_vec2f(end, self.resolution);
        let ghost g0 = self@.grid;

        // Clear the cells the obstacle held before.
        let old_points = self.entity_list.remove(id);
        match old_points {
            Some(points) => {
                let ghost pts = points@;
                proof {
                    assert(m0.entities.contains_key(*id) && m0.entities[*id] == pts);
                }
                let mut i: usize = 0;
                while i < points.len()
                    invariant
                        0 <= i <= pts.len(),
                        points@ == pts,
                        self.grid@.map_values(|s: HashSet<u32>| s@) == grid_clear_upto(
                            g0,
                            *id,
                            pts,
                            i as int,
                        ),
                        self.entity_list@ == old(self).entity_list@.remove(*id),
                        self.resolution == old(self).resolution,
                    decreases pts.len() - i,
                {
                    let k = points[i].key();
                    let ghost gprev = self.grid@.map_values(|s: HashSet<u32>| s@);
                    match self.grid.remove(&k) {
                        Some(s) => {
                            let mut s = s;
                            s.remove(id);
                            self.grid.insert(k, s);
                            proof {
                                assert(self.grid@.map_values(|s: HashSet<u32>| s@)
                                    =~~= gprev.insert(k, gprev[k].remove(*id)));
                            }
                        },
                        None => {
                        },
                    }
                    i += 1;
                }
                proof {
                    lemma_grid_clear_upto(g0, *id, pts, pts.len() as int);
                }
            },
            None => {
            },
        }

        // Every occupant set is now free of `id`: where the obstacle was
        // listed the clearing removed it, and by consistency it appeared
        // nowhere else.
        let ghost gcleared = self.grid@.map_values(|s: HashSet<u32>| s@);
        proof {
            assert(gcleared.dom() =~= g0.dom());
            assert forall|k: u128| #[trigger] g0.contains_key(k) implies gcleared[k] =~= g0[k].remove(
                *id,
            ) by {
                let cleared_covered = m0.entities.contains_key(*id) && covered_upto(
                    m0.entities[*id],
                    m0.entities[*id].len() as int,
                    k,
                );
                if !cleared_covered && g0[k].contains(*id) {
                    let c = key_cell(k);
                    lemma_key_cell_of_key(k);
                    assert(m0.occupant_has(*id, c));
                    assert(m0.entity_has(*id, c));
                    let j = choose|j: int|
                        0 <= j < m0.entities[*id].len() && m0.entities[*id][j] == c;
                    assert(covered_upto(m0.entities[*id], m0.entities[*id].len() as int, k));
                }
            }
        }

        // Rasterize the new segment and claim its cells.
        let cells = crate::raster::bresenham_line((s.x, s.y), (e.x, e.y));
        let ghost cellseq = wall_cells(s, e);
        let mut occupancy: Vec<SparseOccupancyIndex> = Vec::new();
        let mut i: usize = 0;
        while i < cells.len()
            invariant
                0 <= i <= cells@.len(),
                cells@ == crate::raster::bresenham_of((s.x, s.y), (e.x, e.y)),
                cellseq == wall_cells(s, e),
                cellseq.len() == cells@.len(),
                forall|j: int| 0 <= j < cells@.len() ==> cellseq[j] == (SparseOccupancyIndex {
                    x: cells@[j].0,
                    y: cells@[j].1,
                }),
                occupancy@ == cellseq.take(i as int),
                self.grid@.map_values(|s: HashSet<u32>| s@) == grid_mark_upto(
                    gcleared,
                    *id,
                    cellseq,
                    i as int,
                ),
                self.entity_list@ == old(self).entity_list@.remove(*id),
                self.resolution == old(self).resolution,
            decreases cells@.len() - i,
        {
            let idx = SparseOccupancyIndex { x: cells[i].0, y: cells[i].1 };
            let ghost gprev = self.grid@.map_values(|s: HashSet<u32>| s@);
            self.mark(&idx, id);
            proof {
                assert(self.grid@.map_values(|s: HashSet<u32>| s@) =~~= grid_mark_upto(
                    gcleared,
                    *id,
                    cellseq,
                    i as int + 1,
                ));
                assert(occupancy@.push(idx) =~= cellseq.take(i as int + 1));
            }
            occupancy.push(idx);
            i += 1;
        }
        self.entity_list.insert(*id, occupancy);

        proof {
            lemma_grid_mark_upto(gcleared, *id, cellseq, cellseq.len() as int);
            let target = m0.wall_update(
                *id,
                SparseOccupancyIndex::of_point(*start, m0.resolution),
                SparseOccupancyIndex::of_point(*end, m0.resolution),
            );
            assert(self@.grid =~~= target.grid);
            assert(self@.entities =~~= target.entities);
            assert(self@ =~~= target);
            lemma_wall_update_consistent(m0, *id, s, e);
            assert forall|id2: u32, j: int|
                self@.entities.contains_key(id2) && 0 <= j < self@.entities[id2].len() implies (
            #[trigger] self@.entities[id2][j]).in_range() by {
                if id2 == *id {
                    assert(crate::raster::in_box(
                        crate::raster::bresenham_of((s.x, s.y), (e.x, e.y))[j],
                        (s.x, s.y),
                        (e.x, e.y),
                    ));
                } else {
                    assert(m0.entities.contains_key(id2) && m0.entities[id2][j].in_range());
                }
            }
            assert forall|k: u128| #[trigger] self@.grid.contains_key(k) implies key_cell(
                k,
            ).in_range() by {
                if m0.grid.contains_key(k) {
                } else {
                    assert(covered(cellseq, k));
                    let j = choose|j: int|
                        0 <= j < cellseq.len() && cell_key(cellseq[j]) == k;
                    lemma_cell_key_roundtrip(cellseq[j]);
                    assert(crate::raster::in_box(
                        crate::raster::bresenham_of((s.x, s.y), (e.x, e.y))[j],
                        (s.x, s.y),
                        (e.x, e.y),
                    ));
                }
            }
        }
    }
}

} // verus!
