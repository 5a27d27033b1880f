//! Best-first path planner: searches the 8-connected occupancy graph
//! from a source cell to a target cell and produces a timed trajectory
//! of cell-center waypoints at the nominal speed of one distance unit
//! per second.

use vstd::prelude::*;
use vstd::arithmetic::div_mod::lemma_fundamental_div_mod;
use std::collections::HashSet;
use crate::geometry::Vec2f;
use crate::graph::{
    adjacent8, all_neighbors_blocked, cell_center, cell_center_at, edges_upto, is_free,
    lemma_adjacent8_symmetric, lemma_center_cell, lemma_edges_upto, lemma_free_in_range,
};
use crate::occupancy::{GridModel, SparseOccupancy, SparseOccupancyIndex, RESOLUTION_LIMIT};

verus! {

broadcast use vstd::std_specs::hash::group_hash_axioms;

/// How many cells the search may expand before giving up; exhausting the
/// budget is an internal search failure, reported as "no plan".
pub const SEARCH_BUDGET: usize = 100_000;

/// A position on a trajectory together with its arrival time
/// (milliseconds from the start of the plan).
#[derive(Clone, Copy, Debug, PartialEq, Eq, Structural)]
pub struct Waypoint {
    pub position: Vec2f,
    pub time: i64,
}

/// A timed sequence of waypoints produced by one planning call.
#[derive(Debug)]
pub struct Trajectory {
    pub waypoints: Vec<Waypoint>,
}

impl View for Trajectory {
    type V = Seq<Waypoint>;

    open spec fn view(&self) -> Seq<Waypoint> {
        self.waypoints@
    }
}

/// Magnitude of an integer.
pub open spec fn iabs(a: int) -> int {
    if a < 0 {
        -a
    } else {
        a
    }
}

/// Timestamps strictly increase, and no segment moves faster than one
/// milli-unit per millisecond (the nominal speed) in either axis.
pub open spec fn speed_bounded(wps: Seq<Waypoint>) -> bool {
    forall|i: int|
        0 <= i < wps.len() - 1 ==> (#[trigger] wps[i]).time < wps[i + 1].time && wps[i + 1].time
            - wps[i].time >= iabs(wps[i + 1].position.x - wps[i].position.x) && wps[i + 1].time
            - wps[i].time >= iabs(wps[i + 1].position.y - wps[i].position.y)
}

/// Largest waypoint coordinate magnitude a well-formed trajectory holds.
pub const WP_POS_LIMIT: i64 = 0x4_0000_0000_0000;

/// Largest waypoint timestamp a well-formed trajectory holds.
pub const WP_TIME_LIMIT: i64 = 0x400_0000_0000;

/// A well-formed trajectory: speed-bounded, with positions and
/// timestamps inside the working ranges.
pub open spec fn traj_wf(wps: Seq<Waypoint>) -> bool {
    &&& speed_bounded(wps)
    &&& forall|i: int|
        0 <= i < wps.len() ==> iabs((#[trigger] wps[i]).position.x as int) <= WP_POS_LIMIT && iabs(
            wps[i].position.y as int,
        ) <= WP_POS_LIMIT && 0 <= wps[i].time <= WP_TIME_LIMIT
}

/// The cell a waypoint lies in.
pub open spec fn wp_cell(w: Waypoint, resolution: int) -> SparseOccupancyIndex {
    SparseOccupancyIndex::of_point(w.position, resolution)
}

/// What a successful plan returns: a non-empty speed-bounded trajectory
/// of cell centers that starts at time zero in the source's cell, ends in
/// the target's cell, hops only between 8-adjacent cells, and crosses
/// only cells the grid knows to be free (the source cell excepted).
pub open spec fn plan_traj_ok(m: GridModel, source: Vec2f, target: Vec2f, wps: Seq<Waypoint>) -> bool {
    let res = m.resolution;
    let src = SparseOccupancyIndex::of_point(source, res);
    let tgt = SparseOccupancyIndex::of_point(target, res);
    &&& wps.len() >= 1
    &&& wps[0].time == 0
    &&& speed_bounded(wps)
    &&& traj_wf(wps)
    &&& wp_cell(wps[0], res) == src
    &&& wp_cell(wps[wps.len() - 1], res) == tgt
    &&& forall|i: int|
        0 <= i < wps.len() ==> (#[trigger] wps[i]).position == cell_center(wp_cell(wps[i], res), res)
    &&& forall|i: int|
        0 <= i < wps.len() - 1 ==> adjacent8(wp_cell(#[trigger] wps[i], res), wp_cell(wps[i + 1], res))
    &&& forall|i: int| 1 <= i < wps.len() ==> is_free(m, wp_cell(#[trigger] wps[i], res))
}

/// A chain of cells from `src`: consecutive cells 8-adjacent, every cell
/// after the first known free, all cells in the working range.
pub open spec fn valid_cell_path(m: GridModel, p: Seq<SparseOccupancyIndex>, src: SparseOccupancyIndex) -> bool {
    &&& p.len() >= 1
    &&& p[0] == src
    &&& forall|i: int| 0 <= i < p.len() ==> (#[trigger] p[i]).in_range()
    &&& forall|i: int| 0 <= i < p.len() - 1 ==> adjacent8(#[trigger] p[i], p[i + 1])
    &&& forall|i: int| 1 <= i < p.len() ==> is_free(m, #[trigger] p[i])
}

/// Travel time (milliseconds) between two adjacent cells at nominal
/// speed: the resolution for a compass-straight hop, about sqrt(2) times
/// that for a diagonal one.
pub open spec fn seg_cost(resolution: int, a: SparseOccupancyIndex, b: SparseOccupancyIndex) -> int {
    if a.x != b.x && a.y != b.y {
        resolution * 1414 / 1000
    } else {
        resolution
    }
}

proof fn lemma_diag_cost_bounds(resolution: int)
    requires
        0 < resolution <= RESOLUTION_LIMIT,
    ensures
        resolution <= resolution * 1414 / 1000 <= 2 * resolution,
{
    lemma_fundamental_div_mod(resolution * 1414, 1000);
    let q = resolution * 1414 / 1000;
    let r = resolution * 1414 % 1000;
    assert(1000 * q == resolution * 1414 - r);
    if resolution >= 3 {
        assert(1000 * q >= 1000 * resolution);
    } else if resolution == 1 {
        assert(q == 1414int / 1000int);
    } else {
        assert(q == 2828int / 1000int);
    }
    assert(1000 * q <= 2000 * resolution);
}

/// The direct-travel estimate as a formula: diagonal hops for the
/// shorter axis delta, straight hops for the rest.
pub open spec fn heuristic_spec(resolution: int, a: SparseOccupancyIndex, t: SparseOccupancyIndex) -> int {
    let dx = iabs(a.x - t.x);
    let dy = iabs(a.y - t.y);
    let mn = if dx < dy {
        dx
    } else {
        dy
    };
    let mx = if dx < dy {
        dy
    } else {
        dx
    };
    mn * (resolution * 1414 / 1000) + (mx - mn) * resolution
}

/// A frontier entry as the search's mathematical state: a cell, its
/// accumulated travel time, its ordering estimate, and the path that
/// reached it.
pub struct SearchNode {
    pub cell: SparseOccupancyIndex,
    pub g: int,
    pub f: int,
    pub path: Seq<SparseOccupancyIndex>,
}

/// The earliest index of the minimal estimate among the first `j`
/// frontier entries.
pub open spec fn min_f_upto(open: Seq<SearchNode>, j: int) -> int
    decreases j,
{
    if j <= 1 {
        0
    } else {
        let b = min_f_upto(open, j - 1);
        if open[j - 1].f < open[b].f {
            j - 1
        } else {
            b
        }
    }
}

/// One expansion step folded over the first `ei` direction edges: each
/// unseen free neighbor joins the frontier and is marked seen.
pub open spec fn expand_upto(
    edges: Seq<(SparseOccupancyIndex, SparseOccupancyIndex)>,
    ei: int,
    resolution: int,
    node: SearchNode,
    tgt: SparseOccupancyIndex,
    open: Seq<SearchNode>,
    seen: Set<u128>,
) -> (Seq<SearchNode>, Set<u128>)
    decreases ei,
{
    if ei <= 0 {
        (open, seen)
    } else {
        let prev = expand_upto(edges, ei - 1, resolution, node, tgt, open, seen);
        let n = edges[ei - 1].1;
        let k = crate::occupancy::cell_key(n);
        if prev.1.contains(k) {
            prev
        } else {
            let ng = node.g + seg_cost(resolution, node.cell, n);
            (
                prev.0.push(
                    SearchNode {
                        cell: n,
                        g: ng,
                        f: ng + heuristic_spec(resolution, n, tgt),
                        path: node.path.push(n),
                    },
                ),
                prev.1.insert(k),
            )
        }
    }
}

/// The search's result from a frontier state: pop the best entry, stop
/// on the target, otherwise expand and recurse, giving up when the
/// frontier empties or the budget runs out. Cells are marked seen on
/// generation rather than expansion, so results are not always of
/// minimal duration.
pub open spec fn search_from(
    m: GridModel,
    tgt: SparseOccupancyIndex,
    open: Seq<SearchNode>,
    seen: Set<u128>,
    iters: int,
) -> Option<Seq<SparseOccupancyIndex>>
    decreases SEARCH_BUDGET - iters,
{
    if iters >= SEARCH_BUDGET || iters < 0 || open.len() == 0 {
        None
    } else {
        let b = min_f_upto(open, open.len() as int);
        let node = open[b];
        if node.cell == tgt {
            Some(node.path)
        } else {
            let edges = edges_upto(m, node.cell, 8);
            let next = expand_upto(
                edges,
                edges.len() as int,
                m.resolution,
                node,
                tgt,
                open.remove(b),
                seen,
            );
            search_from(m, tgt, next.0, next.1, iters + 1)
        }
    }
}

/// The cell path a planning call returns, as a function of the grid
/// state and the two endpoints alone.
pub open spec fn plan_spec(m: GridModel, source: Vec2f, target: Vec2f) -> Option<
    Seq<SparseOccupancyIndex>,
> {
    let src = SparseOccupancyIndex::of_point(source, m.resolution);
    let tgt = SparseOccupancyIndex::of_point(target, m.resolution);
    if src == tgt {
        Some(seq![src])
    } else {
        search_from(
            m,
            tgt,
            seq![
                SearchNode {
                    cell: src,
                    g: 0,
                    f: heuristic_spec(m.resolution, src, tgt),
                    path: seq![src],
                }
            ],
            Set::empty().insert(crate::occupancy::cell_key(src)),
            0,
        )
    }
}

proof fn lemma_expand_upto_src(
    edges: Seq<(SparseOccupancyIndex, SparseOccupancyIndex)>,
    ei: int,
    resolution: int,
    node: SearchNode,
    tgt: SparseOccupancyIndex,
    open: Seq<SearchNode>,
    seen: Set<u128>,
    src: SparseOccupancyIndex,
)
    requires
        node.path.len() >= 1 && node.path[0] == src,
        forall|i: int|
            0 <= i < open.len() ==> (#[trigger] open[i]).path.len() >= 1 && open[i].path[0] == src,
    ensures
        forall|i: int|
            0 <= i < expand_upto(edges, ei, resolution, node, tgt, open, seen).0.len() ==> (
            #[trigger] expand_upto(edges, ei, resolution, node, tgt, open, seen).0[i]).path.len()
                >= 1 && expand_upto(edges, ei, resolution, node, tgt, open, seen).0[i].path[0]
                == src,
    decreases ei,
{
    if ei > 0 {
        lemma_expand_upto_src(edges, ei - 1, resolution, node, tgt, open, seen, src);
        let prev = expand_upto(edges, ei - 1, resolution, node, tgt, open, seen);
        let cur = expand_upto(edges, ei, resolution, node, tgt, open, seen);
        assert forall|i: int|
            0 <= i < cur.0.len() implies (#[trigger] cur.0[i]).path.len() >= 1 && cur.0[i].path[0]
                == src by {
            if i < prev.0.len() {
                assert(cur.0[i] == prev.0[i]);
            }
        }
    }
}

proof fn lemma_search_from_src(
    m: GridModel,
    tgt: SparseOccupancyIndex,
    open: Seq<SearchNode>,
    seen: Set<u128>,
    iters: int,
    src: SparseOccupancyIndex,
)
    requires
        0 <= iters,
        forall|i: int|
            0 <= i < open.len() ==> (#[trigger] open[i]).path.len() >= 1 && open[i].path[0] == src,
    ensures
        (search_from(m, tgt, open, seen, iters) matches Some(p) ==> p.len() >= 1 && p[0] == src),
    decreases SEARCH_BUDGET - iters,
{
    if iters < SEARCH_BUDGET && open.len() > 0 {
        let b = min_f_upto(open, open.len() as int);
        lemma_min_f_upto_bounds(open, open.len() as int);
        let node = open[b];
        if node.cell != tgt {
            let edges = edges_upto(m, node.cell, 8);
            assert forall|i: int|
                0 <= i < open.remove(b).len() implies (#[trigger] open.remove(b)[i]).path.len()
                    >= 1 && open.remove(b)[i].path[0] == src by {
                if i < b {
                    assert(open.remove(b)[i] == open[i]);
                } else {
                    assert(open.remove(b)[i] == open[i + 1]);
                }
            }
            lemma_expand_upto_src(
                edges,
                edges.len() as int,
                m.resolution,
                node,
                tgt,
                open.remove(b),
                seen,
                src,
            );
            let next = expand_upto(
                edges,
                edges.len() as int,
                m.resolution,
                node,
                tgt,
                open.remove(b),
                seen,
            );
            lemma_search_from_src(m, tgt, next.0, next.1, iters + 1, src);
        }
    }
}

proof fn lemma_min_f_upto_bounds(open: Seq<SearchNode>, j: int)
    requires
        1 <= j <= open.len(),
    ensures
        0 <= min_f_upto(open, j) < j,
    decreases j,
{
    if j > 1 {
        lemma_min_f_upto_bounds(open, j - 1);
    }
}

/// A planned cell path starts in the source's cell.
pub proof fn lemma_plan_spec_starts_at_source(m: GridModel, source: Vec2f, target: Vec2f)
    ensures
        (plan_spec(m, source, target) matches Some(p) ==> p.len() >= 1 && p[0]
            == SparseOccupancyIndex::of_point(source, m.resolution)),
{
    let src = SparseOccupancyIndex::of_point(source, m.resolution);
    let tgt = SparseOccupancyIndex::of_point(target, m.resolution);
    if src != tgt {
        let open0 = seq![
            SearchNode {
                cell: src,
                g: 0,
                f: heuristic_spec(m.resolution, src, tgt),
                path: seq![src],
            }
        ];
        assert(open0[0].path[0] == src);
        lemma_search_from_src(
            m,
            tgt,
            open0,
            Set::empty().insert(crate::occupancy::cell_key(src)),
            0,
            src,
        );
    }
}

/// The arrival time of the `i`-th cell on a path at nominal speed.
pub open spec fn path_times(resolution: int, p: Seq<SparseOccupancyIndex>, i: int) -> int
    decreases i,
{
    if i <= 0 {
        0
    } else {
        path_times(resolution, p, i - 1) + seg_cost(resolution, p[i - 1], p[i])
    }
}

/// The waypoint sequence a cell path determines: its cell centers, each
/// at its nominal-speed arrival time.
pub open spec fn path_waypoints(resolution: int, p: Seq<SparseOccupancyIndex>) -> Seq<Waypoint> {
    Seq::new(
        p.len(),
        |i: int|
            Waypoint {
                position: cell_center(p[i], resolution),
                time: path_times(resolution, p, i) as i64,
            },
    )
}

/// A waypoint sequence is the one its cell path determines.
pub proof fn lemma_traj_matches_is_path_waypoints(
    resolution: int,
    p: Seq<SparseOccupancyIndex>,
    wps: Seq<Waypoint>,
)
    requires
        traj_matches_path(resolution, p, wps),
    ensures
        wps == path_waypoints(resolution, p),
{
    assert(wps =~= path_waypoints(resolution, p));
}

/// The trajectory a cell path determines: its cell centers, each at its
/// nominal-speed arrival time.
pub open spec fn traj_matches_path(resolution: int, p: Seq<SparseOccupancyIndex>, wps: Seq<Waypoint>) -> bool {
    &&& wps.len() == p.len()
    &&& forall|i: int|
        0 <= i < p.len() ==> #[trigger] wps[i] == (Waypoint {
            position: cell_center(p[i], resolution),
            time: path_times(resolution, p, i) as i64,
        })
}

/// Planning is deterministic: any two trajectories built from the same
/// grid state, source and target are identical waypoint for waypoint.
pub proof fn lemma_planning_deterministic(
    m: GridModel,
    source: Vec2f,
    target: Vec2f,
    t1: Seq<Waypoint>,
    t2: Seq<Waypoint>,
)
    requires
        plan_spec(m, source, target) matches Some(p1) && traj_matches_path(m.resolution, p1, t1),
        plan_spec(m, source, target) matches Some(p2) && traj_matches_path(m.resolution, p2, t2),
    ensures
        t1 == t2,
{
    let p = plan_spec(m, source, target)->Some_0;
    assert(t1 =~= t2);
}

/// Compute the travel time between two adjacent cells.
fn seg_cost_at(resolution: i64, a: &SparseOccupancyIndex, b: &SparseOccupancyIndex) -> (r: i64)
    requires
        0 < resolution <= RESOLUTION_LIMIT,
    ensures
        r == seg_cost(resolution as int, *a, *b),
        resolution <= r <= 2 * resolution,
{
    if a.x != b.x && a.y != b.y {
        proof {
            lemma_diag_cost_bounds(resolution as int);
        }
        resolution * 1414 / 1000
    } else {
        resolution
    }
}

/// Octile direct-travel estimate from `a` to `t`, used to order the
/// search frontier.
fn heuristic(resolution: i64, a: &SparseOccupancyIndex, t: &SparseOccupancyIndex) -> (r: i64)
    requires
        0 < resolution <= RESOLUTION_LIMIT,
        a.in_range(),
        t.in_range(),
    ensures
        0 <= r <= 0x100_0000_0000_0000,
        r == heuristic_spec(resolution as int, *a, *t),
{
    let dx = if a.x >= t.x {
        a.x - t.x
    } else {
        t.x - a.x
    };
    let dy = if a.y >= t.y {
        a.y - t.y
    } else {
        t.y - a.y
    };
    let mn = if dx < dy {
        dx
    } else {
        dy
    };
    let mx = if dx < dy {
        dy
    } else {
        dx
    };
    let diag = resolution * 1414 / 1000;
    proof {
        lemma_diag_cost_bounds(resolution as int);
        assert(0 <= mn * diag <= 0x80_0000_0000_0000 && 0 <= (mx - mn) * resolution
            <= 0x80_0000_0000_0000) by (nonlinear_arith)
            requires
                0 <= mn <= 0x1_0000_0000,
                0 <= mx - mn <= 0x1_0000_0000,
                0 <= diag <= 2_000_000,
                0 < resolution <= 1_000_000;
    }
    mn * diag + (mx - mn) * resolution
}

/// Copy a path.
fn clone_path(p: &Vec<SparseOccupancyIndex>) -> (r: Vec<SparseOccupancyIndex>)
    ensures
        r@ == p@,
{
    let mut r: Vec<SparseOccupancyIndex> = Vec::new();
    let mut i: usize = 0;
    while i < p.len()
        invariant
            0 <= i <= p@.len(),
            r@ == p@.take(i as int),
        decreases p@.len() - i,
    {
        r.push(p[i]);
        proof {
            assert(r@ =~= p@.take(i as int + 1));
        }
        i += 1;
    }
    proof {
        assert(p@.take(p@.len() as int) =~= p@);
    }
    r
}

/// A search frontier entry: a cell, the accumulated travel time to it,
/// its ordering estimate, and the path that reached it.
struct Node {
    cell: SparseOccupancyIndex,
    g: i64,
    f: i64,
    path: Vec<SparseOccupancyIndex>,
}

spec fn node_ok(m: GridModel, src: SparseOccupancyIndex, node: Node) -> bool {
    &&& valid_cell_path(m, node.path@, src)
    &&& node.path@[node.path@.len() - 1] == node.cell
    &&& 0 <= node.g <= 2_000_000 * (node.path@.len() - 1)
}

spec fn open_ok(m: GridModel, src: SparseOccupancyIndex, open: Seq<Node>, iters: int) -> bool {
    forall|i: int|
        0 <= i < open.len() ==> node_ok(m, src, #[trigger] open[i]) && open[i].path@.len() <= iters
            + 1
}

/// Adjacent cells differ by at most one in each coordinate.
proof fn lemma_adjacent_delta(a: SparseOccupancyIndex, b: SparseOccupancyIndex)
    requires
        adjacent8(a, b),
        a.in_range(),
        b.in_range(),
    ensures
        iabs(b.x - a.x) <= 1,
        iabs(b.y - a.y) <= 1,
        b.x != a.x || b.y != a.y,
{
    let k = choose|k: int| 0 <= k < 8 && crate::graph::nth_neighbor(a, k) == b;
    assert(crate::graph::nth_neighbor(a, k) == b);
}

/// Turn a cell path into a timed trajectory of cell centers.
fn build_trajectory(path: &Vec<SparseOccupancyIndex>, resolution: i64) -> (t: Trajectory)
    requires
        0 < resolution <= RESOLUTION_LIMIT,
        1 <= path@.len() <= SEARCH_BUDGET + 1,
        forall|i: int| 0 <= i < path@.len() ==> (#[trigger] path@[i]).in_range(),
        forall|i: int| 0 <= i < path@.len() - 1 ==> adjacent8(#[trigger] path@[i], path@[i + 1]),
    ensures
        t@.len() == path@.len(),
        t@[0].time == 0,
        speed_bounded(t@),
        traj_wf(t@),
        forall|i: int|
            0 <= i < path@.len() ==> (#[trigger] t@[i]).position == cell_center(
                path@[i],
                resolution as int,
            ),
        forall|i: int|
            0 <= i < path@.len() ==> (#[trigger] t@[i]).time == path_times(
                resolution as int,
                path@,
                i,
            ),
    {
    let mut wps: Vec<Waypoint> = Vec::new();
    let mut time: i64 = 0;
    let mut i: usize = 0;
    while i < path.len()
        invariant
            0 < resolution <= RESOLUTION_LIMIT,
            1 <= path@.len() <= SEARCH_BUDGET + 1,
            0 <= i <= path@.len(),
            wps@.len() == i,
            forall|j: int| 0 <= j < path@.len() ==> (#[trigger] path@[j]).in_range(),
            forall|j: int| 0 <= j < path@.len() - 1 ==> adjacent8(#[trigger] path@[j], path@[j + 1]),
            forall|j: int|
                0 <= j < i ==> (#[trigger] wps@[j]).position == cell_center(
                    path@[j],
                    resolution as int,
                ) && wps@[j].position.x == path@[j].x * resolution + resolution / 2
                    && wps@[j].position.y == path@[j].y * resolution + resolution / 2,
            i > 0 ==> wps@[0].time == 0,
            speed_bounded(wps@),
            forall|j: int|
                0 <= j < i ==> 0 <= (#[trigger] wps@[j]).time <= 2_000_000 * j,
            forall|j: int|
                0 <= j < i ==> iabs((#[trigger] wps@[j]).position.x as int) <= WP_POS_LIMIT && iabs(
                    wps@[j].position.y as int,
                ) <= WP_POS_LIMIT,
            0 <= time <= 2_000_000 * i,
            (i > 0 && i < path@.len() ==> time - wps@[i as int - 1].time == seg_cost(
                resolution as int,
                path@[i as int - 1],
                path@[i as int],
            )),
            (i > 0 && i >= path@.len() ==> time == wps@[i as int - 1].time),
            (i < path@.len() ==> time == path_times(resolution as int, path@, i as int)),
            forall|j: int|
                0 <= j < i ==> (#[trigger] wps@[j]).time == path_times(
                    resolution as int,
                    path@,
                    j,
                ),
        decreases path@.len() - i,
    {
        let pos = cell_center_at(&path[i], resolution);
        proof {
            assert(pos.x == path@[i as int].x * resolution + resolution / 2);
            assert(pos.y == path@[i as int].y * resolution + resolution / 2);
        }
        let w = Waypoint { position: pos, time };
        proof {
            if i > 0 {
                lemma_adjacent_delta(path@[i - 1 as int], path@[i as int]);
                assert(iabs(pos.x - wps@[i - 1].position.x) <= resolution && iabs(
                    pos.y - wps@[i - 1].position.y,
                ) <= resolution) by (nonlinear_arith)
                    requires
                        pos.x == path@[i as int].x * resolution + resolution / 2,
                        pos.y == path@[i as int].y * resolution + resolution / 2,
                        wps@[i - 1].position.x == path@[i - 1 as int].x * resolution + resolution
                            / 2,
                        wps@[i - 1].position.y == path@[i - 1 as int].y * resolution + resolution
                            / 2,
                        iabs(path@[i as int].x - path@[i - 1 as int].x) <= 1,
                        iabs(path@[i as int].y - path@[i - 1 as int].y) <= 1,
                        0 < resolution,
                        -0x4000_0000 <= path@[i as int].x <= 0x4000_0000,
                        -0x4000_0000 <= path@[i - 1 as int].x <= 0x4000_0000,
                        -0x4000_0000 <= path@[i as int].y <= 0x4000_0000,
                        -0x4000_0000 <= path@[i - 1 as int].y <= 0x4000_0000;
                assert(time - wps@[i - 1].time >= resolution);
                assert(speed_bounded(wps@.push(w)));
            }
        }
        wps.push(w);
        if i + 1 < path.len() {
            let c = seg_cost_at(resolution, &path[i], &path[i + 1]);
            time = time + c;
        }
        i += 1;
    }
    proof {
        assert forall|j: int| 0 <= j < wps@.len() implies iabs(
            (#[trigger] wps@[j]).position.x as int,
        ) <= WP_POS_LIMIT && iabs(wps@[j].position.y as int) <= WP_POS_LIMIT && 0 <= wps@[j].time
            <= WP_TIME_LIMIT by {
            assert(0 <= wps@[j].time <= 2_000_000 * j);
            assert(2_000_000 * j <= 2_000_000 * 100_000);
        }
    }
    Trajectory { waypoints: wps }
}

spec fn abs_node(n: Node) -> SearchNode {
    SearchNode { cell: n.cell, g: n.g as int, f: n.f as int, path: n.path@ }
}

spec fn abs_open(s: Seq<Node>) -> Seq<SearchNode> {
    s.map_values(|n: Node| abs_node(n))
}

proof fn lemma_abs_open_remove(s: Seq<Node>, b: int)
    requires
        0 <= b < s.len(),
    ensures
        abs_open(s.remove(b)) == abs_open(s).remove(b),
{
    assert(abs_open(s.remove(b)) =~= abs_open(s).remove(b));
}

proof fn lemma_abs_open_push(s: Seq<Node>, x: Node)
    ensures
        abs_open(s.push(x)) == abs_open(s).push(abs_node(x)),
{
    assert(abs_open(s.push(x)) =~= abs_open(s).push(abs_node(x)));
}

/// Source and target fall into the same grid cell.
pub open spec fn same_cell(m: GridModel, source: Vec2f, target: Vec2f) -> bool {
    SparseOccupancyIndex::of_point(source, m.resolution) == SparseOccupancyIndex::of_point(
        target,
        m.resolution,
    )
}

/// The target's cell is fenced in: every one of its eight neighbors is
/// occupied or unknown, and the source lies neither in that cell nor in
/// one of those neighbors.
pub open spec fn fenced_target(m: GridModel, source: Vec2f, target: Vec2f) -> bool {
    let src = SparseOccupancyIndex::of_point(source, m.resolution);
    let tgt = SparseOccupancyIndex::of_point(target, m.resolution);
    src != tgt && !adjacent8(src, tgt) && all_neighbors_blocked(m, tgt)
}

impl SparseOccupancy {
    /// Plan a path from `source` to `target`: a best-first search over
    /// the 8-connected graph of free cells, ordered by accumulated travel
    /// time plus a direct-travel estimate. Returns `None` when the
    /// target is unreachable or the search budget is exhausted; callers
    /// treat that as "cannot plan now". A target in the source's own cell
    /// always succeeds, and a target whose every neighbor is occupied or
    /// unknown (and which is not next to the source) always fails.
    ///
    /// A deliberate simplification: a cell is marked seen when it first
    /// joins the frontier, not when it is expanded, so around obstacles
    /// the returned trajectory can take slightly longer than the shortest
    /// one. Every other stated guarantee — validity, determinism, the
    /// speed bound — is unaffected.
    pub fn plan(&self, source: &Vec2f, target: &Vec2f) -> (r: Option<Trajectory>)
        requires
            self@.wf(),
            source.in_range(),
            target.in_range(),
        ensures
            (r matches Some(t) ==> plan_traj_ok(self@, *source, *target, t@)),
            (same_cell(self@, *source, *target) ==> r is Some),
            (fenced_target(self@, *source, *target) ==> r is None),
            (plan_spec(self@, *source, *target) matches Some(p) ==> (r matches Some(t)
                && traj_matches_path(self@.resolution, p, t@))),
            (plan_spec(self@, *source, *target) is None ==> r is None),
    {
        let ghost m = self@;
        let res = self.resolution();
        let src = SparseOccupancyIndex::from_vec2f(source, res);
        let tgt = SparseOccupancyIndex::from_vec2f(target, res);

        if src == tgt {
            let mut wps: Vec<Waypoint> = Vec::new();
            wps.push(Waypoint { position: cell_center_at(&src, res), time: 0 });
            let t = Trajectory { waypoints: wps };
            proof {
                lemma_center_cell(src, m.resolution);
                assert(wp_cell(t@[0], m.resolution) == src);
                assert(plan_spec(m, *source, *target) == Some(seq![src]));
                assert(t@[0] == (Waypoint {
                    position: cell_center(src, m.resolution),
                    time: path_times(m.resolution, seq![src], 0) as i64,
                }));
                assert(traj_matches_path(m.resolution, seq![src], t@));
            }
            return Some(t);
        }

        let mut seen: HashSet<u128> = HashSet::new();
        let mut open: Vec<Node> = Vec::new();
        let h0 = heuristic(res, &src, &tgt);
        let mut first_path: Vec<SparseOccupancyIndex> = Vec::new();
        first_path.push(src);
        open.push(Node { cell: src, g: 0, f: h0, path: first_path });
        seen.insert(src.key());
        proof {
            assert(open@.len() == 1);
            assert(open@[0].path@.len() == 1);
            assert(open@[0].path@[0] == src);
            assert(valid_cell_path(m, open@[0].path@, src));
            assert(open_ok(m, src, open@, 0));
            assert(abs_open(open@) =~= seq![
                SearchNode {
                    cell: src,
                    g: 0,
                    f: heuristic_spec(m.resolution, src, tgt),
                    path: seq![src],
                }
            ]);
            assert(open@[0].path@ =~= seq![src]);
            assert(seen@ =~= Set::empty().insert(crate::occupancy::cell_key(src)));
            assert(plan_spec(m, *source, *target) == search_from(
                m,
                tgt,
                abs_open(open@),
                seen@,
                0,
            ));
        }

        let mut iters: usize = 0;
        while iters < SEARCH_BUDGET && open.len() > 0
            invariant
                m == self@,
                m.wf(),
                res == m.resolution,
                src == SparseOccupancyIndex::of_point(*source, m.resolution),
                tgt == SparseOccupancyIndex::of_point(*target, m.resolution),
                src.in_range(),
                tgt.in_range(),
                source.in_range(),
                target.in_range(),
                0 <= iters <= SEARCH_BUDGET,
                open_ok(m, src, open@, iters as int),
                src != tgt,
                search_from(m, tgt, abs_open(open@), seen@, iters as int) == plan_spec(
                    m,
                    *source,
                    *target,
                ),
            decreases SEARCH_BUDGET - iters,
        {
            // Pick the frontier entry with the smallest estimate.
            let mut best: usize = 0;
            let mut j: usize = 1;
            while j < open.len()
                invariant
                    0 < open@.len(),
                    0 <= best < open@.len(),
                    1 <= j <= open@.len(),
                    best as int == min_f_upto(abs_open(open@), j as int),
                decreases open@.len() - j,
            {
                proof {
                    assert(abs_open(open@)[j as int].f == open@[j as int].f as int);
                    assert(abs_open(open@)[best as int].f == open@[best as int].f as int);
                }
                if open[j].f < open[best].f {
                    best = j;
                }
                j += 1;
            }
            let ghost prev_open = open@;
            let ghost seen_start = seen@;
            let node = open.remove(best);
            proof {
                lemma_abs_open_remove(prev_open, best as int);
                assert(abs_open(open@) == abs_open(prev_open).remove(best as int));
                assert(abs_node(node) == abs_open(prev_open)[best as int]);
                assert(node == prev_open[best as int]);
                assert(node_ok(m, src, node) && node.path@.len() <= iters + 1);
                assert forall|i: int| 0 <= i < open@.len() implies node_ok(m, src, #[trigger] open@[i])
                    && open@[i].path@.len() <= iters as int + 2 by {
                    if i < best as int {
                        assert(open@[i] == prev_open[i]);
                    } else {
                        assert(open@[i] == prev_open[i + 1]);
                    }
                }
            }

            if node.cell == tgt {
                let t = build_trajectory(&node.path, res);
                proof {
                    let p = node.path@;
                    assert forall|i: int| 0 <= i < p.len() implies wp_cell(#[trigger] t@[i], m.resolution)
                        == p[i] by {
                        lemma_center_cell(p[i], m.resolution);
                    }
                    assert(plan_traj_ok(m, *source, *target, t@));
                    assert(plan_spec(m, *source, *target) == Some(node.path@)) by {
                        assert(min_f_upto(abs_open(prev_open), prev_open.len() as int)
                            == best as int);
                        assert(abs_open(prev_open)[best as int].cell == tgt);
                    }
                    assert forall|i: int| 0 <= i < p.len() implies #[trigger] t@[i] == (Waypoint {
                        position: cell_center(p[i], m.resolution),
                        time: path_times(m.resolution, p, i) as i64,
                    }) by {
                    }
                    assert(traj_matches_path(m.resolution, node.path@, t@));
                    // A target fenced in on all eight sides cannot have been
                    // reached except straight from an adjacent source.
                    if src != tgt && !adjacent8(src, tgt) && all_neighbors_blocked(m, tgt) {
                        assert(p.len() >= 2);
                        let pen = p[p.len() - 2];
                        assert(adjacent8(pen, tgt));
                        lemma_adjacent8_symmetric(pen, tgt);
                        let k = choose|k: int|
                            0 <= k < 8 && crate::graph::nth_neighbor(tgt, k) == pen;
                        if p.len() == 2 {
                            assert(pen == src);
                            assert(false);
                        } else {
                            assert(is_free(m, pen));
                            assert(!is_free(m, crate::graph::nth_neighbor(tgt, k)));
                            assert(false);
                        }
                    }
                }
                return Some(t);
            }

            let edges = self.edges_from_vertex(&node.cell);
            proof {
                lemma_edges_upto(m, node.cell, 8);
            }
            let mut ei: usize = 0;
            while ei < edges.len()
                invariant
                    m == self@,
                    m.wf(),
                    res == m.resolution,
                    src.in_range(),
                    0 <= iters < SEARCH_BUDGET,
                    edges@ == edges_upto(m, node.cell, 8),
                    forall|i: int| 0 <= i < edges@.len() ==> {
                        let e = #[trigger] edges@[i];
                        e.0 == node.cell && is_free(m, e.1) && adjacent8(node.cell, e.1)
                    },
                    node_ok(m, src, node),
                    node.path@.len() <= iters + 1,
                    tgt.in_range(),
                    0 <= ei <= edges@.len(),
                    open_ok(m, src, open@, iters as int + 1),
                    abs_open(open@) == expand_upto(
                        edges@,
                        ei as int,
                        m.resolution,
                        abs_node(node),
                        tgt,
                        abs_open(prev_open).remove(best as int),
                        seen_start,
                    ).0,
                    seen@ == expand_upto(
                        edges@,
                        ei as int,
                        m.resolution,
                        abs_node(node),
                        tgt,
                        abs_open(prev_open).remove(best as int),
                        seen_start,
                    ).1,
                decreases edges@.len() - ei,
            {
                let n = edges[ei].1;
                proof {
                    assert(is_free(m, edges@[ei as int].1));
                    lemma_free_in_range(m, n);
                }
                let k = n.key();
                if !seen.contains(&k) {
                    seen.insert(k);
                    let cost = seg_cost_at(res, &node.cell, &n);
                    let mut npath = clone_path(&node.path);
                    npath.push(n);
                    let ng = node.g + cost;
                    let nf = ng + heuristic(res, &n, &tgt);
                    proof {
                        let p = npath@;
                        assert(p.len() == node.path@.len() + 1);
                        assert(p[p.len() - 2] == node.cell);
                        assert forall|i: int| 0 <= i < p.len() - 1 implies adjacent8(
                            #[trigger] p[i],
                            p[i + 1],
                        ) by {
                            if i < p.len() - 2 {
                                assert(adjacent8(node.path@[i], node.path@[i + 1]));
                            }
                        }
                        assert(valid_cell_path(m, p, src));
                    }
                    let ghost openprev = open@;
                    open.push(Node { cell: n, g: ng, f: nf, path: npath });
                    proof {
                        lemma_abs_open_push(
                            openprev,
                            Node { cell: n, g: ng, f: nf, path: npath },
                        );
                        assert(abs_node(Node { cell: n, g: ng, f: nf, path: npath })
                            == (SearchNode {
                            cell: n,
                            g: abs_node(node).g + seg_cost(m.resolution, node.cell, n),
                            f: abs_node(node).g + seg_cost(m.resolution, node.cell, n)
                                + heuristic_spec(m.resolution, n, tgt),
                            path: abs_node(node).path.push(n),
                        }));
                    }
                }
                ei += 1;
            }
            proof {
                assert(search_from(m, tgt, abs_open(prev_open), seen_start, iters as int)
                    == search_from(m, tgt, abs_open(open@), seen@, iters as int + 1)) by {
                    assert(min_f_upto(abs_open(prev_open), prev_open.len() as int)
                        == best as int);
                    assert(abs_open(prev_open)[best as int].cell != tgt);
                }
            }
            iters += 1;
        }
        proof {
            // The trivial source-in-target-cell case returned above.
            assert(src != tgt);
            assert(search_from(m, tgt, abs_open(open@), seen@, iters as int) is None);
            assert(plan_spec(m, *source, *target) is None);
        }
        None
    }
}

} // verus!
