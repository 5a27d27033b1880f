//! High-level planner: a per-target velocity-field cache built from
//! planned trajectories. The first target set wins; repeated queries from
//! a cached cell return the cached velocity without replanning.

use vstd::prelude::*;
use vstd::arithmetic::div_mod::lemma_fundamental_div_mod;
use std::collections::HashMap;
use crate::geometry::{scaled_div, scaled_div_spec, Vec2f};
use crate::occupancy::{cell_key, SparseOccupancy, SparseOccupancyIndex, RESOLUTION_LIMIT};
use crate::occupancy::GridModel;
use crate::planner::{
    iabs, lemma_plan_spec_starts_at_source, lemma_traj_matches_is_path_waypoints, path_waypoints,
    plan_spec, traj_wf, Trajectory, Waypoint, WP_POS_LIMIT, WP_TIME_LIMIT,
};

verus! {

broadcast use vstd::std_specs::hash::group_hash_axioms;

/// Nominal agent speed: one distance unit per second, in milli-units per
/// second.
pub const NOMINAL_SPEED: i64 = 1000;

/// A velocity no faster than the nominal speed in either axis.
pub open spec fn vel_ok(v: Vec2f) -> bool {
    iabs(v.x as int) <= NOMINAL_SPEED && iabs(v.y as int) <= NOMINAL_SPEED
}

/// Every velocity in a cache is nominal-speed bounded.
pub open spec fn cache_ok(c: Map<u128, Vec2f>) -> bool {
    forall|k: u128| #[trigger] c.contains_key(k) ==> vel_ok(c[k])
}

/// The average velocity (milli-units per second) over the trajectory
/// segment from waypoint `a` to waypoint `b` — what the trajectory's
/// motion evaluates to at `b`'s arrival time.
pub open spec fn seg_vel(a: Waypoint, b: Waypoint) -> Vec2f {
    Vec2f {
        x: scaled_div_spec((b.position.x - a.position.x) * 1000, b.time - a.time) as i64,
        y: scaled_div_spec((b.position.y - a.position.y) * 1000, b.time - a.time) as i64,
    }
}

/// The cache after the first `n` waypoints of a trajectory are folded in:
/// each waypoint's cell maps to the velocity of the segment leaving it.
pub open spec fn cache_after(
    c: Map<u128, Vec2f>,
    wps: Seq<Waypoint>,
    n: int,
    sample_resolution: int,
) -> Map<u128, Vec2f>
    decreases n,
{
    if n <= 1 {
        c
    } else {
        cache_after(c, wps, n - 1, sample_resolution).insert(
            cell_key(SparseOccupancyIndex::of_point(wps[n - 2].position, sample_resolution)),
            seg_vel(wps[n - 2], wps[n - 1]),
        )
    }
}

proof fn lemma_div_at_most_1000(a: int, d: int)
    requires
        0 <= a,
        0 < d,
        a <= d * 1000,
    ensures
        0 <= a / d <= 1000,
{
    lemma_fundamental_div_mod(a, d);
    let q = a / d;
    assert(d * q == a - a % d);
    assert(0 <= q <= 1000) by (nonlinear_arith)
        requires
            d * q <= d * 1000,
            d * q >= -(d - 1),
            d > 0;
}

/// The velocity of one trajectory segment, capped by construction at the
/// nominal speed because well-formed trajectories never move faster.
fn seg_vel_at(a: &Waypoint, b: &Waypoint) -> (v: Vec2f)
    requires
        a.time < b.time,
        b.time - a.time >= iabs(b.position.x - a.position.x),
        b.time - a.time >= iabs(b.position.y - a.position.y),
        iabs(a.position.x as int) <= WP_POS_LIMIT,
        iabs(a.position.y as int) <= WP_POS_LIMIT,
        iabs(b.position.x as int) <= WP_POS_LIMIT,
        iabs(b.position.y as int) <= WP_POS_LIMIT,
        0 <= a.time <= WP_TIME_LIMIT,
        0 <= b.time <= WP_TIME_LIMIT,
    ensures
        v == seg_vel(*a, *b),
        vel_ok(v),
{
    let dt = b.time - a.time;
    let dx = b.position.x - a.position.x;
    let dy = b.position.y - a.position.y;
    let vx = scaled_div(dx * 1000, dt);
    let vy = scaled_div(dy * 1000, dt);
    proof {
        if dx >= 0 {
            lemma_div_at_most_1000(dx * 1000, dt as int);
        } else {
            lemma_div_at_most_1000((-dx) * 1000, dt as int);
        }
        if dy >= 0 {
            lemma_div_at_most_1000(dy * 1000, dt as int);
        } else {
            lemma_div_at_most_1000((-dy) * 1000, dt as int);
        }
    }
    Vec2f { x: vx, y: vy }
}

/// The mathematical state of a high-level planner.
#[verifier::ext_equal]
pub struct PlannerModel {
    pub target: Option<Vec2f>,
    pub cache: Map<u128, Vec2f>,
    pub sample_resolution: int,
    pub default_vel: Vec2f,
    pub plans: u64,
}

/// The plan counter after one more planner invocation; it sticks at its
/// ceiling rather than wrap.
pub open spec fn bump_plans(n: u64) -> u64 {
    if n < 0xFFFF_FFFF_FFFF_FFFF {
        (n + 1) as u64
    } else {
        n
    }
}

/// The cache after one fresh plan from `pos` toward `t` is folded in:
/// unchanged when no plan exists.
pub open spec fn cache_after_plan(
    cache: Map<u128, Vec2f>,
    m: GridModel,
    pos: Vec2f,
    t: Vec2f,
    sample_resolution: int,
) -> Map<u128, Vec2f> {
    match plan_spec(m, pos, t) {
        None => cache,
        Some(p) => cache_after(
            cache,
            path_waypoints(m.resolution, p),
            p.len() as int,
            sample_resolution,
        ),
    }
}

/// The planner state after `set_target`: the first call stores the
/// target, plans once from the agent's position and folds the trajectory
/// into the cache; later calls change nothing.
pub open spec fn set_target_model(pm: PlannerModel, m: GridModel, agent_pos: Vec2f, point: Vec2f) -> PlannerModel {
    if pm.target is Some {
        pm
    } else {
        PlannerModel {
            target: Some(point),
            cache: cache_after_plan(pm.cache, m, agent_pos, point, pm.sample_resolution),
            plans: bump_plans(pm.plans),
            ..pm
        }
    }
}

/// The velocity a planner state answers for an agent at `pos`: zero with
/// no target; the cached entry on a hit; the first segment of a fresh
/// plan on a miss, or zero when no plan of two or more waypoints exists.
pub open spec fn desired_velocity_model(pm: PlannerModel, m: GridModel, pos: Vec2f) -> Vec2f {
    match pm.target {
        None => Vec2f { x: 0, y: 0 },
        Some(t) => {
            let k = cell_key(SparseOccupancyIndex::of_point(pos, pm.sample_resolution));
            if pm.cache.contains_key(k) {
                pm.cache[k]
            } else {
                match plan_spec(m, pos, t) {
                    None => Vec2f { x: 0, y: 0 },
                    Some(p) => {
                        if p.len() >= 2 {
                            seg_vel(
                                path_waypoints(m.resolution, p)[0],
                                path_waypoints(m.resolution, p)[1],
                            )
                        } else {
                            Vec2f { x: 0, y: 0 }
                        }
                    },
                }
            }
        },
    }
}

/// The planner state after one desired-velocity query: untouched with no
/// target or on a cache hit; on a miss the cache is refilled from the
/// fresh plan and the plan counter rises.
pub open spec fn query_model(pm: PlannerModel, m: GridModel, pos: Vec2f) -> PlannerModel {
    match pm.target {
        None => pm,
        Some(t) => {
            let k = cell_key(SparseOccupancyIndex::of_point(pos, pm.sample_resolution));
            if pm.cache.contains_key(k) {
                pm
            } else {
                PlannerModel {
                    cache: cache_after_plan(pm.cache, m, pos, t, pm.sample_resolution),
                    plans: bump_plans(pm.plans),
                    ..pm
                }
            }
        },
    }
}

proof fn lemma_cache_after_contains(
    c: Map<u128, Vec2f>,
    wps: Seq<Waypoint>,
    n: int,
    sample_resolution: int,
    i: int,
)
    requires
        0 <= i < n - 1,
    ensures
        cache_after(c, wps, n, sample_resolution).contains_key(
            cell_key(SparseOccupancyIndex::of_point(wps[i].position, sample_resolution)),
        ),
    decreases n,
{
    if i < n - 2 {
        lemma_cache_after_contains(c, wps, n - 1, sample_resolution, i);
    }
}

/// Cache reuse: a desired-velocity query that misses the cache but plans
/// a trajectory of two or more waypoints leaves the querying position's
/// own cell cached — the cache being keyed at the map's resolution — so a
/// second query from the same unchanged position is a cache hit: it
/// returns the cached velocity and leaves the planner, its plan counter
/// included, untouched.
pub proof fn lemma_cache_reuse(pm: PlannerModel, m: GridModel, pos: Vec2f)
    requires
        m.wf(),
        pos.in_range(),
        pm.sample_resolution == m.resolution,
        pm.target is Some,
        !pm.cache.contains_key(
            cell_key(SparseOccupancyIndex::of_point(pos, pm.sample_resolution)),
        ),
        (plan_spec(m, pos, pm.target->Some_0) matches Some(p) && p.len() >= 2),
    ensures
        ({
            let k = cell_key(SparseOccupancyIndex::of_point(pos, pm.sample_resolution));
            let pm2 = query_model(pm, m, pos);
            &&& pm2.cache.contains_key(k)
            &&& query_model(pm2, m, pos) == pm2
            &&& desired_velocity_model(pm2, m, pos) == pm2.cache[k]
        }),
{
    let t = pm.target->Some_0;
    let p = plan_spec(m, pos, t)->Some_0;
    let pw = path_waypoints(m.resolution, p);
    lemma_plan_spec_starts_at_source(m, pos, t);
    assert(p[0] == SparseOccupancyIndex::of_point(pos, m.resolution));
    crate::occupancy::lemma_of_point_in_range(pos, m.resolution);
    crate::graph::lemma_center_cell(p[0], m.resolution);
    assert(pw[0].position == crate::graph::cell_center(p[0], m.resolution));
    assert(SparseOccupancyIndex::of_point(pw[0].position, m.resolution) == p[0]);
    lemma_cache_after_contains(pm.cache, pw, p.len() as int, pm.sample_resolution, 0);
}

/// A per-target velocity cache over an occupancy map: the stub high-level
/// planner. It keeps only the first target it is given, plans toward it,
/// and remembers the desired velocity per discretized cell.
pub struct StubHighLevelPlan {
    default_vel: Vec2f,
    target: Option<Vec2f>,
    solution_cache: HashMap<u128, Vec2f>,
    sample_resolution: i64,
    plan_count: u64,
}

impl StubHighLevelPlan {
    /// The planner's mathematical state.
    pub closed spec fn model(self) -> PlannerModel {
        PlannerModel {
            target: self.target,
            cache: self.solution_cache@,
            sample_resolution: self.sample_resolution as int,
            default_vel: self.default_vel,
            plans: self.plan_count,
        }
    }

    /// The target this planner is committed to, if one was set.
    pub closed spec fn target_spec(self) -> Option<Vec2f> {
        self.target
    }

    /// The velocity cache, keyed by packed cell.
    pub closed spec fn cache_spec(self) -> Map<u128, Vec2f> {
        self.solution_cache@
    }

    /// The cell size used to discretize queried positions.
    pub closed spec fn sample_resolution_spec(self) -> int {
        self.sample_resolution as int
    }

    /// The configured default velocity.
    pub closed spec fn default_vel_spec(self) -> Vec2f {
        self.default_vel
    }

    /// How many times this planner has invoked the path planner.
    pub closed spec fn plans_made(self) -> u64 {
        self.plan_count
    }

    /// Well-formed planner state: a usable sample resolution, an in-range
    /// target if any, and only nominal-speed velocities in the cache.
    pub open spec fn wf(self) -> bool {
        &&& 0 < self.sample_resolution_spec() <= RESOLUTION_LIMIT
        &&& (self.target_spec() matches Some(t) ==> t.in_range())
        &&& cache_ok(self.cache_spec())
    }

    /// A fresh planner with no target and an empty cache.
    pub fn new(default_vel: Vec2f, sample_resolution: i64) -> (r: Self)
        requires
            0 < sample_resolution <= RESOLUTION_LIMIT,
        ensures
            r.wf(),
            r.target_spec() is None,
            r.cache_spec() == Map::<u128, Vec2f>::empty(),
            r.sample_resolution_spec() == sample_resolution,
            r.default_vel_spec() == default_vel,
            r.plans_made() == 0,
            r.model() == (PlannerModel {
                target: None,
                cache: Map::<u128, Vec2f>::empty(),
                sample_resolution: sample_resolution as int,
                default_vel: default_vel,
                plans: 0,
            }),
    {
        StubHighLevelPlan {
            default_vel,
            target: None,
            solution_cache: HashMap::new(),
            sample_resolution,
            plan_count: 0,
        }
    }

    /// How many planner invocations have happened so far; lets a caller
    /// observe that cache hits do not replan.
    pub fn plan_count(&self) -> (r: u64)
        ensures
            r == self.plans_made(),
    {
        self.plan_count
    }

    /// Fold a trajectory into the velocity cache: each waypoint's cell is
    /// mapped to the velocity of the segment that leaves it, so the
    /// velocity to use once an agent reaches a cell is the one that takes
    /// it to the next waypoint.
    pub fn plan_to_sol_cache(&mut self, trajectory: &Trajectory)
        requires
            old(self).wf(),
            traj_wf(trajectory@),
        ensures
            final(self).wf(),
            final(self).cache_spec() == cache_after(
                old(self).cache_spec(),
                trajectory@,
                trajectory@.len() as int,
                old(self).sample_resolution_spec(),
            ),
            final(self).target_spec() == old(self).target_spec(),
            final(self).sample_resolution_spec() == old(self).sample_resolution_spec(),
            final(self).default_vel_spec() == old(self).default_vel_spec(),
            final(self).plans_made() == old(self).plans_made(),
    {
        let ghost c0 = self.solution_cache@;
        let ghost wps = trajectory@;
        let ghost sres = self.sample_resolution as int;
        let n = trajectory.waypoints.len();
        let mut i: usize = 1;
        while i < n
            invariant
                old(self).wf(),
                traj_wf(wps),
                wps == trajectory@,
                n == wps.len(),
                1 <= i,
                n > 1 ==> i <= n,
                n <= 1 ==> i == 1,
                self.solution_cache@ == cache_after(c0, wps, i as int, sres),
                self.target == old(self).target,
                self.sample_resolution == old(self).sample_resolution,
                self.default_vel == old(self).default_vel,
                self.plan_count == old(self).plan_count,
                c0 == old(self).solution_cache@,
                sres == self.sample_resolution as int,
                cache_ok(self.solution_cache@),
            decreases n - i,
        {
            let a = trajectory.waypoints[i - 1];
            let b = trajectory.waypoints[i];
            let v = seg_vel_at(&a, &b);
            let idx = SparseOccupancyIndex::from_vec2f(&a.position, self.sample_resolution);
            let k = idx.key();
            let ghost prev = self.solution_cache@;
            self.solution_cache.insert(k, v);
            proof {
                assert forall|kk: u128| #[trigger] self.solution_cache@.contains_key(kk) implies vel_ok(
                    self.solution_cache@[kk],
                ) by {
                    if kk != k {
                        assert(prev.contains_key(kk));
                    }
                }
            }
            i += 1;
        }
        proof {
            if n > 1 {
                assert(i == n);
            } else {
                assert(self.solution_cache@ == cache_after(c0, wps, 1, sres));
                assert(cache_after(c0, wps, n as int, sres) == c0);
            }
            assert(self.solution_cache@ == cache_after(c0, wps, n as int, sres));
        }
    }

    /// The desired velocity for an agent at `agent_pos`. With no target
    /// set this is the zero vector. With a target: a cached velocity for
    /// the agent's cell if one is known — leaving the planner untouched —
    /// and otherwise a fresh plan toward the target, whose first segment
    /// velocity is returned after the cache is repopulated; a zero vector
    /// when even that fails. Always `Some`, always nominal-speed bounded.
    pub fn get_desired_velocity(
        &mut self,
        agent_pos: &Vec2f,
        _time: i64,
        map: &SparseOccupancy,
    ) -> (r: Option<Vec2f>)
        requires
            old(self).wf(),
            map@.wf(),
            agent_pos.in_range(),
        ensures
            final(self).wf(),
            r is Some,
            (r matches Some(v) ==> vel_ok(v)),
            r == Some(desired_velocity_model(old(self).model(), map@, *agent_pos)),
            final(self).model() == query_model(old(self).model(), map@, *agent_pos),
            (old(self).target_spec() is None ==> r == Some(Vec2f { x: 0, y: 0 }) && *final(self)
                == *old(self)),
            ({
                let k = cell_key(
                    SparseOccupancyIndex::of_point(*agent_pos, old(self).sample_resolution_spec()),
                );
                old(self).target_spec() is Some && old(self).cache_spec().contains_key(k) ==> r
                    == Some(old(self).cache_spec()[k]) && *final(self) == *old(self)
            }),
            ({
                let k = cell_key(
                    SparseOccupancyIndex::of_point(*agent_pos, old(self).sample_resolution_spec()),
                );
                old(self).target_spec() is Some && !old(self).cache_spec().contains_key(k)
                    && old(self).plans_made() < 0xFFFF_FFFF_FFFF_FFFF ==> final(self).plans_made()
                    == old(self).plans_made() + 1
            }),
            final(self).target_spec() == old(self).target_spec(),
            final(self).sample_resolution_spec() == old(self).sample_resolution_spec(),
            final(self).plans_made() >= old(self).plans_made(),
    {
        let ghost pm = self.model();
        let target = self.target;
        match target {
            None => Some(Vec2f { x: 0, y: 0 }),
            Some(t) => {
                let idx = SparseOccupancyIndex::from_vec2f(agent_pos, self.sample_resolution);
                let k = idx.key();
                let cached = match self.solution_cache.get(&k) {
                    Some(v) => Some(*v),
                    None => None,
                };
                match cached {
                    Some(v) => {
                        proof {
                            assert(pm.cache.contains_key(k));
                            assert(desired_velocity_model(pm, map@, *agent_pos) == v);
                        }
                        Some(v)
                    },
                    None => {
                        proof {
                            assert(!pm.cache.contains_key(k));
                        }
                        if self.plan_count < 0xFFFF_FFFF_FFFF_FFFFu64 {
                            self.plan_count = self.plan_count + 1;
                        }
                        match map.plan(agent_pos, &t) {
                            Some(traj) => {
                                proof {
                                    let p = plan_spec(map@, *agent_pos, t)->Some_0;
                                    lemma_traj_matches_is_path_waypoints(
                                        map@.resolution,
                                        p,
                                        traj@,
                                    );
                                }
                                self.plan_to_sol_cache(&traj);
                                proof {
                                    assert(self.model() =~~= query_model(pm, map@, *agent_pos));
                                }
                                if traj.waypoints.len() >= 2 {
                                    let v = seg_vel_at(
                                        &traj.waypoints[0],
                                        &traj.waypoints[1],
                                    );
                                    proof {
                                        assert(desired_velocity_model(pm, map@, *agent_pos) == v);
                                    }
                                    Some(v)
                                } else {
                                    Some(Vec2f { x: 0, y: 0 })
                                }
                            },
                            None => {
                                proof {
                                    assert(plan_spec(map@, *agent_pos, t) is None);
                                    assert(self.model() =~~= query_model(pm, map@, *agent_pos));
                                }
                                Some(Vec2f { x: 0, y: 0 })
                            },
                        }
                    },
                }
            },
        }
    }

    /// Set the target for the agent at `agent_pos`: the first call wins
    /// and later calls leave the planner untouched. Setting a target
    /// plans a trajectory from the agent's position at once and fills the
    /// velocity cache from it.
    pub fn set_target(
        &mut self,
        agent_pos: &Vec2f,
        point: Vec2f,
        _tolerance: Vec2f,
        map: &SparseOccupancy,
    )
        requires
            old(self).wf(),
            map@.wf(),
            agent_pos.in_range(),
            point.in_range(),
        ensures
            final(self).wf(),
            final(self).model() == set_target_model(old(self).model(), map@, *agent_pos, point),
            (old(self).target_spec() is Some ==> *final(self) == *old(self)),
            (old(self).target_spec() is None ==> final(self).target_spec() == Some(point)),
            (old(self).target_spec() is None && old(self).plans_made() < 0xFFFF_FFFF_FFFF_FFFF
                ==> final(self).plans_made() == old(self).plans_made() + 1),
            final(self).sample_resolution_spec() == old(self).sample_resolution_spec(),
            final(self).default_vel_spec() == old(self).default_vel_spec(),
    {
        let ghost pm = self.model();
        let target = self.target;
        match target {
            Some(_) => {},
            None => {
                self.target = Some(point);
                if self.plan_count < 0xFFFF_FFFF_FFFF_FFFFu64 {
                    self.plan_count = self.plan_count + 1;
                }
                match map.plan(agent_pos, &point) {
                    Some(traj) => {
                        proof {
                            let p = plan_spec(map@, *agent_pos, point)->Some_0;
                            lemma_traj_matches_is_path_waypoints(map@.resolution, p, traj@);
                        }
                        self.plan_to_sol_cache(&traj);
                        proof {
                            assert(self.model() =~~= set_target_model(pm, map@, *agent_pos, point));
                        }
                    },
                    None => {
                        proof {
                            assert(plan_spec(map@, *agent_pos, point) is None);
                            assert(self.model() =~~= set_target_model(pm, map@, *agent_pos, point));
                        }
                    },
                }
            },
        }
    }

    /// Forget an agent: this planner keeps no per-agent state, so there
    /// is nothing to do.
    pub fn remove_agent_id(&mut self, _agent: u64)
        ensures
            *final(self) == *old(self),
    {
    }

    /// Replace the map handle: this planner is handed the map on each
    /// call instead, so there is nothing to do.
    pub fn set_map(&mut self, _map: &SparseOccupancy)
        ensures
            *final(self) == *old(self),
    {
    }
}

} // verus!
