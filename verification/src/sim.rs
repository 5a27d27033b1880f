//! The crowd simulation stepper: Poisson-style sources spawn agents,
//! each agent follows its group's high-level planner toward the group's
//! sink, and agents inside the sink radius at the start of a step are
//! captured and removed with exactly one destruction event.

use vstd::prelude::*;
use crate::geometry::{clamp, clamp_spec, dist_sq, scaled_div, scaled_div_spec, Vec2f};
use crate::highlevel::{
    desired_velocity_model, query_model, set_target_model, vel_ok, PlannerModel,
    StubHighLevelPlan, NOMINAL_SPEED,
};
use crate::occupancy::GridModel;
use crate::occupancy::SparseOccupancy;
use crate::spatial::LocationHash2D;

verus! {

/// World extent the simulation clamps agents into, in milli-units.
pub const WORLD_MIN: i64 = -500_000;

/// Upper edge of the world extent, in milli-units.
pub const WORLD_MAX: i64 = 500_000;

/// Longest time step accepted, in milliseconds.
pub const STEP_LIMIT_MS: i64 = 60_000;

/// Why a wall update was refused.
#[derive(Clone, Copy, Debug, PartialEq, Eq, Structural)]
pub enum WallUpdateError {
    /// A wall endpoint referenced an anchor the document no longer has.
    BrokenWallReference,
}

/// An event the stepper reports to its host.
#[derive(Clone, Copy, Debug, PartialEq, Eq, Structural)]
pub enum CrowdEvent {
    /// An agent appeared at a source.
    Spawned { id: u64, position: Vec2f },
    /// An agent reached its sink and was removed.
    Destroyed { id: u64 },
}

/// A simulated agent.
#[derive(Clone, Copy, Debug, PartialEq, Eq, Structural)]
pub struct Agent {
    pub id: u64,
    pub position: Vec2f,
    pub velocity: Vec2f,
    /// Index of the source/sink pair that spawned this agent.
    pub group: usize,
}

/// A paired agent source and sink: agents appear at `source` following a
/// Poisson arrival process with the given rate and are captured within
/// `radius_sink` of `sink`.
#[derive(Clone, Copy, Debug, PartialEq, Eq, Structural)]
pub struct SourceSink {
    pub source: Vec2f,
    pub sink: Vec2f,
    pub radius_sink: i64,
    /// Arrival rate in millionths of an agent per second.
    pub rate_micro: i64,
    pub agent_eyesight_range: i64,
}

impl SourceSink {
    /// A usable source/sink pair: both endpoints inside the world extent,
    /// bounded radius and rate.
    pub open spec fn wf(self) -> bool {
        &&& in_extent(self.source)
        &&& in_extent(self.sink)
        &&& 0 <= self.radius_sink <= crate::geometry::COORD_LIMIT
        &&& 0 <= self.rate_micro <= 1_000_000_000
        &&& 0 <= self.agent_eyesight_range <= crate::geometry::COORD_LIMIT
    }
}

/// Whether a position lies inside the simulated world extent.
pub open spec fn in_extent(p: Vec2f) -> bool {
    WORLD_MIN <= p.x <= WORLD_MAX && WORLD_MIN <= p.y <= WORLD_MAX
}

/// Buffers the events a host consumes between steps: spawned agents are
/// queued for the renderer; destruction needs no buffering.
pub struct CrowdEventListener {
    pub to_add: Vec<(u64, Vec2f)>,
}

impl CrowdEventListener {
    /// An empty event buffer.
    pub fn new() -> (r: Self)
        ensures
            r.to_add@ == Seq::<(u64, Vec2f)>::empty(),
    {
        CrowdEventListener { to_add: Vec::new() }
    }

    /// Queue a newly spawned agent.
    pub fn agent_spawned(&mut self, position: Vec2f, agent: u64)
        ensures
            final(self).to_add@ == old(self).to_add@.push((agent, position)),
    {
        self.to_add.push((agent, position));
    }

    /// Note a destroyed agent: nothing is buffered for destruction.
    pub fn agent_destroyed(&mut self, _agent: u64)
        ensures
            *final(self) == *old(self),
    {
    }
}

/// A linear-congruential pseudo-random generator; the spawn decisions it
/// drives are a pure function of the seed.
pub struct Lcg {
    state: u64,
}

/// The generator state after one advance.
pub open spec fn lcg_next(s: u64) -> u64 {
    s.wrapping_mul(6364136223846793005u64).wrapping_add(1442695040888963407u64)
}

/// The uniform draw in `[0, 1_000_000)` a generator state yields.
pub open spec fn lcg_draw(s: u64) -> u64 {
    (s >> 32u64) % 1_000_000u64
}

impl Lcg {
    /// The current generator state.
    pub closed spec fn state_spec(self) -> u64 {
        self.state
    }

    /// A generator starting from `seed`.
    pub fn new(seed: u64) -> (r: Self)
        ensures
            r.state_spec() == seed,
    {
        Lcg { state: seed }
    }

    /// Advance and return a uniform draw in `[0, 1_000_000)`.
    pub fn next_draw(&mut self) -> (r: u64)
        ensures
            final(self).state_spec() == lcg_next(old(self).state_spec()),
            r == lcg_draw(final(self).state_spec()),
            r < 1_000_000,
    {
        self.state = self.state.wrapping_mul(6364136223846793005u64).wrapping_add(
            1442695040888963407u64,
        );
        (self.state >> 32u64) % 1_000_000u64
    }
}

/// The chance, in millionths, that a source spawns during a step of
/// `dt` milliseconds: its rate times the step length, capped at one.
pub open spec fn spawn_prob(rate_micro: int, dt: int) -> int {
    let p = rate_micro * dt / 1000;
    if p > 1_000_000 {
        1_000_000
    } else {
        p
    }
}

/// Whether agent `a` is within its group's sink capture radius.
pub open spec fn in_sink(groups: Seq<SourceSink>, a: Agent) -> bool {
    a.group < groups.len() && dist_sq(a.position, groups[a.group as int].sink) <= groups[
        a.group as int
    ].radius_sink * groups[a.group as int].radius_sink
}

/// The first `n` agents that survive the capture phase, in order.
pub open spec fn survivors_upto(groups: Seq<SourceSink>, agents: Seq<Agent>, n: int) -> Seq<Agent>
    decreases n,
{
    if n <= 0 {
        Seq::empty()
    } else {
        let prev = survivors_upto(groups, agents, n - 1);
        if in_sink(groups, agents[n - 1]) {
            prev
        } else {
            prev.push(agents[n - 1])
        }
    }
}

/// The destruction events of the capture phase over the first `n` agents.
pub open spec fn captured_events_upto(groups: Seq<SourceSink>, agents: Seq<Agent>, n: int) -> Seq<
    CrowdEvent,
>
    decreases n,
{
    if n <= 0 {
        Seq::empty()
    } else {
        let prev = captured_events_upto(groups, agents, n - 1);
        if in_sink(groups, agents[n - 1]) {
            prev.push(CrowdEvent::Destroyed { id: agents[n - 1].id })
        } else {
            prev
        }
    }
}

/// The spawn notification for one agent.
pub open spec fn spawn_pair(a: Agent) -> (u64, Vec2f) {
    (a.id, a.position)
}

/// The spawn notifications for a sequence of agents, in order.
pub open spec fn pairs_of(s: Seq<Agent>) -> Seq<(u64, Vec2f)> {
    s.map_values(|a: Agent| spawn_pair(a))
}

/// Whether some agent in the sequence carries the id.
pub open spec fn has_agent(agents: Seq<Agent>, id: u64) -> bool {
    exists|j: int| 0 <= j < agents.len() && agents[j].id == id
}

/// How many destruction events for `id` a sequence holds.
pub open spec fn count_destroyed(events: Seq<CrowdEvent>, id: u64) -> nat
    decreases events.len(),
{
    if events.len() == 0 {
        0
    } else {
        count_destroyed(events.drop_last(), id) + (
        if events.last() == (CrowdEvent::Destroyed { id }) {
            1nat
        } else {
            0nat
        })
    }
}

/// What the spawn phase over the first `n` groups produces.
pub struct SpawnOutcome {
    pub agents: Seq<Agent>,
    pub events: Seq<CrowdEvent>,
    pub rng: u64,
    pub next_id: u64,
}

/// The spawn phase folded over the first `n` groups: each group advances
/// the generator once and spawns one agent at its source exactly when the
/// draw falls below its spawn chance for this step.
pub open spec fn spawn_upto(groups: Seq<SourceSink>, n: int, rng: u64, next_id: u64, dt: int) -> SpawnOutcome
    decreases n,
{
    if n <= 0 {
        SpawnOutcome { agents: Seq::empty(), events: Seq::empty(), rng, next_id }
    } else {
        let prev = spawn_upto(groups, n - 1, rng, next_id, dt);
        let r2 = lcg_next(prev.rng);
        let g = groups[n - 1];
        if lcg_draw(r2) < spawn_prob(g.rate_micro as int, dt) && prev.next_id < 0xFFFF_FFFF_FFFF_FFFF {
            SpawnOutcome {
                agents: prev.agents.push(
                    Agent {
                        id: prev.next_id,
                        position: g.source,
                        velocity: Vec2f { x: 0, y: 0 },
                        group: (n - 1) as usize,
                    },
                ),
                events: prev.events.push(
                    CrowdEvent::Spawned { id: prev.next_id, position: g.source },
                ),
                rng: r2,
                next_id: (prev.next_id + 1) as u64,
            }
        } else {
            SpawnOutcome { agents: prev.agents, events: prev.events, rng: r2, next_id: prev.next_id }
        }
    }
}

/// The planner states of a sequence of planners.
pub open spec fn models_of(s: Seq<StubHighLevelPlan>) -> Seq<PlannerModel> {
    s.map_values(|p: StubHighLevelPlan| p.model())
}

proof fn lemma_models_update(s: Seq<StubHighLevelPlan>, i: int, x: StubHighLevelPlan)
    requires
        0 <= i < s.len(),
    ensures
        models_of(s.update(i, x)) == models_of(s).update(i, x.model()),
{
    assert(models_of(s.update(i, x)) =~= models_of(s).update(i, x.model()));
}

proof fn lemma_models_push(s: Seq<StubHighLevelPlan>, x: StubHighLevelPlan)
    ensures
        models_of(s.push(x)) == models_of(s).push(x.model()),
{
    assert(models_of(s.push(x)) =~= models_of(s).push(x.model()));
}

/// The planner states after the spawn phase over the first `n` groups: a
/// group that spawns sets its planner's target to its own sink from the
/// source position; the others are untouched.
pub open spec fn spawn_planners_upto(
    groups: Seq<SourceSink>,
    n: int,
    rng: u64,
    next_id: u64,
    dt: int,
    pms: Seq<PlannerModel>,
    m: GridModel,
) -> Seq<PlannerModel>
    decreases n,
{
    if n <= 0 {
        pms
    } else {
        let prevpm = spawn_planners_upto(groups, n - 1, rng, next_id, dt, pms, m);
        let prev = spawn_upto(groups, n - 1, rng, next_id, dt);
        let g = groups[n - 1];
        if lcg_draw(lcg_next(prev.rng)) < spawn_prob(g.rate_micro as int, dt) && prev.next_id
            < 0xFFFF_FFFF_FFFF_FFFF {
            prevpm.update(n - 1, set_target_model(prevpm[n - 1], m, g.source, g.sink))
        } else {
            prevpm
        }
    }
}

/// The motion phase folded over the first `n` agents: each agent asks its
/// group's planner for a desired velocity — with no local planning it
/// passes through unchanged — and moves by it for `dt` milliseconds,
/// clamped into the world extent; the planner evolves with each query.
pub open spec fn motion_upto(
    m: GridModel,
    pms: Seq<PlannerModel>,
    agents: Seq<Agent>,
    n: int,
    dt: int,
) -> (Seq<Agent>, Seq<PlannerModel>)
    decreases n,
{
    if n <= 0 {
        (Seq::empty(), pms)
    } else {
        let prev = motion_upto(m, pms, agents, n - 1, dt);
        let a = agents[n - 1];
        let pm = prev.1[a.group as int];
        let v = desired_velocity_model(pm, m, a.position);
        let b = Agent {
            id: a.id,
            position: Vec2f {
                x: clamp_spec(
                    a.position.x + scaled_div_spec(v.x * dt, 1000),
                    WORLD_MIN as int,
                    WORLD_MAX as int,
                ) as i64,
                y: clamp_spec(
                    a.position.y + scaled_div_spec(v.y * dt, 1000),
                    WORLD_MIN as int,
                    WORLD_MAX as int,
                ) as i64,
            },
            velocity: v,
            group: a.group,
        };
        (prev.0.push(b), prev.1.update(a.group as int, query_model(pm, m, a.position)))
    }
}

/// Survivors are agents that were not in their sink, kept in order.
proof fn lemma_survivors_sub(groups: Seq<SourceSink>, agents: Seq<Agent>, n: int)
    requires
        0 <= n <= agents.len(),
    ensures
        forall|i: int|
            0 <= i < survivors_upto(groups, agents, n).len() ==> exists|w: int|
                0 <= w < n && #[trigger] survivors_upto(groups, agents, n)[i] == agents[w]
                    && !in_sink(groups, agents[w]),
    decreases n,
{
    if n > 0 {
        lemma_survivors_sub(groups, agents, n - 1);
        let prev = survivors_upto(groups, agents, n - 1);
        let cur = survivors_upto(groups, agents, n);
        assert forall|i: int| 0 <= i < cur.len() implies exists|w: int|
            0 <= w < n && #[trigger] cur[i] == agents[w] && !in_sink(groups, agents[w]) by {
            if !in_sink(groups, agents[n - 1]) && i == cur.len() - 1 {
                assert(cur[i] == agents[n - 1] && !in_sink(groups, agents[n - 1]));
            } else {
                assert(cur[i] == prev[i]);
                let w = choose|w: int|
                    0 <= w < n - 1 && prev[i] == agents[w] && !in_sink(groups, agents[w]);
                assert(cur[i] == agents[w] && !in_sink(groups, agents[w]));
            }
        }
    }
}

/// An agent inside its sink appears exactly once among the capture
/// events and not at all among the survivors.
pub proof fn lemma_sink_capture(groups: Seq<SourceSink>, agents: Seq<Agent>, j: int, n: int)
    requires
        0 <= j < n <= agents.len(),
        in_sink(groups, agents[j]),
        forall|x: int, y: int| 0 <= x < y < agents.len() ==> agents[x].id != agents[y].id,
    ensures
        count_destroyed(captured_events_upto(groups, agents, n), agents[j].id) == 1,
        !has_agent(survivors_upto(groups, agents, n), agents[j].id),
    decreases n,
{
    let id = agents[j].id;
    let prevev = captured_events_upto(groups, agents, n - 1);
    let curev = captured_events_upto(groups, agents, n);
    if j == n - 1 {
        lemma_captured_none(groups, agents, id, n - 1);
        assert(curev == prevev.push(CrowdEvent::Destroyed { id }));
        assert(curev.drop_last() =~= prevev);
    } else {
        lemma_sink_capture(groups, agents, j, n - 1);
        if in_sink(groups, agents[n - 1]) {
            assert(curev == prevev.push(CrowdEvent::Destroyed { id: agents[n - 1].id }));
            assert(curev.drop_last() =~= prevev);
            assert(agents[n - 1].id != id);
        }
    }
    lemma_survivors_sub(groups, agents, n);
    if has_agent(survivors_upto(groups, agents, n), id) {
        let surv = survivors_upto(groups, agents, n);
        let i = choose|i: int| 0 <= i < surv.len() && surv[i].id == id;
        let w = choose|w: int| 0 <= w < n && surv[i] == agents[w] && !in_sink(groups, agents[w]);
        assert(agents[w].id == id);
        assert(w == j);
        assert(false);
    }
}

/// An agent never inside its sink among the first `n` produces no
/// capture event.
proof fn lemma_captured_none(groups: Seq<SourceSink>, agents: Seq<Agent>, id: u64, n: int)
    requires
        0 <= n <= agents.len(),
        forall|w: int| 0 <= w < n ==> (#[trigger] agents[w]).id != id || !in_sink(groups, agents[w]),
    ensures
        count_destroyed(captured_events_upto(groups, agents, n), id) == 0,
    decreases n,
{
    if n > 0 {
        lemma_captured_none(groups, agents, id, n - 1);
        let prevev = captured_events_upto(groups, agents, n - 1);
        let curev = captured_events_upto(groups, agents, n);
        if in_sink(groups, agents[n - 1]) {
            assert(curev.drop_last() =~= prevev);
            assert(curev.last() != (CrowdEvent::Destroyed { id }));
        }
    }
}

/// Counting destruction events distributes over concatenation.
proof fn lemma_count_destroyed_add(a: Seq<CrowdEvent>, b: Seq<CrowdEvent>, id: u64)
    ensures
        count_destroyed(a + b, id) == count_destroyed(a, id) + count_destroyed(b, id),
    decreases b.len(),
{
    if b.len() == 0 {
        assert(a + b =~= a);
    } else {
        lemma_count_destroyed_add(a, b.drop_last(), id);
        assert((a + b).drop_last() =~= a + b.drop_last());
        assert((a + b).last() == b.last());
    }
}

/// The spawn fold yields one event per agent and hands out ids from
/// `next_id` up to its final id counter.
proof fn lemma_spawn_counts(groups: Seq<SourceSink>, n: int, rng: u64, next_id: u64, dt: int)
    requires
        0 <= n <= groups.len(),
    ensures
        spawn_upto(groups, n, rng, next_id, dt).agents.len() == spawn_upto(
            groups,
            n,
            rng,
            next_id,
            dt,
        ).events.len(),
        next_id <= spawn_upto(groups, n, rng, next_id, dt).next_id,
        spawn_upto(groups, n, rng, next_id, dt).agents.len() <= spawn_upto(
            groups,
            n,
            rng,
            next_id,
            dt,
        ).next_id - next_id,
    decreases n,
{
    if n > 0 {
        lemma_spawn_counts(groups, n - 1, rng, next_id, dt);
    }
}

/// Every agent the spawn fold creates carries a fresh id, belongs to one
/// of the folded groups, sits at that group's source and starts at rest;
/// no two share an id.
proof fn lemma_spawn_agents(groups: Seq<SourceSink>, n: int, rng: u64, next_id: u64, dt: int)
    requires
        0 <= n <= groups.len(),
        forall|k: int| 0 <= k < groups.len() ==> (#[trigger] groups[k]).wf(),
    ensures
        forall|i: int|
            0 <= i < spawn_upto(groups, n, rng, next_id, dt).agents.len() ==> next_id <= (
            #[trigger] spawn_upto(groups, n, rng, next_id, dt).agents[i]).id < spawn_upto(
                groups,
                n,
                rng,
                next_id,
                dt,
            ).next_id && spawn_upto(groups, n, rng, next_id, dt).agents[i].group < n && in_extent(
                spawn_upto(groups, n, rng, next_id, dt).agents[i].position,
            ) && spawn_upto(groups, n, rng, next_id, dt).agents[i].velocity == (Vec2f { x: 0, y: 0 }),
        forall|i: int, w: int|
            0 <= i < w < spawn_upto(groups, n, rng, next_id, dt).agents.len() ==> (
            #[trigger] spawn_upto(groups, n, rng, next_id, dt).agents[i]).id != (
            #[trigger] spawn_upto(groups, n, rng, next_id, dt).agents[w]).id,
    decreases n,
{
    if n > 0 {
        lemma_spawn_agents(groups, n - 1, rng, next_id, dt);
        lemma_spawn_counts(groups, n - 1, rng, next_id, dt);
        let prev = spawn_upto(groups, n - 1, rng, next_id, dt);
        let out = spawn_upto(groups, n, rng, next_id, dt);
        if out.agents.len() > prev.agents.len() {
            assert forall|i: int|
                0 <= i < out.agents.len() implies next_id <= (#[trigger] out.agents[i]).id
                    < out.next_id && out.agents[i].group < n && in_extent(out.agents[i].position)
                    && out.agents[i].velocity == (Vec2f { x: 0, y: 0 }) by {
                if i < out.agents.len() - 1 {
                    assert(out.agents[i] == prev.agents[i]);
                } else {
                    assert(groups[n - 1].wf());
                }
            }
            assert forall|i: int, w: int|
                0 <= i < w < out.agents.len() implies (#[trigger] out.agents[i]).id != (
            #[trigger] out.agents[w]).id by {
                if w < out.agents.len() - 1 {
                    assert(out.agents[i] == prev.agents[i] && out.agents[w] == prev.agents[w]);
                } else {
                    assert(out.agents[i] == prev.agents[i]);
                }
            }
        }
    }
}

/// The spawn fold emits no destruction events.
proof fn lemma_spawn_no_destroyed(
    groups: Seq<SourceSink>,
    n: int,
    rng: u64,
    next_id: u64,
    dt: int,
    id: u64,
)
    requires
        0 <= n <= groups.len(),
    ensures
        count_destroyed(spawn_upto(groups, n, rng, next_id, dt).events, id) == 0,
    decreases n,
{
    if n > 0 {
        lemma_spawn_no_destroyed(groups, n - 1, rng, next_id, dt, id);
        let prev = spawn_upto(groups, n - 1, rng, next_id, dt);
        let out = spawn_upto(groups, n, rng, next_id, dt);
        if out.events.len() > prev.events.len() {
            assert(out.events.drop_last() =~= prev.events);
            assert(out.events.last() != (CrowdEvent::Destroyed { id }));
        }
    }
}

/// Removing a captured agent from the spatial index keeps it in sync
/// with the kept agents plus the unprocessed remainder.
proof fn lemma_capture_remove_sync(
    groups: Seq<SourceSink>,
    agents0: Seq<Agent>,
    kept: Seq<Agent>,
    i: int,
    sp0: Map<u64, Vec2f>,
    sp1: Map<u64, Vec2f>,
)
    requires
        0 <= i < agents0.len(),
        forall|x: int, y: int| 0 <= x < y < agents0.len() ==> agents0[x].id != agents0[y].id,
        kept == survivors_upto(groups, agents0, i),
        forall|id: u64|
            #[trigger] sp0.contains_key(id) <==> (has_agent(kept, id) || exists|w: int|
                i <= w < agents0.len() && agents0[w].id == id),
        sp1 == sp0.remove(agents0[i].id),
        in_sink(groups, agents0[i]),
    ensures
        forall|id: u64|
            #[trigger] sp1.contains_key(id) <==> (has_agent(kept, id) || exists|w: int|
                i + 1 <= w < agents0.len() && agents0[w].id == id),
{
    let aid = agents0[i].id;
    assert forall|id: u64|
        #[trigger] sp1.contains_key(id) <==> (has_agent(kept, id) || exists|w: int|
            i + 1 <= w < agents0.len() && agents0[w].id == id) by {
        if id == aid {
            assert(!sp1.contains_key(id));
            if exists|w: int| i + 1 <= w < agents0.len() && agents0[w].id == id {
                let w = choose|w: int| i + 1 <= w < agents0.len() && agents0[w].id == id;
                assert(agents0[w].id == agents0[i].id && w != i);
                assert(false);
            }
            if has_agent(kept, id) {
                lemma_survivors_sub(groups, agents0, i);
                let w = choose|w: int| 0 <= w < kept.len() && kept[w].id == id;
                let w2 = choose|w2: int|
                    0 <= w2 < i && kept[w] == agents0[w2] && !in_sink(groups, agents0[w2]);
                assert(agents0[w2].id == agents0[i].id && w2 != i);
                assert(false);
            }
        } else {
            assert(sp1.contains_key(id) == sp0.contains_key(id));
            if sp0.contains_key(id) && !has_agent(kept, id) {
                let w = choose|w: int| i <= w < agents0.len() && agents0[w].id == id;
                assert(w != i);
                assert(i + 1 <= w < agents0.len() && agents0[w].id == id);
            }
        }
    }
}

/// Keeping an uncaptured agent moves it from the unprocessed remainder
/// into the kept agents without touching the spatial index.
proof fn lemma_capture_keep_sync(
    groups: Seq<SourceSink>,
    agents0: Seq<Agent>,
    kept: Seq<Agent>,
    i: int,
    sp0: Map<u64, Vec2f>,
)
    requires
        0 <= i < agents0.len(),
        kept == survivors_upto(groups, agents0, i),
        forall|id: u64|
            #[trigger] sp0.contains_key(id) <==> (has_agent(kept, id) || exists|w: int|
                i <= w < agents0.len() && agents0[w].id == id),
        !in_sink(groups, agents0[i]),
    ensures
        forall|id: u64|
            #[trigger] sp0.contains_key(id) <==> (has_agent(kept.push(agents0[i]), id) || exists|w: int|
                i + 1 <= w < agents0.len() && agents0[w].id == id),
        forall|id: u64|
            has_agent(kept.push(agents0[i]), id) ==> has_agent(kept, id) || agents0[i].id == id,
{
    let kept1 = kept.push(agents0[i]);
    assert forall|id: u64|
        has_agent(kept1, id) implies has_agent(kept, id) || agents0[i].id == id by {
        let w = choose|w: int| 0 <= w < kept1.len() && kept1[w].id == id;
        if w < kept.len() {
            assert(kept[w].id == id);
        }
    }
    assert forall|id: u64|
        #[trigger] sp0.contains_key(id) <==> (has_agent(kept1, id) || exists|w: int|
            i + 1 <= w < agents0.len() && agents0[w].id == id) by {
        if has_agent(kept, id) {
            let w = choose|w: int| 0 <= w < kept.len() && kept[w].id == id;
            assert(kept1[w].id == id);
            assert(has_agent(kept1, id));
        }
        if sp0.contains_key(id) && !has_agent(kept, id) {
            let w = choose|w: int| i <= w < agents0.len() && agents0[w].id == id;
            if w == i {
                assert(kept1[kept1.len() - 1].id == id);
                assert(has_agent(kept1, id));
            } else {
                assert(i + 1 <= w < agents0.len() && agents0[w].id == id);
            }
        }
        if has_agent(kept1, id) && !has_agent(kept, id) {
            assert(agents0[i].id == id);
            assert(i <= i < agents0.len() && agents0[i].id == id);
            assert(sp0.contains_key(id));
        }
    }
}

/// Inserting a freshly spawned agent keeps the spatial index in sync
/// and keeps agent ids unique.
proof fn lemma_spawn_push_sync(agprev: Seq<Agent>, agent: Agent, sp0: Map<u64, Vec2f>, sp1: Map<u64, Vec2f>)
    requires
        forall|id: u64| #[trigger] sp0.contains_key(id) <==> has_agent(agprev, id),
        forall|x: int, y: int| 0 <= x < y < agprev.len() ==> agprev[x].id != agprev[y].id,
        forall|j: int| 0 <= j < agprev.len() ==> (#[trigger] agprev[j]).id != agent.id,
        sp1 == sp0.insert(agent.id, agent.position),
    ensures
        forall|id: u64| #[trigger] sp1.contains_key(id) <==> has_agent(agprev.push(agent), id),
        forall|x: int, y: int|
            0 <= x < y < agprev.push(agent).len() ==> agprev.push(agent)[x].id != agprev.push(
                agent,
            )[y].id,
{
    let agnew = agprev.push(agent);
    assert forall|id: u64| #[trigger] sp1.contains_key(id) <==> has_agent(agnew, id) by {
        if id == agent.id {
            assert(agnew[agnew.len() - 1].id == id);
        } else {
            if has_agent(agnew, id) {
                let w = choose|w: int| 0 <= w < agnew.len() && agnew[w].id == id;
                assert(agprev[w].id == id);
                assert(has_agent(agprev, id));
            }
            if has_agent(agprev, id) {
                let w = choose|w: int| 0 <= w < agprev.len() && agprev[w].id == id;
                assert(agnew[w].id == id);
            }
        }
    }
    assert forall|x: int, y: int|
        0 <= x < y < agnew.len() implies agnew[x].id != agnew[y].id by {
        if y < agnew.len() - 1 {
            assert(agnew[x] == agprev[x] && agnew[y] == agprev[y]);
        } else {
            assert(agnew[x] == agprev[x]);
        }
    }
}

/// Pushing onto a concatenation extends its right part.
proof fn lemma_concat_push<T>(a: Seq<T>, b: Seq<T>, x: T)
    ensures
        (a + b).push(x) == a + b.push(x),
{
    assert((a + b).push(x) =~= a + b.push(x));
}

/// Mapping over a pushed sequence maps the new element last.
proof fn lemma_map_values_push<A, B>(b: Seq<A>, f: spec_fn(A) -> B, x: A)
    ensures
        b.push(x).map_values(f) == b.map_values(f).push(f(x)),
{
    assert(b.push(x).map_values(f) =~= b.map_values(f).push(f(x)));
}

/// Sequences with pointwise-equal ids carry the same ids.
proof fn lemma_ids_transfer(a: Seq<Agent>, b: Seq<Agent>)
    requires
        a.len() == b.len(),
        forall|i: int| 0 <= i < b.len() ==> (#[trigger] b[i]).id == a[i].id,
    ensures
        forall|id: u64| has_agent(b, id) == has_agent(a, id),
{
    assert forall|id: u64| has_agent(b, id) == has_agent(a, id) by {
        if has_agent(a, id) {
            let w = choose|w: int| 0 <= w < a.len() && a[w].id == id;
            assert(b[w].id == id);
        }
        if has_agent(b, id) {
            let w = choose|w: int| 0 <= w < b.len() && b[w].id == id;
            assert(a[w].id == id);
        }
    }
}

/// After one full step, every agent captured at its start is reported
/// destroyed exactly once and is gone from the final agent set.
proof fn lemma_step_wrapup(
    groups: Seq<SourceSink>,
    agents0: Seq<Agent>,
    kept0: Seq<Agent>,
    rng0: u64,
    nid0: u64,
    dt: int,
    capev: Seq<CrowdEvent>,
    events: Seq<CrowdEvent>,
    agents1: Seq<Agent>,
    moved: Seq<Agent>,
)
    requires
        forall|x: int, y: int| 0 <= x < y < agents0.len() ==> agents0[x].id != agents0[y].id,
        forall|i: int| 0 <= i < agents0.len() ==> (#[trigger] agents0[i]).id < nid0,
        kept0 == survivors_upto(groups, agents0, agents0.len() as int),
        capev == captured_events_upto(groups, agents0, agents0.len() as int),
        agents1 == kept0 + spawn_upto(groups, groups.len() as int, rng0, nid0, dt).agents,
        events == capev + spawn_upto(groups, groups.len() as int, rng0, nid0, dt).events,
        moved.len() == agents1.len(),
        forall|i: int| 0 <= i < moved.len() ==> (#[trigger] moved[i]).id == agents1[i].id,
    ensures
        forall|j: int|
            0 <= j < agents0.len() && in_sink(groups, #[trigger] agents0[j]) ==> count_destroyed(
                events,
                agents0[j].id,
            ) == 1 && !has_agent(moved, agents0[j].id),
{
    let out = spawn_upto(groups, groups.len() as int, rng0, nid0, dt);
    lemma_spawn_agents_ids(groups, groups.len() as int, rng0, nid0, dt);
    lemma_ids_transfer(agents1, moved);
    assert forall|j: int|
        0 <= j < agents0.len() && in_sink(groups, #[trigger] agents0[j]) implies count_destroyed(
        events,
        agents0[j].id,
    ) == 1 && !has_agent(moved, agents0[j].id) by {
        let id = agents0[j].id;
        lemma_sink_capture(groups, agents0, j, agents0.len() as int);
        lemma_spawn_no_destroyed(groups, groups.len() as int, rng0, nid0, dt, id);
        lemma_count_destroyed_add(capev, out.events, id);
        if has_agent(agents1, id) {
            let w = choose|w: int| 0 <= w < agents1.len() && agents1[w].id == id;
            if w < kept0.len() {
                assert(kept0[w].id == id);
                assert(has_agent(kept0, id));
                assert(false);
            } else {
                assert(out.agents[w - kept0.len()].id == id);
                assert(false);
            }
        }
    }
}

/// The id freshness of the spawn fold, for use by the wrap-up proof.
proof fn lemma_spawn_agents_ids(groups: Seq<SourceSink>, n: int, rng: u64, next_id: u64, dt: int)
    requires
        0 <= n <= groups.len(),
    ensures
        forall|i: int|
            0 <= i < spawn_upto(groups, n, rng, next_id, dt).agents.len() ==> next_id <= (
            #[trigger] spawn_upto(groups, n, rng, next_id, dt).agents[i]).id,
    decreases n,
{
    if n > 0 {
        lemma_spawn_agents_ids(groups, n - 1, rng, next_id, dt);
        let prev = spawn_upto(groups, n - 1, rng, next_id, dt);
        let out = spawn_upto(groups, n, rng, next_id, dt);
        lemma_spawn_counts(groups, n - 1, rng, next_id, dt);
        assert forall|i: int|
            0 <= i < out.agents.len() implies next_id <= (#[trigger] out.agents[i]).id by {
            if i < prev.agents.len() {
                assert(out.agents[i] == prev.agents[i]);
            }
        }
    }
}

/// Survivors of the capture phase keep distinct ids.
proof fn lemma_survivors_unique(groups: Seq<SourceSink>, agents: Seq<Agent>, kept: Seq<Agent>)
    requires
        forall|x: int, y: int| 0 <= x < y < agents.len() ==> agents[x].id != agents[y].id,
        kept == survivors_upto(groups, agents, agents.len() as int),
    ensures
        forall|x: int, y: int| 0 <= x < y < kept.len() ==> kept[x].id != kept[y].id,
{
    lemma_survivors_sub(groups, agents, agents.len() as int);
    assert forall|x: int, y: int| 0 <= x < y < kept.len() implies kept[x].id != kept[y].id by {
        let wx = choose|w: int|
            0 <= w < agents.len() && kept[x] == agents[w] && !in_sink(groups, agents[w]);
        let wy = choose|w: int|
            0 <= w < agents.len() && kept[y] == agents[w] && !in_sink(groups, agents[w]);
        if wx == wy {
            lemma_survivors_distinct(groups, agents, agents.len() as int, x, y);
        }
    }
}

/// The stepped multi-agent crowd simulation: an occupancy map, a spatial
/// index, the active agents and the source/sink pairs that create and
/// absorb them, each with its own high-level planner toward its sink.
pub struct Simulation {
    map: SparseOccupancy,
    spatial: LocationHash2D,
    agents: Vec<Agent>,
    source_sinks: Vec<SourceSink>,
    planners: Vec<StubHighLevelPlan>,
    next_agent_id: u64,
    rng: Lcg,
    /// Event buffer a host drains between steps.
    pub event_listener: CrowdEventListener,
    now_ms: i64,
}

impl Simulation {
    /// The occupancy grid's state.
    pub closed spec fn map_spec(self) -> crate::occupancy::GridModel {
        self.map@
    }

    /// The active agents, in stepping order.
    pub closed spec fn agents_spec(self) -> Seq<Agent> {
        self.agents@
    }

    /// The registered source/sink pairs.
    pub closed spec fn source_sinks_spec(self) -> Seq<SourceSink> {
        self.source_sinks@
    }

    /// The next agent id to hand out.
    pub closed spec fn next_id_spec(self) -> u64 {
        self.next_agent_id
    }

    /// The random generator's state.
    pub closed spec fn rng_spec(self) -> u64 {
        self.rng.state_spec()
    }

    /// The queued spawn notifications a host has not drained yet.
    pub closed spec fn listener_spec(self) -> Seq<(u64, Vec2f)> {
        self.event_listener.to_add@
    }

    /// The states of the per-group high-level planners.
    pub closed spec fn planner_models(self) -> Seq<PlannerModel> {
        models_of(self.planners@)
    }

    /// The simulation clock, in milliseconds.
    pub closed spec fn now_spec(self) -> int {
        self.now_ms as int
    }

    /// The agents and planner states one step of `dt` milliseconds
    /// produces: the capture survivors and the fresh spawns, each moved
    /// once by its group planner's desired velocity.
    pub open spec fn step_motion(self, dt: int) -> (Seq<Agent>, Seq<PlannerModel>) {
        let groups = self.source_sinks_spec();
        let base = self.step_survivors() + self.spawn_outcome(dt).agents;
        let pms = spawn_planners_upto(
            groups,
            groups.len() as int,
            self.rng_spec(),
            self.next_id_spec(),
            dt,
            self.planner_models(),
            self.map_spec(),
        );
        motion_upto(self.map_spec(), pms, base, base.len() as int, dt)
    }

    /// The capture events this state would emit on its next step.
    pub open spec fn captured_events(self) -> Seq<CrowdEvent> {
        captured_events_upto(
            self.source_sinks_spec(),
            self.agents_spec(),
            self.agents_spec().len() as int,
        )
    }

    /// The agents that would survive the capture phase of the next step.
    pub open spec fn step_survivors(self) -> Seq<Agent> {
        survivors_upto(
            self.source_sinks_spec(),
            self.agents_spec(),
            self.agents_spec().len() as int,
        )
    }

    /// What the spawn phase of the next step would produce.
    pub open spec fn spawn_outcome(self, dt: int) -> SpawnOutcome {
        spawn_upto(
            self.source_sinks_spec(),
            self.source_sinks_spec().len() as int,
            self.rng_spec(),
            self.next_id_spec(),
            dt,
        )
    }

    /// Well-formed simulation state.
    pub closed spec fn wf(self) -> bool {
        &&& self.map@.wf()
        &&& self.spatial.wf()
        &&& self.planners@.len() == self.source_sinks@.len()
        &&& forall|i: int|
            0 <= i < self.planners@.len() ==> (#[trigger] self.planners@[i]).wf()
                && self.planners@[i].sample_resolution_spec() == self.map@.resolution
        &&& forall|i: int| 0 <= i < self.source_sinks@.len() ==> (#[trigger] self.source_sinks@[i]).wf()
        &&& forall|i: int|
            0 <= i < self.agents@.len() ==> (#[trigger] self.agents@[i]).group
                < self.source_sinks@.len() && in_extent(self.agents@[i].position)
                && self.agents@[i].id < self.next_agent_id
        &&& forall|x: int, y: int|
            0 <= x < y < self.agents@.len() ==> self.agents@[x].id != self.agents@[y].id
        &&& forall|id: u64|
            #[trigger] self.spatial.model().contains_key(id) <==> has_agent(self.agents@, id)
    }

    /// A fresh simulation over the given map and spatial index, with an
    /// explicit random seed for the arrival processes.
    pub fn new(map: SparseOccupancy, spatial: LocationHash2D, seed: u64) -> (r: Self)
        requires
            map@.wf(),
            spatial.wf(),
            spatial.model() == Map::<u64, Vec2f>::empty(),
        ensures
            r.wf(),
            r.map_spec() == map@,
            r.agents_spec().len() == 0,
            r.source_sinks_spec().len() == 0,
            r.next_id_spec() == 0,
            r.rng_spec() == seed,
            r.listener_spec().len() == 0,
    {
        Simulation {
            map,
            spatial,
            agents: Vec::new(),
            source_sinks: Vec::new(),
            planners: Vec::new(),
            next_agent_id: 0,
            rng: Lcg::new(seed),
            event_listener: CrowdEventListener::new(),
            now_ms: 0,
        }
    }

    /// Register a source/sink pair; it gets its own high-level planner
    /// that discretizes at the map's resolution.
    pub fn add_source_sink(&mut self, ss: SourceSink)
        requires
            old(self).wf(),
            ss.wf(),
        ensures
            final(self).wf(),
            final(self).source_sinks_spec() == old(self).source_sinks_spec().push(ss),
            final(self).agents_spec() == old(self).agents_spec(),
            final(self).map_spec() == old(self).map_spec(),
            final(self).next_id_spec() == old(self).next_id_spec(),
            final(self).rng_spec() == old(self).rng_spec(),
            final(self).listener_spec() == old(self).listener_spec(),
            final(self).now_spec() == old(self).now_spec(),
            (final(self).planner_models() == old(self).planner_models().push(
                PlannerModel {
                    target: None,
                    cache: Map::<u128, Vec2f>::empty(),
                    sample_resolution: old(self).map_spec().resolution,
                    default_vel: Vec2f { x: NOMINAL_SPEED, y: 0 },
                    plans: 0,
                },
            )),
    {
        let res = self.map.resolution();
        let ghost plprev = self.planners@;
        let pl = StubHighLevelPlan::new(Vec2f { x: NOMINAL_SPEED, y: 0 }, res);
        proof {
            lemma_models_push(plprev, pl);
        }
        self.planners.push(pl);
        self.source_sinks.push(ss);
    }

    /// How many agents are active.
    pub fn agent_count(&self) -> (r: usize)
        ensures
            r == self.agents_spec().len(),
    {
        self.agents.len()
    }

    /// The agent at a stepping-order index.
    pub fn agent_at(&self, i: usize) -> (r: Agent)
        requires
            i < self.agents_spec().len(),
        ensures
            r == self.agents_spec()[i as int],
    {
        self.agents[i]
    }

    /// The current state of the agent with the given id, or nothing if it
    /// has despawned.
    pub fn get_agent(&self, id: u64) -> (r: Option<Agent>)
        ensures
            (r matches Some(a) ==> a.id == id && has_agent(self.agents_spec(), id)),
            (r is None ==> !has_agent(self.agents_spec(), id)),
    {
        let mut i: usize = 0;
        while i < self.agents.len()
            invariant
                0 <= i <= self.agents@.len(),
                forall|j: int| 0 <= j < i ==> (#[trigger] self.agents@[j]).id != id,
            decreases self.agents@.len() - i,
        {
            if self.agents[i].id == id {
                return Some(self.agents[i]);
            }
            i += 1;
        }
        proof {
            if has_agent(self.agents@, id) {
                let j = choose|j: int| 0 <= j < self.agents@.len() && self.agents@[j].id == id;
                assert(false);
            }
        }
        None
    }

    /// The occupancy report of the map at a fixed-point position.
    pub fn get_occupancy(&self, pt: &Vec2f) -> (r: Option<bool>)
        requires
            self.wf(),
            pt.in_range(),
        ensures
            r == self.map_spec().occupancy_of(
                crate::occupancy::SparseOccupancyIndex::of_point(*pt, self.map_spec().resolution),
            ),
    {
        self.map.get_occupancy(pt)
    }

    /// Add or update a wall on the occupancy map from the document's
    /// resolved endpoint positions. A missing endpoint is a broken
    /// reference: it is reported as an error and the grid is left
    /// untouched, with no partial rasterization.
    pub fn add_or_update_wall(
        &mut self,
        id: u32,
        start: Option<Vec2f>,
        end: Option<Vec2f>,
    ) -> (r: Result<(), WallUpdateError>)
        requires
            old(self).wf(),
            (start matches Some(p) ==> p.in_range()),
            (end matches Some(p) ==> p.in_range()),
        ensures
            final(self).wf(),
            (r is Ok <==> start is Some && end is Some),
            (r is Err ==> *final(self) == *old(self) && r == Err::<(), WallUpdateError>(
                WallUpdateError::BrokenWallReference,
            )),
            (start matches Some(sp) ==> (end matches Some(ep) ==> final(self).map_spec() == old(
                self,
            ).map_spec().wall_update(
                id,
                crate::occupancy::SparseOccupancyIndex::of_point(sp, old(self).map_spec().resolution),
                crate::occupancy::SparseOccupancyIndex::of_point(ep, old(self).map_spec().resolution),
            ))),
            final(self).agents_spec() == old(self).agents_spec(),
            final(self).source_sinks_spec() == old(self).source_sinks_spec(),
            final(self).next_id_spec() == old(self).next_id_spec(),
            final(self).rng_spec() == old(self).rng_spec(),
            final(self).listener_spec() == old(self).listener_spec(),
            final(self).now_spec() == old(self).now_spec(),
            final(self).planner_models() == old(self).planner_models(),
    {
        match (start, end) {
            (Some(s), Some(e)) => {
                self.map.add_or_update_wall(&id, &s, &e);
                Ok(())
            },
            _ => Err(WallUpdateError::BrokenWallReference),
        }
    }


    /// Capture phase of one step: every agent inside its sink radius at
    /// phase start is removed, with one destruction event each, in agent
    /// order; the others survive unchanged.
    fn capture_phase(&mut self, events: &mut Vec<CrowdEvent>)
        requires
            old(self).wf(),
        ensures
            final(self).wf(),
            final(self).agents@ == survivors_upto(
                old(self).source_sinks@,
                old(self).agents@,
                old(self).agents@.len() as int,
            ),
            final(events)@ == old(events)@ + captured_events_upto(
                old(self).source_sinks@,
                old(self).agents@,
                old(self).agents@.len() as int,
            ),
            final(self).map == old(self).map,
            final(self).source_sinks@ == old(self).source_sinks@,
            final(self).planners == old(self).planners,
            final(self).next_agent_id == old(self).next_agent_id,
            final(self).rng == old(self).rng,
            final(self).event_listener.to_add@ == old(self).event_listener.to_add@,
            final(self).now_ms == old(self).now_ms,
    {
        let ghost groups = self.source_sinks@;
        let ghost agents0 = self.agents@;
        let ghost ev0 = events@;
        let mut kept: Vec<Agent> = Vec::new();
        let mut i: usize = 0;
        while i < self.agents.len()
            invariant
                old(self).wf(),
                self.agents@ == agents0,
                self.source_sinks@ == groups,
                self.map == old(self).map,
                self.planners@ == old(self).planners@,
                self.planners == old(self).planners,
                self.next_agent_id == old(self).next_agent_id,
                self.rng == old(self).rng,
                self.event_listener.to_add@ == old(self).event_listener.to_add@,
                self.now_ms == old(self).now_ms,
                agents0 == old(self).agents@,
                groups == old(self).source_sinks@,
                0 <= i <= agents0.len(),
                kept@ == survivors_upto(groups, agents0, i as int),
                events@ == ev0 + captured_events_upto(groups, agents0, i as int),
                self.spatial.wf(),
                (forall|id: u64|
                    #[trigger] self.spatial.model().contains_key(id) <==> (has_agent(kept@, id)
                        || exists|w: int| i <= w < agents0.len() && agents0[w].id == id)),
                (forall|id: u64| has_agent(kept@, id) ==> has_agent(agents0, id)),
            decreases agents0.len() - i,
        {
            let a = self.agents[i];
            proof {
                assert(agents0[i as int].group < groups.len() && in_extent(
                    agents0[i as int].position,
                ));
            }
            let ss = self.source_sinks[a.group];
            let d2 = a.position.dist_squared(&ss.sink);
            proof {
                assert(0 <= (ss.radius_sink as int) * (ss.radius_sink as int)
                    <= 0x1000_0000_0000_0000_0000) by (nonlinear_arith)
                    requires
                        0 <= ss.radius_sink <= 0x4000_0000;
            }
            let ghost keptprev = kept@;
            let ghost spprev = self.spatial.model();
            if d2 <= (ss.radius_sink as i128) * (ss.radius_sink as i128) {
                proof {
                    assert(in_sink(groups, agents0[i as int]));
                    assert(i <= i < agents0.len() && agents0[i as int].id == a.id);
                    assert(self.spatial.model().contains_key(a.id));
                }
                self.spatial.remove_agent(a.id);
                let ghost evprev = events@;
                events.push(CrowdEvent::Destroyed { id: a.id });
                proof {
                    lemma_capture_remove_sync(
                        groups,
                        agents0,
                        keptprev,
                        i as int,
                        spprev,
                        self.spatial.model(),
                    );
                    lemma_concat_push(
                        ev0,
                        captured_events_upto(groups, agents0, i as int),
                        CrowdEvent::Destroyed { id: a.id },
                    );
                }
            } else {
                kept.push(a);
                proof {
                    assert(!in_sink(groups, agents0[i as int]));
                    assert(kept@ =~= survivors_upto(groups, agents0, i as int + 1));
                    lemma_capture_keep_sync(groups, agents0, keptprev, i as int, spprev);
                    assert forall|id: u64| has_agent(kept@, id) implies has_agent(agents0, id) by {
                        if has_agent(keptprev, id) {
                        } else {
                            assert(agents0[i as int].id == id);
                        }
                    }
                }
            }
            i += 1;
        }
        self.agents = kept;
        proof {
            lemma_survivors_unique(groups, agents0, kept@);
            lemma_survivors_sub(groups, agents0, agents0.len() as int);
            assert forall|j: int|
                0 <= j < kept@.len() implies (#[trigger] kept@[j]).group < groups.len()
                    && in_extent(kept@[j].position) && kept@[j].id < self.next_agent_id by {
                let w = choose|w: int|
                    0 <= w < agents0.len() && kept@[j] == agents0[w] && !in_sink(
                        groups,
                        agents0[w],
                    );
            }
        }
    }


    /// Spawn phase of one step: each source advances its arrival clock
    /// once and spawns at most one agent; a spawning group's planner is
    /// given the group's sink as its target.
    fn spawn_phase(&mut self, delta_time: i64, events: &mut Vec<CrowdEvent>)
        requires
            old(self).wf(),
            0 < delta_time <= STEP_LIMIT_MS,
        ensures
            final(self).wf(),
            ({
                let out = spawn_upto(
                    old(self).source_sinks@,
                    old(self).source_sinks@.len() as int,
                    old(self).rng.state_spec(),
                    old(self).next_agent_id,
                    delta_time as int,
                );
                &&& final(self).agents@ == old(self).agents@ + out.agents
                &&& final(events)@ == old(events)@ + out.events
                &&& final(self).rng.state_spec() == out.rng
                &&& final(self).next_agent_id == out.next_id
                &&& final(self).event_listener.to_add@ == old(self).event_listener.to_add@
                    + pairs_of(out.agents)
            }),
            models_of(final(self).planners@) == spawn_planners_upto(
                old(self).source_sinks@,
                old(self).source_sinks@.len() as int,
                old(self).rng.state_spec(),
                old(self).next_agent_id,
                delta_time as int,
                models_of(old(self).planners@),
                old(self).map@,
            ),
            final(self).map == old(self).map,
            final(self).source_sinks@ == old(self).source_sinks@,
            final(self).now_ms == old(self).now_ms,
    {
        let ghost groups = self.source_sinks@;
        let ghost kept0 = self.agents@;
        let ghost rng0 = self.rng.state_spec();
        let ghost nid0 = self.next_agent_id;
        let ghost listener0 = self.event_listener.to_add@;
        let ghost capev = events@;
        let ghost pms0 = models_of(self.planners@);
        proof {
            assert(self.agents@ =~= kept0 + spawn_upto(
                groups,
                0,
                rng0,
                nid0,
                delta_time as int,
            ).agents);
            assert(events@ =~= capev + spawn_upto(groups, 0, rng0, nid0, delta_time as int).events);
            assert(self.event_listener.to_add@ =~= listener0 + pairs_of(
                spawn_upto(groups, 0, rng0, nid0, delta_time as int).agents,
            ));
        }
        let mut si: usize = 0;
        while si < self.source_sinks.len()
            invariant
                self.map@.wf(),
                (forall|k: int| 0 <= k < groups.len() ==> (#[trigger] groups[k]).wf()),
                self.source_sinks@ == groups,
                self.map == old(self).map,
                self.now_ms == old(self).now_ms,
                0 <= si <= groups.len(),
                0 < delta_time <= STEP_LIMIT_MS,
                ({
                    let out = spawn_upto(groups, si as int, rng0, nid0, delta_time as int);
                    &&& self.agents@ == kept0 + out.agents
                    &&& events@ == capev + out.events
                    &&& self.rng.state_spec() == out.rng
                    &&& self.next_agent_id == out.next_id
                    &&& self.event_listener.to_add@ == listener0 + pairs_of(out.agents)
                }),
                self.spatial.wf(),
                (forall|id: u64|
                    #[trigger] self.spatial.model().contains_key(id) <==> has_agent(
                        self.agents@,
                        id,
                    )),
                (forall|i: int|
                    0 <= i < self.agents@.len() ==> (#[trigger] self.agents@[i]).group
                        < groups.len() && in_extent(self.agents@[i].position)
                        && self.agents@[i].id < self.next_agent_id),
                (forall|x: int, y: int|
                    0 <= x < y < self.agents@.len() ==> self.agents@[x].id != self.agents@[y].id),
                self.planners@.len() == groups.len(),
                (forall|i: int|
                    0 <= i < self.planners@.len() ==> (#[trigger] self.planners@[i]).wf()
                        && self.planners@[i].sample_resolution_spec() == self.map@.resolution),
                models_of(self.planners@) == spawn_planners_upto(
                    groups,
                    si as int,
                    rng0,
                    nid0,
                    delta_time as int,
                    pms0,
                    self.map@,
                ),
            decreases groups.len() - si,
        {
            let ss = self.source_sinks[si];
            let draw = self.rng.next_draw();
            proof {
                assert(ss.wf());
                assert(0 <= ss.rate_micro * delta_time <= 0x4000_0000_0000_0000)
                    by (nonlinear_arith)
                    requires
                        0 <= ss.rate_micro <= 1_000_000_000,
                        0 < delta_time <= 60_000;
            }
            let mut p = ss.rate_micro * delta_time / 1000;
            if p > 1_000_000 {
                p = 1_000_000;
            }
            proof {
                assert(0 <= (ss.rate_micro * delta_time) as int / 1000 <= ss.rate_micro
                    * delta_time) by (nonlinear_arith)
                    requires
                        ss.rate_micro * delta_time >= 0;
                assert(p as int == spawn_prob(ss.rate_micro as int, delta_time as int));
            }
            let ghost agprev = self.agents@;
            let ghost plprev = self.planners@;
            if draw < (p as u64) && self.next_agent_id < 0xFFFF_FFFF_FFFF_FFFFu64 {
                let id = self.next_agent_id;
                let pos = ss.source;
                self.planners[si].set_target(&pos, ss.sink, Vec2f { x: 0, y: 0 }, &self.map);
                proof {
                    assert forall|k: int|
                        0 <= k < self.planners@.len() implies (#[trigger] self.planners@[k]).wf()
                            && self.planners@[k].sample_resolution_spec()
                            == self.map@.resolution by {
                        if k != si as int {
                            assert(self.planners@[k] == plprev[k]);
                        }
                    }
                    lemma_models_update(plprev, si as int, self.planners@[si as int]);
                    assert(self.planners@ == plprev.update(si as int, self.planners@[si as int]));
                    assert(models_of(plprev)[si as int] == plprev[si as int].model());
                    assert(models_of(self.planners@) == spawn_planners_upto(
                        groups,
                        si as int + 1,
                        rng0,
                        nid0,
                        delta_time as int,
                        pms0,
                        self.map@,
                    ));
                }
                proof {
                    if has_agent(self.agents@, id) {
                        let w = choose|w: int|
                            0 <= w < self.agents@.len() && self.agents@[w].id == id;
                        assert(false);
                    }
                }
                let ghost sp0 = self.spatial.model();
                self.spatial.insert_agent(id, &pos);
                let ghost newagent = Agent { id, position: pos, velocity: Vec2f { x: 0, y: 0 }, group: si };
                proof {
                    lemma_spawn_push_sync(agprev, newagent, sp0, self.spatial.model());
                }
                self.agents.push(Agent { id, position: pos, velocity: Vec2f { x: 0, y: 0 }, group: si });
                self.next_agent_id = id + 1;
                events.push(CrowdEvent::Spawned { id, position: pos });
                self.event_listener.agent_spawned(pos, id);
                proof {
                    let outprev = spawn_upto(groups, si as int, rng0, nid0, delta_time as int);
                    let out = spawn_upto(groups, si as int + 1, rng0, nid0, delta_time as int);
                    assert(lcg_draw(out.rng) < spawn_prob(
                        groups[si as int].rate_micro as int,
                        delta_time as int,
                    ));
                    assert(out.agents == outprev.agents.push(newagent));
                    lemma_concat_push(kept0, outprev.agents, newagent);
                    lemma_concat_push(capev, outprev.events, CrowdEvent::Spawned { id, position: pos });
                    lemma_map_values_push(outprev.agents, |a: Agent| spawn_pair(a), newagent);
                    lemma_concat_push(listener0, pairs_of(outprev.agents), (id, pos));
                }
            } else {
                proof {
                    let outprev = spawn_upto(groups, si as int, rng0, nid0, delta_time as int);
                    let out = spawn_upto(groups, si as int + 1, rng0, nid0, delta_time as int);
                    assert(out.agents == outprev.agents && out.events == outprev.events
                        && out.next_id == outprev.next_id);
                }
            }
            si += 1;
        }

    }

    /// Motion phase of one step: every agent asks its group's planner for
    /// a desired velocity — with no local planning it passes through
    /// unchanged — and moves by it, clamped into the world extent.
    fn motion_phase(&mut self, delta_time: i64)
        requires
            old(self).wf(),
            0 < delta_time <= STEP_LIMIT_MS,
        ensures
            final(self).wf(),
            final(self).agents@ == motion_upto(
                old(self).map@,
                models_of(old(self).planners@),
                old(self).agents@,
                old(self).agents@.len() as int,
                delta_time as int,
            ).0,
            models_of(final(self).planners@) == motion_upto(
                old(self).map@,
                models_of(old(self).planners@),
                old(self).agents@,
                old(self).agents@.len() as int,
                delta_time as int,
            ).1,
            final(self).agents@.len() == old(self).agents@.len(),
            (forall|i: int|
                0 <= i < final(self).agents@.len() ==> moved_ok(
                    old(self).agents@[i],
                    #[trigger] final(self).agents@[i],
                    delta_time as int,
                )),
            final(self).map == old(self).map,
            final(self).source_sinks@ == old(self).source_sinks@,
            final(self).next_agent_id == old(self).next_agent_id,
            final(self).rng == old(self).rng,
            final(self).event_listener.to_add@ == old(self).event_listener.to_add@,
            final(self).now_ms == old(self).now_ms,
    {
        let ghost groups = self.source_sinks@;
        let ghost agents1 = self.agents@;
        let ghost pms1 = models_of(self.planners@);
        let mut moved: Vec<Agent> = Vec::new();
        let mut i: usize = 0;
        while i < self.agents.len()
            invariant
                self.map@.wf(),
                self.agents@ == agents1,
                self.source_sinks@ == groups,
                self.map == old(self).map,
                self.rng == old(self).rng,
                self.next_agent_id == old(self).next_agent_id,
                self.event_listener.to_add@ == old(self).event_listener.to_add@,
                self.now_ms == old(self).now_ms,
                groups == old(self).source_sinks@,
                0 <= i <= agents1.len(),
                moved@.len() == i,
                (forall|j: int|
                    0 <= j < i ==> moved_ok(agents1[j], #[trigger] moved@[j], delta_time as int)),
                (forall|j: int|
                    0 <= j < agents1.len() ==> (#[trigger] agents1[j]).group < groups.len()
                        && in_extent(agents1[j].position) && agents1[j].id < self.next_agent_id),
                agents1 == old(self).agents@,
                pms1 == models_of(old(self).planners@),
                (forall|x: int, y: int|
                    0 <= x < y < agents1.len() ==> agents1[x].id != agents1[y].id),
                self.spatial.wf(),
                (forall|id: u64|
                    #[trigger] self.spatial.model().contains_key(id) <==> has_agent(agents1, id)),
                self.planners@.len() == groups.len(),
                (forall|k: int|
                    0 <= k < self.planners@.len() ==> (#[trigger] self.planners@[k]).wf()
                        && self.planners@[k].sample_resolution_spec() == self.map@.resolution),
                0 < delta_time <= STEP_LIMIT_MS,
                moved@ == motion_upto(
                    self.map@,
                    pms1,
                    agents1,
                    i as int,
                    delta_time as int,
                ).0,
                models_of(self.planners@) == motion_upto(
                    self.map@,
                    pms1,
                    agents1,
                    i as int,
                    delta_time as int,
                ).1,
            decreases agents1.len() - i,
        {
            let a = self.agents[i];
            let now = self.now_ms;
            let ghost plprev = self.planners@;
            let ghost fold_prev = motion_upto(self.map@, pms1, agents1, i as int, delta_time as int);
            proof {
                assert(models_of(plprev)[a.group as int] == plprev[a.group as int].model());
            }
            let vopt = self.planners[a.group].get_desired_velocity(&a.position, now, &self.map);
            proof {
                assert forall|k: int|
                    0 <= k < self.planners@.len() implies (#[trigger] self.planners@[k]).wf()
                        && self.planners@[k].sample_resolution_spec() == self.map@.resolution by {
                    if k != a.group as int {
                        assert(self.planners@[k] == plprev[k]);
                    }
                }
                lemma_models_update(plprev, a.group as int, self.planners@[a.group as int]);
                assert(self.planners@ == plprev.update(a.group as int, self.planners@[a.group as int]));
                assert(models_of(self.planners@) == fold_prev.1.update(
                    a.group as int,
                    query_model(fold_prev.1[a.group as int], self.map@, a.position),
                ));
            }
            let v = match vopt {
                Some(v) => v,
                None => Vec2f { x: 0, y: 0 },
            };
            proof {
                assert(-1000 <= v.x <= 1000 && -1000 <= v.y <= 1000);
                assert(-60_000_000 <= v.x * delta_time <= 60_000_000 && -60_000_000 <= v.y
                    * delta_time <= 60_000_000) by (nonlinear_arith)
                    requires
                        -1000 <= v.x <= 1000,
                        -1000 <= v.y <= 1000,
                        0 < delta_time <= 60_000;
            }
            let ddx = scaled_div(v.x * delta_time, 1000);
            let ddy = scaled_div(v.y * delta_time, 1000);
            proof {
                lemma_move_bound(v.x, delta_time);
                lemma_move_bound(v.y, delta_time);
            }
            let nxp = clamp(a.position.x + ddx, WORLD_MIN, WORLD_MAX);
            let nyp = clamp(a.position.y + ddy, WORLD_MIN, WORLD_MAX);
            let np = Vec2f { x: nxp, y: nyp };
            proof {
                assert(self.spatial.model().contains_key(a.id)) by {
                    assert(agents1[i as int].id == a.id);
                }
            }
            self.spatial.update_agent(a.id, &np);
            proof {
                assert forall|id: u64| #[trigger] self.spatial.model().contains_key(id)
                    <==> has_agent(agents1, id) by {
                    if id != a.id {
                    } else {
                        assert(agents1[i as int].id == a.id);
                    }
                }
            }
            moved.push(Agent { id: a.id, position: np, velocity: v, group: a.group });
            proof {
                let foldn = motion_upto(
                    self.map@,
                    pms1,
                    agents1,
                    i as int + 1,
                    delta_time as int,
                );
                assert(v == desired_velocity_model(
                    fold_prev.1[a.group as int],
                    self.map@,
                    a.position,
                ));
                assert(moved@ == foldn.0);
            }
            i += 1;
        }
        self.agents = moved;
        proof {
            lemma_ids_transfer(agents1, moved@);
        }
    }

    /// Advance the simulation by `delta_time` milliseconds. Agents inside
    /// their sink radius at the start of the step are removed, each with
    /// exactly one destruction event; each source then spawns at most one
    /// agent by its Poisson chance for this interval; finally every agent
    /// moves by its desired velocity, clamped into the world extent and
    /// never faster than nominal speed.
    #[verifier::rlimit(100)]
    pub fn step(&mut self, delta_time: i64) -> (events: Vec<CrowdEvent>)
        requires
            old(self).wf(),
            0 < delta_time <= STEP_LIMIT_MS,
        ensures
            final(self).wf(),
            final(self).map_spec() == old(self).map_spec(),
            final(self).source_sinks_spec() == old(self).source_sinks_spec(),
            (events@ == old(self).captured_events() + old(self).spawn_outcome(
                delta_time as int,
            ).events),
            (final(self).rng_spec() == old(self).spawn_outcome(delta_time as int).rng),
            (final(self).next_id_spec() == old(self).spawn_outcome(delta_time as int).next_id),
            (final(self).listener_spec() == old(self).listener_spec() + pairs_of(
                old(self).spawn_outcome(delta_time as int).agents,
            )),
            (final(self).agents_spec().len() == old(self).step_survivors().len() + old(
                self,
            ).spawn_outcome(delta_time as int).agents.len()),
            (forall|i: int|
                0 <= i < final(self).agents_spec().len() ==> moved_ok(
                    (old(self).step_survivors() + old(self).spawn_outcome(
                        delta_time as int,
                    ).agents)[i],
                    #[trigger] final(self).agents_spec()[i],
                    delta_time as int,
                )),
            (final(self).agents_spec() == old(self).step_motion(delta_time as int).0),
            (final(self).planner_models() == old(self).step_motion(delta_time as int).1),
            (final(self).now_spec() == if old(self).now_spec() + delta_time <= i64::MAX {
                old(self).now_spec() + delta_time
            } else {
                old(self).now_spec()
            }),
            (forall|j: int|
                0 <= j < old(self).agents_spec().len() && in_sink(
                    old(self).source_sinks_spec(),
                    #[trigger] old(self).agents_spec()[j],
                ) ==> count_destroyed(events@, old(self).agents_spec()[j].id) == 1 && !has_agent(
                    final(self).agents_spec(),
                    old(self).agents_spec()[j].id,
                )),
    {
        let ghost groups = self.source_sinks@;
        let ghost agents0 = self.agents@;

        // Capture phase: agents inside their sink radius leave.
        let mut events: Vec<CrowdEvent> = Vec::new();
        self.capture_phase(&mut events);

        // Spawn phase: each source advances the arrival clock once.
        let ghost kept0 = self.agents@;
        let ghost capev = events@;
        let ghost rng0 = self.rng.state_spec();
        let ghost nid0 = self.next_agent_id;
        let ghost pms0 = models_of(self.planners@);
        proof {
            assert(capev =~= captured_events_upto(groups, agents0, agents0.len() as int));
            assert(kept0 == old(self).step_survivors());
            assert(capev == old(self).captured_events());
        }
        self.spawn_phase(delta_time, &mut events);

        // Motion phase: every agent follows its desired velocity; with no
        // local planning it passes through unchanged.
        let ghost agents1 = self.agents@;
        let ghost pms1 = models_of(self.planners@);
        proof {
            assert(self.wf());
        }
        self.motion_phase(delta_time);
        let ghost moved = self.agents@;
        if self.now_ms <= i64::MAX - delta_time {
            self.now_ms = self.now_ms + delta_time;
        }

        proof {
            let out = spawn_upto(groups, groups.len() as int, rng0, nid0, delta_time as int);
            lemma_spawn_counts(groups, groups.len() as int, rng0, nid0, delta_time as int);
            lemma_spawn_agents(groups, groups.len() as int, rng0, nid0, delta_time as int);
            assert(pms0 == old(self).planner_models());
            assert(pms1 == spawn_planners_upto(
                groups,
                groups.len() as int,
                rng0,
                nid0,
                delta_time as int,
                pms0,
                self.map@,
            ));
            assert(agents1 == old(self).step_survivors() + old(self).spawn_outcome(
                delta_time as int,
            ).agents);
            assert(self.agents@ == old(self).step_motion(delta_time as int).0);
            assert(models_of(self.planners@) == old(self).step_motion(delta_time as int).1);
            // The final state is well formed.
            lemma_ids_transfer(agents1, moved);
            // Captured agents are gone and reported exactly once.
            lemma_step_wrapup(
                groups,
                agents0,
                kept0,
                rng0,
                nid0,
                delta_time as int,
                capev,
                events@,
                agents1,
                moved,
            );
        }
        events
    }
}

/// How one step is allowed to move an agent: same identity and group, a
/// displacement of at most the step length in each axis (nominal speed),
/// a nominal-speed velocity, and a position inside the world extent.
pub open spec fn moved_ok(a: Agent, b: Agent, dt: int) -> bool {
    &&& b.id == a.id
    &&& b.group == a.group
    &&& crate::planner::iabs(b.position.x - a.position.x) <= dt
    &&& crate::planner::iabs(b.position.y - a.position.y) <= dt
    &&& in_extent(b.position)
    &&& vel_ok(b.velocity)
}

/// Two distinct survivor slots come from distinct slots of the
/// unfiltered agent sequence.
proof fn lemma_survivors_distinct(
    groups: Seq<SourceSink>,
    agents: Seq<Agent>,
    n: int,
    x: int,
    y: int,
)
    requires
        0 <= n <= agents.len(),
        0 <= x < y < survivors_upto(groups, agents, n).len(),
    ensures
        exists|wx: int, wy: int|
            0 <= wx < wy < n && survivors_upto(groups, agents, n)[x] == agents[wx]
                && survivors_upto(groups, agents, n)[y] == agents[wy],
    decreases n,
{
    let cur = survivors_upto(groups, agents, n);
    let prev = survivors_upto(groups, agents, n - 1);
    if y < prev.len() {
        lemma_survivors_distinct(groups, agents, n - 1, x, y);
        let (wx, wy) = choose|wx: int, wy: int|
            0 <= wx < wy < n - 1 && prev[x] == agents[wx] && prev[y] == agents[wy];
        assert(cur[x] == agents[wx] && cur[y] == agents[wy]);
    } else {
        assert(!in_sink(groups, agents[n - 1]));
        assert(cur[y] == agents[n - 1]);
        lemma_survivors_sub(groups, agents, n - 1);
        assert(cur[x] == prev[x]);
        let wx = choose|wx: int|
            0 <= wx < n - 1 && prev[x] == agents[wx] && !in_sink(groups, agents[wx]);
        assert(0 <= wx < n - 1 < n && cur[x] == agents[wx] && cur[y] == agents[n - 1]);
    }
}

/// Moving at a nominal-speed velocity for `dt` milliseconds covers at
/// most `dt` milli-units.
proof fn lemma_move_bound(vx: i64, dt: i64)
    requires
        crate::planner::iabs(vx as int) <= NOMINAL_SPEED,
        0 < dt <= STEP_LIMIT_MS,
    ensures
        crate::planner::iabs(scaled_div_spec(vx * dt, 1000)) <= dt,
        crate::planner::iabs(scaled_div_spec(vx * dt, 1000)) <= 60_000,
{
    let n = vx * dt;
    assert(-1000 * dt <= n <= 1000 * dt) by (nonlinear_arith)
        requires
            -1000 <= vx <= 1000,
            dt > 0,
            n == vx * dt;
    if n >= 0 {
        vstd::arithmetic::div_mod::lemma_fundamental_div_mod(n, 1000);
        let q = n / 1000;
        assert(1000 * q == n - n % 1000);
        assert(0 <= q <= dt);
    } else {
        vstd::arithmetic::div_mod::lemma_fundamental_div_mod(-n, 1000);
        let q = (-n) / 1000;
        assert(1000 * q == -n - (-n) % 1000);
        assert(0 <= q <= dt);
    }
}

} // verus!
