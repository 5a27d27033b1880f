use crowd_sim_core::geometry::Vec2f;
use crowd_sim_core::occupancy::SparseOccupancy;
use crowd_sim_core::sim::{CrowdEvent, Simulation, SourceSink, WallUpdateError};
use crowd_sim_core::spatial::LocationHash2D;

fn pt(x: i64, y: i64) -> Vec2f {
    Vec2f::new(x, y)
}

fn fresh_sim(seed: u64) -> Simulation {
    let map = SparseOccupancy::new(500);
    let spatial = LocationHash2D::new(1_000_000, 1_000_000, 20_000, pt(-500_000, -500_000));
    Simulation::new(map, spatial, seed)
}

fn always_spawning(source: Vec2f, sink: Vec2f, radius: i64) -> SourceSink {
    SourceSink {
        source,
        sink,
        radius_sink: radius,
        // High enough that the per-step chance saturates: one spawn per step.
        rate_micro: 1_000_000_000,
        agent_eyesight_range: 5_000,
    }
}

#[test]
fn sink_capture_removes_agent_once() {
    // An agent that starts a step inside the sink radius is removed by
    // the end of that step with exactly one destruction event.
    let mut sim = fresh_sim(7);
    // The source sits inside the sink's capture radius.
    sim.add_source_sink(always_spawning(pt(0, -900), pt(0, -1000), 1000));
    let ev1 = sim.step(100);
    assert_eq!(ev1.len(), 1);
    let id0 = match ev1[0] {
        CrowdEvent::Spawned { id, position } => {
            assert_eq!((position.x, position.y), (0, -900));
            id
        },
        _ => panic!("first step must only spawn"),
    };
    assert!(sim.get_agent(id0).is_some());
    let ev2 = sim.step(100);
    let destroyed: Vec<u64> = ev2
        .iter()
        .filter_map(|e| match e {
            CrowdEvent::Destroyed { id } => Some(*id),
            _ => None,
        })
        .collect();
    assert_eq!(destroyed, vec![id0]);
    assert!(sim.get_agent(id0).is_none());
}

#[test]
fn spawn_rate_approaches_expected_count() {
    // Over many steps the number of spawns approaches rate times total
    // duration: 0.2 agents/s for 1000 s is about 200 spawns.
    let mut sim = fresh_sim(12345);
    // Sink far away with tiny radius so agents pile up without capture;
    // source and sink share a cell so planning stays trivial.
    sim.add_source_sink(SourceSink {
        source: pt(0, 3000),
        sink: pt(100, 3100),
        radius_sink: 0,
        rate_micro: 200_000,
        agent_eyesight_range: 5_000,
    });
    let mut spawns = 0u64;
    for _ in 0..10_000 {
        let evs = sim.step(100);
        for e in &evs {
            if matches!(e, CrowdEvent::Spawned { .. }) {
                spawns += 1;
            }
        }
    }
    assert!(spawns > 140 && spawns < 260, "spawns = {}", spawns);
}

#[test]
fn agents_move_by_their_desired_velocity() {
    // The first step spawns an agent at the source with its planner
    // aimed at the sink straight below; the next step must move it
    // exactly velocity times delta-time: 1 unit/s south for 100 ms.
    let mut sim = fresh_sim(5);
    sim.add_source_sink(always_spawning(pt(0, 3000), pt(0, -1000), 1000));
    let ev = sim.step(100);
    let id = match ev[0] {
        CrowdEvent::Spawned { id, .. } => id,
        _ => panic!("expected a spawn"),
    };
    // Spawned agents move in the same step they appear.
    let a = sim.get_agent(id).unwrap();
    assert_eq!((a.velocity.x, a.velocity.y), (0, -1000));
    assert_eq!((a.position.x, a.position.y), (0, 2900));
    sim.step(100);
    let a = sim.get_agent(id).unwrap();
    assert_eq!((a.position.x, a.position.y), (0, 2800));
}

#[test]
fn agents_walk_toward_their_sink() {
    let mut sim = fresh_sim(3);
    sim.add_source_sink(always_spawning(pt(0, 3000), pt(0, -1000), 1000));
    let ev = sim.step(100);
    let id = match ev[0] {
        CrowdEvent::Spawned { id, .. } => id,
        _ => panic!("expected a spawn"),
    };
    let start = sim.get_agent(id).unwrap().position;
    for _ in 0..20 {
        sim.step(100);
    }
    match sim.get_agent(id) {
        Some(a) => assert!(a.position.y < start.y),
        // Walking into the sink and being captured is progress too.
        None => {},
    }
}

#[test]
fn agent_reaches_sink_and_despawns() {
    let mut sim = fresh_sim(9);
    sim.add_source_sink(SourceSink {
        source: pt(0, 3000),
        sink: pt(0, -1000),
        radius_sink: 1000,
        rate_micro: 1_000_000_000,
        agent_eyesight_range: 5_000,
    });
    let ev = sim.step(100);
    let id = match ev[0] {
        CrowdEvent::Spawned { id, .. } => id,
        _ => panic!("expected a spawn"),
    };
    // 4 units at 1 unit/s is 4 s; give it 10 s of steps.
    let mut destroyed = 0;
    for _ in 0..100 {
        for e in &sim.step(100) {
            if matches!(e, CrowdEvent::Destroyed { id: d } if *d == id) {
                destroyed += 1;
            }
        }
    }
    assert_eq!(destroyed, 1);
    assert!(sim.get_agent(id).is_none());
}

#[test]
fn stepping_is_deterministic_for_a_seed() {
    let mut a = fresh_sim(42);
    let mut b = fresh_sim(42);
    a.add_source_sink(always_spawning(pt(0, 3000), pt(0, -1000), 1000));
    b.add_source_sink(always_spawning(pt(0, 3000), pt(0, -1000), 1000));
    for _ in 0..30 {
        let ea = a.step(100);
        let eb = b.step(100);
        assert_eq!(ea, eb);
    }
    assert_eq!(a.agent_count(), b.agent_count());
    for i in 0..a.agent_count() {
        assert_eq!(a.agent_at(i), b.agent_at(i));
    }
}

#[test]
fn broken_wall_reference_is_an_error() {
    let mut sim = fresh_sim(1);
    assert_eq!(
        sim.add_or_update_wall(5, None, Some(pt(1000, 0))),
        Err(WallUpdateError::BrokenWallReference)
    );
    assert_eq!(
        sim.add_or_update_wall(5, Some(pt(0, 0)), None),
        Err(WallUpdateError::BrokenWallReference)
    );
    // Nothing was rasterized.
    assert_eq!(sim.get_occupancy(&pt(0, 0)), Some(false));
    assert_eq!(sim.add_or_update_wall(5, Some(pt(0, 0)), Some(pt(1000, 0))), Ok(()));
    assert_eq!(sim.get_occupancy(&pt(500, 0)), Some(true));
}

#[test]
fn spawned_agents_are_queued_for_the_host() {
    let mut sim = fresh_sim(8);
    sim.add_source_sink(always_spawning(pt(0, 3000), pt(0, -1000), 1000));
    sim.step(100);
    sim.step(100);
    assert_eq!(sim.event_listener.to_add.len(), 2);
    let (id0, p0) = sim.event_listener.to_add[0];
    assert_eq!(id0, 0);
    assert_eq!((p0.x, p0.y), (0, 3000));
}
