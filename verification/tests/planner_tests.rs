use crowd_sim_core::geometry::Vec2f;
use crowd_sim_core::occupancy::SparseOccupancy;

fn pt(x: i64, y: i64) -> Vec2f {
    Vec2f::new(x, y)
}

#[test]
fn straight_line_is_reachable() {
    // On an empty grid a plan from (0,0) to (5,0) units ends within one
    // cell-resolution of the target, with strictly increasing timestamps.
    let g = SparseOccupancy::new(500);
    let t = g.plan(&pt(0, 0), &pt(5000, 0)).expect("empty grid must be plannable");
    let wps = &t.waypoints;
    assert!(wps.len() >= 2);
    assert_eq!(wps[0].time, 0);
    let last = wps[wps.len() - 1];
    assert!((last.position.x - 5000).abs() <= 500);
    assert!((last.position.y - 0).abs() <= 500);
    for i in 0..wps.len() - 1 {
        assert!(wps[i].time < wps[i + 1].time);
    }
}

#[test]
fn planning_is_deterministic() {
    let mut g = SparseOccupancy::new(500);
    g.add_or_update_wall(&1, &pt(1000, -2000), &pt(1000, 2000));
    let a = g.plan(&pt(0, 0), &pt(4000, 0)).expect("detour must exist");
    let b = g.plan(&pt(0, 0), &pt(4000, 0)).expect("detour must exist");
    assert_eq!(a.waypoints.len(), b.waypoints.len());
    for i in 0..a.waypoints.len() {
        assert_eq!(a.waypoints[i].position, b.waypoints[i].position);
        assert_eq!(a.waypoints[i].time, b.waypoints[i].time);
    }
}

#[test]
fn plan_avoids_walls() {
    let mut g = SparseOccupancy::new(500);
    g.add_or_update_wall(&1, &pt(1000, -2000), &pt(1000, 2000));
    let t = g.plan(&pt(0, 0), &pt(4000, 0)).expect("detour must exist");
    // No waypoint after the first may sit in an occupied cell.
    for w in &t.waypoints[1..] {
        assert_eq!(g.get_occupancy(&w.position), Some(false));
    }
}

#[test]
fn fenced_target_has_no_path() {
    // Occupy all 8 neighbors of cell (10, 10); its center is (5250, 5250).
    let mut g = SparseOccupancy::new(500);
    let mut id = 1u32;
    for dx in -1i64..=1 {
        for dy in -1i64..=1 {
            if dx == 0 && dy == 0 {
                continue;
            }
            let p = pt((10 + dx) * 500 + 250, (10 + dy) * 500 + 250);
            g.add_or_update_wall(&id, &p, &p);
            id += 1;
        }
    }
    assert!(g.plan(&pt(0, 0), &pt(5250, 5250)).is_none());
}

#[test]
fn plan_to_own_cell_is_trivial() {
    let g = SparseOccupancy::new(500);
    let t = g.plan(&pt(100, 100), &pt(400, 400)).expect("same cell");
    assert_eq!(t.waypoints.len(), 1);
    assert_eq!(t.waypoints[0].time, 0);
    assert_eq!((t.waypoints[0].position.x, t.waypoints[0].position.y), (250, 250));
}

#[test]
fn plan_from_unknown_region_fails() {
    // Far outside the known radius every cell is unknown, so the search
    // finds no free neighbor to step into.
    let g = SparseOccupancy::new(500);
    assert!(g.plan(&pt(30_000, 30_000), &pt(0, 0)).is_none());
}

#[test]
fn diagonal_segments_cost_more() {
    let g = SparseOccupancy::new(500);
    let straight = g.plan(&pt(0, 0), &pt(2000, 0)).unwrap();
    let diagonal = g.plan(&pt(0, 0), &pt(2000, 2000)).unwrap();
    let t1 = straight.waypoints[straight.waypoints.len() - 1].time;
    let t2 = diagonal.waypoints[diagonal.waypoints.len() - 1].time;
    // Four straight hops take 4 * 500 ms; four diagonal hops 4 * 707 ms.
    assert_eq!(t1, 2000);
    assert_eq!(t2, 2828);
}
