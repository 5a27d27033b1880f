use crowd_sim_core::geometry::Vec2f;
use crowd_sim_core::highlevel::StubHighLevelPlan;
use crowd_sim_core::occupancy::SparseOccupancy;

fn pt(x: i64, y: i64) -> Vec2f {
    Vec2f::new(x, y)
}

#[test]
fn desired_velocity_without_target_is_zero() {
    let g = SparseOccupancy::new(500);
    let mut hl = StubHighLevelPlan::new(pt(1000, 0), 500);
    let v = hl.get_desired_velocity(&pt(0, 0), 0, &g).unwrap();
    assert_eq!((v.x, v.y), (0, 0));
    assert_eq!(hl.plan_count(), 0);
}

#[test]
fn cache_reuse_avoids_replanning() {
    // After set_target, repeated queries from the same position return
    // the same velocity without invoking the planner again.
    let g = SparseOccupancy::new(500);
    let mut hl = StubHighLevelPlan::new(pt(1000, 0), 500);
    hl.set_target(&pt(0, 0), pt(3000, 0), pt(0, 0), &g);
    assert_eq!(hl.plan_count(), 1);
    let v1 = hl.get_desired_velocity(&pt(0, 0), 0, &g).unwrap();
    assert_eq!(hl.plan_count(), 1);
    let v2 = hl.get_desired_velocity(&pt(0, 0), 0, &g).unwrap();
    assert_eq!(hl.plan_count(), 1);
    assert_eq!((v1.x, v1.y), (v2.x, v2.y));
}

#[test]
fn cached_velocity_points_toward_target() {
    let g = SparseOccupancy::new(500);
    let mut hl = StubHighLevelPlan::new(pt(1000, 0), 500);
    hl.set_target(&pt(0, 0), pt(3000, 0), pt(0, 0), &g);
    let v = hl.get_desired_velocity(&pt(0, 0), 0, &g).unwrap();
    assert!(v.x > 0);
    assert!(v.x <= 1000 && v.y.abs() <= 1000);
}

#[test]
fn first_target_wins() {
    let g = SparseOccupancy::new(500);
    let mut hl = StubHighLevelPlan::new(pt(1000, 0), 500);
    hl.set_target(&pt(0, 0), pt(3000, 0), pt(0, 0), &g);
    // A later target in the opposite direction must be ignored.
    hl.set_target(&pt(0, 0), pt(-3000, 0), pt(0, 0), &g);
    assert_eq!(hl.plan_count(), 1);
    let v = hl.get_desired_velocity(&pt(0, 0), 0, &g).unwrap();
    assert!(v.x > 0);
}

#[test]
fn cache_miss_replans_from_new_position() {
    let g = SparseOccupancy::new(500);
    let mut hl = StubHighLevelPlan::new(pt(1000, 0), 500);
    hl.set_target(&pt(0, 0), pt(3000, 0), pt(0, 0), &g);
    assert_eq!(hl.plan_count(), 1);
    // A query from a cell the first plan never visited replans once.
    let v = hl.get_desired_velocity(&pt(0, -4000), 0, &g).unwrap();
    assert_eq!(hl.plan_count(), 2);
    assert!(v.x != 0 || v.y != 0);
    // ... and the fresh plan covers that cell for the next query.
    let _ = hl.get_desired_velocity(&pt(0, -4000), 0, &g).unwrap();
    assert_eq!(hl.plan_count(), 2);
}

#[test]
fn no_op_methods_keep_state() {
    let g = SparseOccupancy::new(500);
    let mut hl = StubHighLevelPlan::new(pt(1000, 0), 500);
    hl.remove_agent_id(42);
    hl.set_map(&g);
    assert_eq!(hl.plan_count(), 0);
}
