use crowd_sim_core::geometry::Vec2f;
use crowd_sim_core::spatial::LocationHash2D;

fn pt(x: i64, y: i64) -> Vec2f {
    Vec2f::new(x, y)
}

fn fresh_index() -> LocationHash2D {
    LocationHash2D::new(1_000_000, 1_000_000, 20_000, pt(-500_000, -500_000))
}

#[test]
fn neighbours_within_radius_are_exact() {
    let mut idx = fresh_index();
    idx.insert_agent(1, &pt(0, 0));
    idx.insert_agent(2, &pt(3000, 0));
    idx.insert_agent(3, &pt(0, 6000));
    idx.insert_agent(4, &pt(-40_000, -40_000));
    let mut near = idx.get_neighbours_in_radius(&pt(0, 0), 5000);
    near.sort();
    assert_eq!(near, vec![1, 2]);
}

#[test]
fn update_moves_agent_between_queries() {
    let mut idx = fresh_index();
    idx.insert_agent(1, &pt(0, 0));
    assert_eq!(idx.get_neighbours_in_radius(&pt(0, 0), 1000), vec![1]);
    idx.update_agent(1, &pt(100_000, 100_000));
    assert!(idx.get_neighbours_in_radius(&pt(0, 0), 1000).is_empty());
    assert_eq!(idx.get_neighbours_in_radius(&pt(100_000, 100_000), 1000), vec![1]);
}

#[test]
fn removed_agents_are_forgotten() {
    let mut idx = fresh_index();
    idx.insert_agent(1, &pt(0, 0));
    idx.insert_agent(2, &pt(100, 100));
    idx.remove_agent(1);
    assert_eq!(idx.get_neighbours_in_radius(&pt(0, 0), 1000), vec![2]);
}

#[test]
fn radius_boundary_is_inclusive() {
    let mut idx = fresh_index();
    idx.insert_agent(1, &pt(5000, 0));
    assert_eq!(idx.get_neighbours_in_radius(&pt(0, 0), 5000), vec![1]);
    assert!(idx.get_neighbours_in_radius(&pt(0, 0), 4999).is_empty());
}
