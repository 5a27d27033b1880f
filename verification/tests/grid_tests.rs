use crowd_sim_core::geometry::Vec2f;
use crowd_sim_core::occupancy::{SparseOccupancy, SparseOccupancyIndex};

fn pt(x: i64, y: i64) -> Vec2f {
    Vec2f::new(x, y)
}

#[test]
fn cells_floor_negative_coordinates() {
    let c = SparseOccupancyIndex::from_vec2f(&pt(-1, -1), 500);
    assert_eq!((c.x, c.y), (-1, -1));
    let c = SparseOccupancyIndex::from_vec2f(&pt(-500, 499), 500);
    assert_eq!((c.x, c.y), (-1, 0));
    let c = SparseOccupancyIndex::from_vec2f(&pt(999, -501), 500);
    assert_eq!((c.x, c.y), (1, -2));
}

#[test]
fn corner_of_cell() {
    let c = SparseOccupancyIndex { x: 3, y: -2 };
    let p = c.to_vec2f(500);
    assert_eq!((p.x, p.y), (1500, -1000));
}

#[test]
fn wall_rasterizes_interior_cells() {
    // A wall from (0,0) to (2.5,0) units must occupy the cells between
    // its endpoints, not just the two ends.
    let mut g = SparseOccupancy::new(500);
    g.add_or_update_wall(&7, &pt(0, 0), &pt(2500, 0));
    assert_eq!(g.get_occupancy(&pt(1250, 100)), Some(true));
    assert_eq!(g.get_occupancy(&pt(0, 0)), Some(true));
    assert_eq!(g.get_occupancy(&pt(2500, 0)), Some(true));
    assert_eq!(g.get_occupancy(&pt(1250, 900)), Some(false));
}

#[test]
fn wall_update_is_idempotent() {
    let mut once = SparseOccupancy::new(500);
    once.add_or_update_wall(&1, &pt(0, 0), &pt(2000, 1000));
    let mut twice = SparseOccupancy::new(500);
    twice.add_or_update_wall(&1, &pt(0, 0), &pt(2000, 1000));
    twice.add_or_update_wall(&1, &pt(0, 0), &pt(2000, 1000));
    for x in -6i64..6 {
        for y in -6i64..6 {
            let p = pt(x * 500 + 250, y * 500 + 250);
            assert_eq!(once.get_occupancy(&p), twice.get_occupancy(&p));
        }
    }
}

#[test]
fn wall_update_clears_stale_cells() {
    let mut g = SparseOccupancy::new(500);
    g.add_or_update_wall(&1, &pt(0, 0), &pt(2000, 0));
    assert_eq!(g.get_occupancy(&pt(1000, 0)), Some(true));
    // Move the same wall elsewhere: its old cells must be freed.
    g.add_or_update_wall(&1, &pt(0, 2000), &pt(2000, 2000));
    assert_eq!(g.get_occupancy(&pt(1000, 0)), Some(false));
    assert_eq!(g.get_occupancy(&pt(1000, 2000)), Some(true));
}

#[test]
fn overlapping_walls_keep_other_occupant() {
    let mut g = SparseOccupancy::new(500);
    g.add_or_update_wall(&1, &pt(0, 0), &pt(2000, 0));
    g.add_or_update_wall(&2, &pt(0, 0), &pt(0, 2000));
    // Moving wall 1 away must not free the corner cell wall 2 still holds.
    g.add_or_update_wall(&1, &pt(5000, 5000), &pt(6000, 5000));
    assert_eq!(g.get_occupancy(&pt(100, 100)), Some(true));
}

#[test]
fn occupancy_outside_known_radius_is_unknown() {
    let g = SparseOccupancy::new(500);
    assert_eq!(g.get_occupancy(&pt(10_000, 0)), Some(false));
    assert_eq!(g.get_occupancy(&pt(25_000, 0)), None);
    assert_eq!(g.get_occupancy(&pt(15_000, 15_000)), None);
}

#[test]
fn marked_cells_outside_radius_are_known() {
    let mut g = SparseOccupancy::new(500);
    g.add_or_update_wall(&3, &pt(25_000, 0), &pt(26_000, 0));
    assert_eq!(g.get_occupancy(&pt(25_000, 0)), Some(true));
}

#[test]
fn in_bounds_check_matches_radius() {
    let g = SparseOccupancy::new(500);
    assert!(g.check_in_bounds(&SparseOccupancyIndex { x: 0, y: 0 }));
    assert!(g.check_in_bounds(&SparseOccupancyIndex { x: 39, y: 0 }));
    assert!(!g.check_in_bounds(&SparseOccupancyIndex { x: 40, y: 0 }));
    assert!(!g.check_in_bounds(&SparseOccupancyIndex { x: 30, y: 30 }));
}

#[test]
fn edges_skip_occupied_and_unknown_neighbors() {
    let mut g = SparseOccupancy::new(500);
    let home = SparseOccupancyIndex { x: 0, y: 0 };
    assert_eq!(g.edges_from_vertex(&home).len(), 8);
    // Occupy the cell right of home: one edge disappears.
    g.add_or_update_wall(&1, &pt(600, 100), &pt(600, 100));
    let edges = g.edges_from_vertex(&home);
    assert_eq!(edges.len(), 7);
    for (from, to) in &edges {
        assert_eq!(*from, home);
        assert!(!(to.x == 1 && to.y == 0));
    }
    // At the rim of the known universe most neighbors are unknown.
    let rim = SparseOccupancyIndex { x: 39, y: 0 };
    assert!(g.edges_from_vertex(&rim).len() < 8);
}

#[test]
fn vertex_is_cell_center_inside_bounds() {
    let g = SparseOccupancy::new(500);
    let v = g.vertex(&SparseOccupancyIndex { x: 2, y: -1 }).unwrap();
    assert_eq!((v.x, v.y), (1250, -250));
    assert!(g.vertex(&SparseOccupancyIndex { x: 1000, y: 1000 }).is_none());
}
