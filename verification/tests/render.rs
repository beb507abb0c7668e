use xpbd_cloth::{Cloth, Fixed, Vec3};

fn v(x: i64, y: i64, z: i64) -> Vec3 {
    Vec3::new(Fixed::from_raw(x), Fixed::from_raw(y), Fixed::from_raw(z))
}

#[test]
fn an_empty_cloth_draws_nothing() {
    let cloth = Cloth::new();
    assert!(cloth.vertex_positions().is_empty());
    assert!(cloth.edge_indices().is_empty());
}

#[test]
fn vertex_positions_are_x_and_y_in_particle_order() {
    let mut cloth = Cloth::new();
    cloth.add_particle(v(1, 2, 3), false);
    cloth.add_particle(v(-4, -5, -6), true);
    cloth.add_particle(v(7, 8, 9), false);
    let raw: Vec<i64> = cloth.vertex_positions().iter().map(|c| c.raw).collect();
    assert_eq!(raw, vec![1, 2, -4, -5, 7, 8]);
}

#[test]
fn vertex_positions_follow_the_current_positions() {
    let mut cloth = Cloth::new();
    cloth.add_particle(v(1, 2, 3), false);
    cloth.set_previous_position(0, v(50, 60, 70));
    cloth.set_position(0, v(10, 20, 30));
    let raw: Vec<i64> = cloth.vertex_positions().iter().map(|c| c.raw).collect();
    assert_eq!(raw, vec![10, 20]);
}

#[test]
fn edge_indices_are_the_endpoints_in_constraint_order() {
    let g = Cloth::grid(2, 2).unwrap();
    assert_eq!(g.edge_indices(), vec![0, 1, 2, 3, 0, 2, 1, 3, 0, 3, 2, 1]);
}

#[test]
fn buffers_of_the_default_grid() {
    let g = Cloth::grid(10, 10).unwrap();
    let vertices = g.vertex_positions();
    let edges = g.edge_indices();
    assert_eq!(vertices.len(), 200);
    assert_eq!(edges.len(), 684);
    for i in 0..100 {
        assert_eq!(vertices[2 * i], g.position(i).x);
        assert_eq!(vertices[2 * i + 1], g.position(i).y);
    }
    for i in 0..342 {
        assert_eq!(edges[2 * i], g.constraint(i).p0);
        assert_eq!(edges[2 * i + 1], g.constraint(i).p1);
    }
}
