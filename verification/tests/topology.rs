use xpbd_cloth::{Cloth, Fixed, Vec3};

fn v(x: i64, y: i64, z: i64) -> Vec3 {
    Vec3::new(Fixed::from_raw(x), Fixed::from_raw(y), Fixed::from_raw(z))
}

fn links(cloth: &Cloth) -> Vec<(usize, usize)> {
    (0..cloth.num_constraints()).map(|i| (cloth.constraint(i).p0, cloth.constraint(i).p1)).collect()
}

fn same(a: &Cloth, b: &Cloth) -> bool {
    a.num_particles() == b.num_particles()
        && a.num_constraints() == b.num_constraints()
        && (0..a.num_particles()).all(|i| {
            a.position(i) == b.position(i)
                && a.previous_position(i) == b.previous_position(i)
                && a.is_fixed(i) == b.is_fixed(i)
        })
        && (0..a.num_constraints()).all(|i| a.constraint(i) == b.constraint(i))
}

#[test]
fn grid_needs_two_particles_each_way() {
    assert!(Cloth::grid(1, 5).is_none());
    assert!(Cloth::grid(5, 1).is_none());
    assert!(Cloth::grid(0, 0).is_none());
    assert!(Cloth::grid(-3, 4).is_none());
    assert!(Cloth::grid(4, i32::MIN).is_none());
    assert!(Cloth::grid(2, 2).is_some());
}

#[test]
fn grid_is_no_finer_than_the_raw_unit() {
    assert!(Cloth::grid(1_000_000_001, 2).is_none());
    assert!(Cloth::grid(2, 1_000_000_001).is_none());
    assert!(Cloth::grid(i32::MAX, i32::MAX).is_none());
}

#[test]
fn grid_lies_in_the_unit_square_with_all_particles_apart() {
    for (nx, ny) in [(2, 2), (3, 7), (10, 10), (33, 5)] {
        let g = Cloth::grid(nx, ny).unwrap();
        let n = g.num_particles();
        for i in 0..n {
            let p = g.position(i);
            assert!(-500_000_000 <= p.x.raw && p.x.raw < 500_000_000);
            assert!(-500_000_000 < p.y.raw && p.y.raw <= 500_000_000);
            assert_eq!(p.z, p.x.mul(Fixed::from_raw(10_000_000)));
            for j in 0..i {
                assert!(g.position(j) != p);
            }
        }
        for i in 0..g.num_constraints() {
            assert!(g.constraint(i).length.raw > 0);
        }
    }
}

#[test]
fn smallest_grid_positions() {
    let g = Cloth::grid(2, 2).unwrap();
    assert_eq!(g.num_particles(), 4);
    assert_eq!(g.position(0), v(-500_000_000, 500_000_000, -5_000_000));
    assert_eq!(g.position(1), v(-500_000_000, 0, -5_000_000));
    assert_eq!(g.position(2), v(0, 500_000_000, 0));
    assert_eq!(g.position(3), v(0, 0, 0));
}

#[test]
fn grid_starts_at_rest() {
    let g = Cloth::grid(4, 3).unwrap();
    for i in 0..g.num_particles() {
        assert_eq!(g.previous_position(i), g.position(i));
    }
    for i in 0..g.num_constraints() {
        assert_eq!(g.constraint(i).lambda, Vec3::zero());
    }
}

#[test]
fn grid_anchors_the_ends_of_the_top_row() {
    let g = Cloth::grid(2, 2).unwrap();
    let mask: Vec<bool> = (0..4).map(|i| g.is_fixed(i)).collect();
    assert_eq!(mask, vec![true, false, true, false]);
    let g = Cloth::grid(10, 10).unwrap();
    let anchors: Vec<usize> = (0..100).filter(|&i| g.is_fixed(i)).collect();
    assert_eq!(anchors, vec![0, 90]);
    let g = Cloth::grid(3, 2).unwrap();
    let anchors: Vec<usize> = (0..6).filter(|&i| g.is_fixed(i)).collect();
    assert_eq!(anchors, vec![0, 4]);
}

#[test]
fn smallest_grid_constraints_in_order() {
    let g = Cloth::grid(2, 2).unwrap();
    assert_eq!(links(&g), vec![(0, 1), (2, 3), (0, 2), (1, 3), (0, 3), (2, 1)]);
    let rest: Vec<i64> = (0..6).map(|i| g.constraint(i).length.raw).collect();
    assert_eq!(
        rest,
        vec![500_000_000, 500_000_000, 500_024_999, 500_024_999, 707_124_458, 707_124_458]
    );
}

#[test]
fn three_by_two_grid() {
    let g = Cloth::grid(3, 2).unwrap();
    assert_eq!(g.position(2), v(-166_666_667, 500_000_000, -1_666_666));
    assert_eq!(g.position(5), v(166_666_666, 0, 1_666_666));
    assert_eq!(
        links(&g),
        vec![
            (0, 1),
            (2, 3),
            (4, 5),
            (0, 2),
            (1, 3),
            (2, 4),
            (3, 5),
            (0, 3),
            (2, 1),
            (2, 5),
            (4, 3)
        ]
    );
    assert_eq!(g.constraint(3).length.raw, 333_349_999);
    assert_eq!(g.constraint(7).length.raw, 600_934_457);
}

#[test]
fn ten_by_ten_grid() {
    let g = Cloth::grid(10, 10).unwrap();
    assert_eq!(g.num_particles(), 100);
    assert_eq!(g.num_constraints(), 342);
    assert_eq!(g.position(0), v(-500_000_000, 500_000_000, -5_000_000));
    assert_eq!(g.position(1), v(-500_000_000, 400_000_000, -5_000_000));
    assert_eq!(g.position(10), v(-400_000_000, 500_000_000, -4_000_000));
    assert_eq!(g.position(99), v(400_000_000, -400_000_000, 4_000_000));
    let l = links(&g);
    assert_eq!(l[0], (0, 1));
    assert_eq!(l[89], (98, 99));
    assert_eq!(l[90], (0, 10));
    assert_eq!(l[179], (89, 99));
    assert_eq!(l[180], (0, 11));
    assert_eq!(l[181], (10, 1));
    assert_eq!(l[341], (98, 89));
    assert_eq!(g.constraint(0).length.raw, 100_000_000);
    assert_eq!(g.constraint(90).length.raw, 100_004_999);
    assert_eq!(g.constraint(180).length.raw, 141_424_891);
}

#[test]
fn rest_length_is_the_distance_at_build_time() {
    let g = Cloth::grid(5, 7).unwrap();
    for i in 0..g.num_constraints() {
        let c = g.constraint(i);
        assert_eq!(c.length, g.position(c.p0).sub(g.position(c.p1)).length());
        assert!(c.p0 != c.p1);
    }
}

#[test]
fn constraint_counts_by_family() {
    for (nx, ny) in [(2, 2), (2, 5), (5, 2), (3, 4), (7, 7)] {
        let g = Cloth::grid(nx, ny).unwrap();
        let (x, y) = (nx as usize, ny as usize);
        assert_eq!(g.num_particles(), x * y);
        assert_eq!(g.num_constraints(), x * (y - 1) + (x - 1) * y + 2 * (x - 1) * (y - 1));
    }
}

#[test]
fn building_twice_gives_the_same_cloth() {
    let a = Cloth::grid(6, 4).unwrap();
    let b = Cloth::grid(6, 4).unwrap();
    assert!(same(&a, &b));
    let c = Cloth::grid(4, 6).unwrap();
    assert!(!same(&a, &c));
}
