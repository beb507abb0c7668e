use xpbd_cloth::solver::{compliance_of, effective_eta_of, SEQUENTIAL_CARRY, STEP_RATE};
use xpbd_cloth::{Cloth, Fixed, SimType, SolveError, SolverConfig, Vec3};

const ONE: i64 = 1_000_000_000;

fn v(x: i64, y: i64, z: i64) -> Vec3 {
    Vec3::new(Fixed::from_raw(x), Fixed::from_raw(y), Fixed::from_raw(z))
}

fn settings(passes: i32, mode: SimType, warm: bool) -> SolverConfig {
    let mut c = SolverConfig::new();
    assert!(c.set_iteration_count(passes));
    c.set_solve_mode(mode);
    c.set_warm_start(warm);
    c
}

/// An anchor at `anchor` joined to a free particle at `free`, which is then moved to
/// `moved` so that the constraint is off its rest length.
fn rod(anchor: Vec3, free: Vec3, moved: Vec3) -> Cloth {
    let mut cloth = Cloth::new();
    cloth.add_particle(anchor, true);
    cloth.add_particle(free, false);
    assert!(cloth.add_constraint(0, 1));
    cloth.set_position(1, moved);
    cloth
}

fn hanging_rod() -> Cloth {
    rod(v(0, ONE, 0), v(0, 0, 0), v(0, -ONE / 2, 0))
}

fn same(a: &Cloth, b: &Cloth) -> bool {
    a.num_particles() == b.num_particles()
        && a.num_constraints() == b.num_constraints()
        && (0..a.num_particles()).all(|i| {
            a.position(i) == b.position(i)
                && a.previous_position(i) == b.previous_position(i)
                && a.is_fixed(i) == b.is_fixed(i)
        })
        && (0..a.num_constraints()).all(|i| a.constraint(i) == b.constraint(i))
}

#[test]
fn constants() {
    assert_eq!(STEP_RATE, 60);
    assert_eq!(SEQUENTIAL_CARRY, 700_000_000);
}

#[test]
fn compliance_is_the_squared_step_rate_over_the_stiffness() {
    assert_eq!(compliance_of(Fixed::from_int(5000)).raw, 720_000_000);
    assert_eq!(compliance_of(Fixed::from_int(3600)).raw, ONE);
    assert_eq!(compliance_of(Fixed::from_raw(1)).raw, i64::MAX);
    assert_eq!(compliance_of(Fixed::from_raw(i64::MAX)).raw, 390);
}

#[test]
fn effective_eta_depends_on_the_order() {
    let mut c = settings(1, SimType::Jacobi, true);
    assert_eq!(effective_eta_of(&c).raw, ONE);
    c.set_solve_mode(SimType::GaussSeidel);
    assert_eq!(effective_eta_of(&c).raw, 700_000_000);
    assert!(c.set_eta(Fixed::from_raw(500_000_000)));
    assert_eq!(effective_eta_of(&c).raw, 350_000_000);
    c.set_solve_mode(SimType::Jacobi);
    assert_eq!(effective_eta_of(&c).raw, 500_000_000);
}

#[test]
fn one_cold_gauss_seidel_pass_on_a_rod() {
    let mut cloth = hanging_rod();
    assert_eq!(cloth.solve(&settings(1, SimType::GaussSeidel, false)), Ok(()));
    assert_eq!(cloth.position(0), v(0, ONE, 0));
    assert_eq!(cloth.position(1), v(0, -209_302_326, 0));
    assert_eq!(cloth.constraint(0).lambda, v(0, -290_697_674, 0));
    assert_eq!(cloth.constraint(0).length.raw, ONE);
    assert_eq!(cloth.previous_position(1), v(0, 0, 0));
}

#[test]
fn second_pass_uses_the_multiplier_of_the_first() {
    let mut cloth = hanging_rod();
    assert_eq!(cloth.solve(&settings(2, SimType::GaussSeidel, false)), Ok(()));
    assert_eq!(cloth.position(1), v(0, -209_302_326, 0));
    assert_eq!(cloth.constraint(0).lambda, v(0, -290_697_674, 0));
}

#[test]
fn one_jacobi_pass_is_under_relaxed() {
    let mut cloth = hanging_rod();
    assert_eq!(cloth.solve(&settings(1, SimType::Jacobi, false)), Ok(()));
    assert_eq!(cloth.position(1), v(0, -325_581_396, 0));
    assert_eq!(cloth.constraint(0).lambda, v(0, -290_697_674, 0));
}

#[test]
fn slanted_rod() {
    let mut cloth =
        rod(v(0, 0, 0), v(300_000_000, -400_000_000, 0), v(600_000_000, -800_000_000, 0));
    assert_eq!(cloth.constraint(0).length.raw, 500_000_000);
    assert_eq!(cloth.solve(&settings(1, SimType::GaussSeidel, false)), Ok(()));
    assert_eq!(cloth.position(1), v(425_581_396, -567_441_861, 0));
    assert_eq!(cloth.constraint(0).lambda, v(174_418_604, -232_558_139, 0));
}

#[test]
fn two_free_particles_share_the_correction() {
    let mut cloth = Cloth::new();
    cloth.add_particle(v(0, 0, 0), false);
    cloth.add_particle(v(2 * ONE, 0, 0), false);
    cloth.add_constraint(0, 1);
    cloth.set_position(1, v(3 * ONE, 0, 0));
    assert_eq!(cloth.solve(&settings(1, SimType::GaussSeidel, false)), Ok(()));
    assert_eq!(cloth.position(0), v(183_823_529, 0, 0));
    assert_eq!(cloth.position(1), v(2_816_176_471, 0, 0));
    assert_eq!(cloth.constraint(0).lambda, v(367_647_058, 0, 0));
}

#[test]
fn warm_start_injects_the_carried_multiplier() {
    let warm = settings(1, SimType::GaussSeidel, true);
    let cold = settings(1, SimType::GaussSeidel, false);
    let mut a = hanging_rod();
    a.solve(&warm).unwrap();
    let mut b = a.clone();
    a.solve(&warm).unwrap();
    b.solve(&cold).unwrap();
    assert!(!same(&a, &b));
    let carried = v(0, -290_697_674, 0).scale(Fixed::from_raw(700_000_000));
    assert_eq!(a.constraint(0).lambda, b.constraint(0).lambda.add(carried));
}

#[test]
fn warm_start_over_two_solves() {
    let warm = settings(2, SimType::GaussSeidel, true);
    let mut cloth = hanging_rod();
    cloth.solve(&warm).unwrap();
    assert_eq!(cloth.position(1), v(0, -209_302_326, 0));
    cloth.solve(&warm).unwrap();
    assert_eq!(cloth.position(1), v(0, -87_614_926, 0));
    assert_eq!(cloth.constraint(0).lambda, v(0, -121_687_400, 0));
}

#[test]
fn first_pass_forgets_the_old_multiplier_without_warm_start() {
    let cold = settings(1, SimType::GaussSeidel, false);
    let mut a = hanging_rod();
    let mut b = hanging_rod();
    b.set_lambda(0, v(123_456, -654_321, 777));
    a.solve(&cold).unwrap();
    b.solve(&cold).unwrap();
    assert!(same(&a, &b));
}

#[test]
fn constraint_between_two_anchors_is_passed_over() {
    let mut cloth = Cloth::new();
    cloth.add_particle(v(0, 0, 0), true);
    cloth.add_particle(v(ONE, 0, 0), true);
    cloth.add_constraint(0, 1);
    cloth.set_position(1, v(5 * ONE, 0, 0));
    cloth.set_lambda(0, v(1, 2, 3));
    let before = cloth.clone();
    for mode in [SimType::GaussSeidel, SimType::Jacobi] {
        assert_eq!(cloth.solve(&settings(3, mode, true)), Ok(()));
        assert!(same(&cloth, &before));
    }
}

#[test]
fn coincident_anchors_are_passed_over_too() {
    let mut cloth = Cloth::new();
    cloth.add_particle(v(7, 7, 7), true);
    cloth.add_particle(v(7, 7, 7), true);
    cloth.add_constraint(0, 1);
    assert_eq!(cloth.solve(&settings(2, SimType::GaussSeidel, true)), Ok(()));
}

#[test]
fn coincident_particles_abandon_the_solve() {
    for mode in [SimType::GaussSeidel, SimType::Jacobi] {
        let mut cloth = Cloth::new();
        cloth.add_particle(v(0, ONE, 0), true);
        cloth.add_particle(v(0, 0, 0), false);
        cloth.add_particle(v(ONE, 0, 0), false);
        cloth.add_constraint(1, 2);
        cloth.add_constraint(0, 1);
        cloth.set_position(1, v(0, -ONE / 2, 0));
        cloth.set_position(2, v(0, -ONE / 2, 0));
        let before = cloth.clone();
        assert_eq!(cloth.solve(&settings(2, mode, true)), Err(SolveError::CoincidentParticles));
        assert!(same(&cloth, &before));
    }
}

#[test]
fn failure_in_a_later_pass_undoes_the_earlier_ones() {
    // At stiffness 3600 the compliance is one, so the first pass moves the free
    // particle by half its residual: exactly onto the anchor below it.
    for mode in [SimType::GaussSeidel, SimType::Jacobi] {
        let mut cloth = Cloth::new();
        cloth.add_particle(v(0, ONE, 0), true);
        cloth.add_particle(v(0, 0, 0), false);
        cloth.add_particle(v(0, -ONE / 4, 0), true);
        cloth.add_constraint(2, 1);
        cloth.add_constraint(0, 1);
        cloth.set_position(1, v(0, -ONE / 2, 0));
        let mut config = settings(1, mode, false);
        assert!(config.set_stiffness(Fixed::from_int(3600)));
        assert!(config.set_jacobi_relaxation(Fixed::one()));
        let mut once = cloth.clone();
        assert_eq!(once.solve(&config), Ok(()));
        assert_eq!(once.position(1), v(0, -ONE / 4, 0));
        assert!(config.set_iteration_count(2));
        let before = cloth.clone();
        assert_eq!(cloth.solve(&config), Err(SolveError::CoincidentParticles));
        assert!(same(&cloth, &before));
    }
}

#[test]
fn gauss_seidel_sees_earlier_corrections_and_jacobi_does_not() {
    let build = || {
        let mut cloth = Cloth::new();
        cloth.add_particle(v(0, ONE, 0), true);
        cloth.add_particle(v(0, 0, 0), false);
        cloth.add_particle(v(0, -ONE, 0), false);
        cloth.add_constraint(0, 1);
        cloth.add_constraint(1, 2);
        cloth.set_position(1, v(0, -ONE / 2, 0));
        cloth
    };
    let mut gs = build();
    gs.solve(&settings(1, SimType::GaussSeidel, false)).unwrap();
    let mut jacobi = build();
    let mut config = settings(1, SimType::Jacobi, false);
    assert!(config.set_jacobi_relaxation(Fixed::one()));
    jacobi.solve(&config).unwrap();
    // The first constraint sees the same state in both orders.
    assert_eq!(gs.constraint(0).lambda, jacobi.constraint(0).lambda);
    // The second one sees the moved particle only in Gauss-Seidel order.
    assert!(gs.constraint(1).lambda != jacobi.constraint(1).lambda);
    assert!(gs.position(2) != jacobi.position(2));
}

#[test]
fn solver_leaves_previous_positions_and_shape_alone() {
    let mut cloth = Cloth::grid(4, 4).unwrap();
    cloth.integrate(Fixed::from_raw(600_000_000));
    let before = cloth.clone();
    cloth.solve(&settings(3, SimType::Jacobi, true)).unwrap();
    for i in 0..cloth.num_particles() {
        assert_eq!(cloth.previous_position(i), before.previous_position(i));
        assert_eq!(cloth.is_fixed(i), before.is_fixed(i));
    }
    for i in 0..cloth.num_constraints() {
        let (a, b) = (cloth.constraint(i), before.constraint(i));
        assert_eq!((a.p0, a.p1, a.length), (b.p0, b.p1, b.length));
    }
}
