use xpbd_cloth::{Fixed, SimType, SolverConfig};

fn fx(raw: i64) -> Fixed {
    Fixed::from_raw(raw)
}

#[test]
fn starting_settings() {
    let c = SolverConfig::new();
    assert_eq!(c.iteration_count(), 2);
    assert_eq!(c.stiffness().raw, 5_000_000_000_000);
    assert_eq!(c.solve_mode(), SimType::GaussSeidel);
    assert!(c.warm_start());
    assert_eq!(c.eta().raw, 1_000_000_000);
    assert_eq!(c.damping().raw, 600_000_000);
    assert_eq!(c.jacobi_relaxation().raw, 600_000_000);
}

#[test]
fn iteration_count_must_be_at_least_one() {
    let mut c = SolverConfig::new();
    assert!(c.set_iteration_count(1));
    assert_eq!(c.iteration_count(), 1);
    assert!(c.set_iteration_count(10));
    assert_eq!(c.iteration_count(), 10);
    assert!(!c.set_iteration_count(0));
    assert!(!c.set_iteration_count(-4));
    assert!(!c.set_iteration_count(i32::MIN));
    assert_eq!(c.iteration_count(), 10);
    assert!(c.set_iteration_count(i32::MAX));
    assert_eq!(c.iteration_count(), 2_147_483_647);
}

#[test]
fn stiffness_must_be_positive() {
    let mut c = SolverConfig::new();
    assert!(c.set_stiffness(fx(1)));
    assert_eq!(c.stiffness().raw, 1);
    assert!(!c.set_stiffness(fx(0)));
    assert!(!c.set_stiffness(fx(-1)));
    assert!(!c.set_stiffness(fx(i64::MIN)));
    assert_eq!(c.stiffness().raw, 1);
    assert!(c.set_stiffness(fx(i64::MAX)));
    assert_eq!(c.stiffness().raw, i64::MAX);
}

#[test]
fn eta_must_be_a_fraction() {
    let mut c = SolverConfig::new();
    assert!(c.set_eta(fx(0)));
    assert_eq!(c.eta().raw, 0);
    assert!(c.set_eta(fx(1_000_000_000)));
    assert!(c.set_eta(fx(250_000_000)));
    assert!(!c.set_eta(fx(-1)));
    assert!(!c.set_eta(fx(1_000_000_001)));
    assert_eq!(c.eta().raw, 250_000_000);
}

#[test]
fn damping_must_be_a_fraction() {
    let mut c = SolverConfig::new();
    assert!(c.set_damping(fx(0)));
    assert!(c.set_damping(fx(1_000_000_000)));
    assert!(!c.set_damping(fx(-1)));
    assert!(!c.set_damping(fx(1_000_000_001)));
    assert_eq!(c.damping().raw, 1_000_000_000);
}

#[test]
fn jacobi_relaxation_must_be_a_fraction() {
    let mut c = SolverConfig::new();
    assert!(c.set_jacobi_relaxation(fx(0)));
    assert!(c.set_jacobi_relaxation(fx(1_000_000_000)));
    assert!(c.set_jacobi_relaxation(fx(10_000_000)));
    assert!(!c.set_jacobi_relaxation(fx(-1)));
    assert!(!c.set_jacobi_relaxation(fx(2_000_000_000)));
    assert_eq!(c.jacobi_relaxation().raw, 10_000_000);
}

#[test]
fn mode_and_warm_start_are_taken_as_given() {
    let mut c = SolverConfig::new();
    c.set_solve_mode(SimType::Jacobi);
    assert_eq!(c.solve_mode(), SimType::Jacobi);
    c.set_warm_start(false);
    assert!(!c.warm_start());
    c.set_solve_mode(SimType::GaussSeidel);
    c.set_warm_start(true);
    assert_eq!(c.solve_mode(), SimType::GaussSeidel);
    assert!(c.warm_start());
}

#[test]
fn a_setter_changes_only_its_own_setting() {
    let mut c = SolverConfig::new();
    c.set_eta(fx(1));
    c.set_damping(fx(2));
    c.set_jacobi_relaxation(fx(3));
    c.set_stiffness(fx(4));
    c.set_iteration_count(5);
    assert_eq!(
        (c.eta().raw, c.damping().raw, c.jacobi_relaxation().raw, c.stiffness().raw),
        (1, 2, 3, 4)
    );
    assert_eq!(c.iteration_count(), 5);
    assert_eq!(c.solve_mode(), SimType::GaussSeidel);
    assert!(c.warm_start());
}
