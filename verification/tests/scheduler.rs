use xpbd_cloth::scheduler::TICKS_PER_SECOND;
use xpbd_cloth::{Cloth, Fixed, Model, Msg, SimType, StepOutcome, TextSetting, Vec3};

fn v(x: i64, y: i64, z: i64) -> Vec3 {
    Vec3::new(Fixed::from_raw(x), Fixed::from_raw(y), Fixed::from_raw(z))
}

fn same(a: &Cloth, b: &Cloth) -> bool {
    a.num_particles() == b.num_particles()
        && a.num_constraints() == b.num_constraints()
        && (0..a.num_particles()).all(|i| {
            a.position(i) == b.position(i)
                && a.previous_position(i) == b.previous_position(i)
                && a.is_fixed(i) == b.is_fixed(i)
        })
        && (0..a.num_constraints()).all(|i| a.constraint(i) == b.constraint(i))
}

#[test]
fn timestamps_count_microseconds() {
    assert_eq!(TICKS_PER_SECOND, 1_000_000);
}

#[test]
fn a_new_model_waits_for_its_first_frame() {
    let m = Model::create();
    assert!(m.reset_pending());
    assert!(m.lambda_clear_pending());
    assert_eq!(m.cloth().num_particles(), 0);
    assert_eq!(m.cloth().num_constraints(), 0);
    assert_eq!(m.time_step(), 0);
    assert_eq!(m.prev_timestamp(), 0);
    assert_eq!(m.config().iteration_count(), 2);
}

#[test]
fn first_frame_builds_the_grid_and_simulates_nothing() {
    let mut m = Model::create();
    assert_eq!(m.step(5_000_000), StepOutcome::Idle);
    assert!(!m.reset_pending());
    assert!(!m.lambda_clear_pending());
    assert_eq!(m.prev_timestamp(), 5_000_000);
    assert_eq!(m.time_step(), 0);
    assert!(same(m.cloth(), &Cloth::grid(10, 10).unwrap()));
}

#[test]
fn with_grid_takes_the_dimensions() {
    assert!(Model::with_grid(1, 4).is_none());
    assert!(Model::with_grid(4, 1).is_none());
    assert!(Model::with_grid(-2, -2).is_none());
    let mut m = Model::with_grid(3, 5).unwrap();
    assert!(m.reset_pending());
    assert_eq!(m.cloth().num_particles(), 0);
    m.step(0);
    assert!(same(m.cloth(), &Cloth::grid(3, 5).unwrap()));
}

#[test]
fn a_step_is_due_after_a_sixtieth_of_a_second() {
    let mut m = Model::create();
    m.step(1_000);
    assert_eq!(m.step(1_000 + 16_666), StepOutcome::Idle);
    assert_eq!(m.time_step(), 0);
    assert_eq!(m.prev_timestamp(), 1_000);
    assert!(same(m.cloth(), &Cloth::grid(10, 10).unwrap()));
    assert_eq!(m.step(1_000 + 16_667), StepOutcome::Stepped);
    assert_eq!(m.time_step(), 1);
    assert_eq!(m.prev_timestamp(), 17_667);
}

#[test]
fn a_frame_takes_one_step_however_late_it_is() {
    let mut late = Model::create();
    late.step(0);
    assert_eq!(late.step(10_000_000), StepOutcome::Stepped);
    let mut punctual = Model::create();
    punctual.step(0);
    assert_eq!(punctual.step(16_667), StepOutcome::Stepped);
    assert_eq!(late.time_step(), 1);
    assert!(same(late.cloth(), punctual.cloth()));
    assert_eq!(late.prev_timestamp(), 10_000_000);
}

#[test]
fn time_running_backwards_simulates_nothing() {
    let mut m = Model::create();
    m.step(1_000_000);
    assert_eq!(m.step(500_000), StepOutcome::Idle);
    assert_eq!(m.step(0), StepOutcome::Idle);
    assert_eq!(m.prev_timestamp(), 1_000_000);
    assert_eq!(m.time_step(), 0);
}

#[test]
fn the_step_is_one_integration_and_the_configured_passes() {
    let mut m = Model::create();
    m.step(0);
    m.step(20_000);
    let mut by_hand = Cloth::grid(10, 10).unwrap();
    let config = *m.config();
    by_hand.integrate(config.damping());
    by_hand.solve(&config).unwrap();
    assert!(same(m.cloth(), &by_hand));
    let mut stepped = Cloth::grid(10, 10).unwrap();
    stepped.step(&config).unwrap();
    assert!(same(m.cloth(), &stepped));
}

#[test]
fn three_steps_of_the_default_grid() {
    let mut m = Model::create();
    m.step(0);
    for k in 1..=3 {
        assert_eq!(m.step(k * 20_000), StepOutcome::Stepped);
    }
    assert_eq!(m.time_step(), 3);
    let c = m.cloth();
    assert_eq!(c.position(0), v(-500_000_000, 500_000_000, -5_000_000));
    assert_eq!(c.position(1), v(-505_569_811, 369_009_671, -5_055_703));
    assert_eq!(c.position(9), v(-499_997_659, -474_467_772, -4_999_979));
    assert_eq!(c.position(45), v(-100_470_293, -73_852_651, -1_004_697));
    assert_eq!(c.position(90), v(400_000_000, 500_000_000, 4_000_000));
    assert_eq!(c.position(99), v(399_994_554, -474_464_778, 3_999_947));
    assert_eq!(c.constraint(0).lambda, v(-1_079_993, -43_637_682, -10_800));
    assert_eq!(c.constraint(200).lambda, v(18_318_560, -20_227_337, 183_183));
}

#[test]
fn three_jacobi_steps_of_the_default_grid() {
    let mut m = Model::create();
    assert!(m.update(Msg::SimTypeClicked(SimType::Jacobi)));
    m.step(0);
    for k in 1..=3 {
        assert_eq!(m.step(k * 20_000), StepOutcome::Stepped);
    }
    let c = m.cloth();
    assert_eq!(c.position(1), v(-505_219_764, 364_638_430, -5_052_196));
    assert_eq!(c.position(45), v(-100_007_163, -74_458_950, -1_000_071));
    assert_eq!(c.position(99), v(400_000_000, -474_479_997, 4_000_000));
    assert_eq!(c.constraint(0).lambda, v(-968_540, -47_106_367, -9_683));
    assert_eq!(c.constraint(200).lambda, v(13_595_020, -14_456_381, 135_948));
}

#[test]
fn reset_is_carried_out_at_the_next_frame() {
    let mut m = Model::create();
    m.step(0);
    for k in 1..=5 {
        m.step(k * 20_000);
    }
    assert_eq!(m.time_step(), 5);
    assert!(!same(m.cloth(), &Cloth::grid(10, 10).unwrap()));
    assert!(!m.update(Msg::ResetClicked));
    assert!(m.reset_pending());
    assert!(m.lambda_clear_pending());
    assert_eq!(m.time_step(), 5);
    assert!(!same(m.cloth(), &Cloth::grid(10, 10).unwrap()));
    assert_eq!(m.step(7_000_000), StepOutcome::Idle);
    assert!(same(m.cloth(), &Cloth::grid(10, 10).unwrap()));
    assert_eq!(m.time_step(), 0);
    assert_eq!(m.prev_timestamp(), 7_000_000);
    assert!(!m.reset_pending());
    assert!(!m.lambda_clear_pending());
}

#[test]
fn two_resets_give_the_same_cloth() {
    let mut a = Model::with_grid(4, 6).unwrap();
    let mut b = Model::with_grid(4, 6).unwrap();
    a.step(10);
    b.step(999);
    for k in 1..=7 {
        b.step(999 + k * 30_000);
    }
    b.update(Msg::EtaChanged(Fixed::from_raw(300_000_000)));
    b.update(Msg::ResetClicked);
    b.step(50_000_000);
    assert!(same(a.cloth(), b.cloth()));
}

#[test]
fn changing_the_order_clears_the_multipliers_at_the_next_frame() {
    let mut m = Model::create();
    m.step(0);
    m.step(20_000);
    assert!(m.cloth().constraint(0).lambda != Vec3::zero());
    assert!(m.update(Msg::SimTypeClicked(SimType::Jacobi)));
    assert_eq!(m.config().solve_mode(), SimType::Jacobi);
    assert!(m.lambda_clear_pending());
    assert!(m.cloth().constraint(0).lambda != Vec3::zero());
    assert_eq!(m.step(20_001), StepOutcome::Idle);
    assert!(!m.lambda_clear_pending());
    for i in 0..m.cloth().num_constraints() {
        assert_eq!(m.cloth().constraint(i).lambda, Vec3::zero());
    }
}

#[test]
fn toggling_the_warm_start_clears_the_multipliers_at_the_next_frame() {
    let mut m = Model::create();
    m.step(0);
    m.step(20_000);
    let before = m.cloth().clone();
    assert!(m.update(Msg::WarmStartChanged));
    assert!(!m.config().warm_start());
    assert!(m.lambda_clear_pending());
    assert!(same(m.cloth(), &before));
    assert!(m.update(Msg::WarmStartChanged));
    assert!(m.config().warm_start());
    assert!(m.lambda_clear_pending());
    m.step(20_001);
    let mut cleared = before.clone();
    cleared.clear_lambdas();
    assert!(same(m.cloth(), &cleared));
}

#[test]
fn forgetting_the_multipliers_takes_effect_at_once() {
    let mut m = Model::create();
    m.step(0);
    m.step(20_000);
    let mut expected = m.cloth().clone();
    expected.clear_lambdas();
    assert!(!m.update(Msg::CleanLambdaClicked));
    assert!(same(m.cloth(), &expected));
    assert!(!m.lambda_clear_pending());
    assert_eq!(m.time_step(), 1);
}

#[test]
fn settings_are_validated_on_the_way_in() {
    let mut m = Model::create();
    assert!(m.update(Msg::NumIterationsChanged(7)));
    assert!(m.update(Msg::NumIterationsChanged(0)));
    assert_eq!(m.config().iteration_count(), 7);
    assert!(m.update(Msg::StiffnessChanged(Fixed::from_int(1000))));
    assert!(m.update(Msg::StiffnessChanged(Fixed::from_int(0))));
    assert!(m.update(Msg::StiffnessChanged(Fixed::from_int(-5))));
    assert_eq!(m.config().stiffness(), Fixed::from_int(1000));
    assert!(m.update(Msg::EtaChanged(Fixed::from_raw(400_000_000))));
    assert!(m.update(Msg::EtaChanged(Fixed::from_raw(1_400_000_000))));
    assert_eq!(m.config().eta().raw, 400_000_000);
    assert!(m.update(Msg::NuChanged(Fixed::from_raw(990_000_000))));
    assert!(m.update(Msg::NuChanged(Fixed::from_raw(-10))));
    assert_eq!(m.config().damping().raw, 990_000_000);
    assert!(m.update(Msg::JacobiRelaxationChanged(Fixed::from_raw(100_000_000))));
    assert!(m.update(Msg::JacobiRelaxationChanged(Fixed::from_int(2))));
    assert_eq!(m.config().jacobi_relaxation().raw, 100_000_000);
    assert_eq!(m.config().solve_mode(), SimType::GaussSeidel);
    assert!(m.config().warm_start());
}

#[test]
fn plain_settings_leave_the_scheduler_alone() {
    let mut m = Model::with_cloth(Cloth::grid(3, 3).unwrap());
    assert!(!m.reset_pending());
    assert!(!m.lambda_clear_pending());
    m.update(Msg::NumIterationsChanged(4));
    m.update(Msg::StiffnessChanged(Fixed::from_int(100)));
    m.update(Msg::EtaChanged(Fixed::from_raw(1)));
    m.update(Msg::NuChanged(Fixed::from_raw(1)));
    m.update(Msg::JacobiRelaxationChanged(Fixed::from_raw(1)));
    assert!(!m.reset_pending());
    assert!(!m.lambda_clear_pending());
    assert!(same(m.cloth(), &Cloth::grid(3, 3).unwrap()));
}

#[test]
fn a_render_message_runs_the_frame() {
    let mut by_message = Model::create();
    let mut by_call = Model::create();
    for t in [0, 10_000, 20_000, 30_000, 40_000, 100_000] {
        assert!(!by_message.update(Msg::Render(t)));
        by_call.step(t);
    }
    assert_eq!(by_message.time_step(), by_call.time_step());
    assert_eq!(by_message.time_step(), 3);
    assert!(same(by_message.cloth(), by_call.cloth()));
}

#[test]
fn a_step_that_cannot_finish_leaves_the_cloth_alone() {
    let mut cloth = Cloth::new();
    cloth.add_particle(v(0, 0, 0), false);
    cloth.add_particle(v(0, 0, 0), false);
    cloth.add_particle(v(1, 0, 0), false);
    cloth.add_constraint(0, 2);
    cloth.add_constraint(0, 1);
    cloth.set_position(0, v(0, 0, 0));
    let mut m = Model::with_cloth(cloth.clone());
    // Both ends of the second constraint fall alike, so they still coincide.
    assert_eq!(m.step(20_000), StepOutcome::Degenerate);
    assert!(same(m.cloth(), &cloth));
    assert_eq!(m.time_step(), 0);
    assert_eq!(m.prev_timestamp(), 20_000);
    assert_eq!(m.step(20_001), StepOutcome::Idle);
}

#[test]
fn entered_text_sets_a_setting_when_it_is_a_number_in_range() {
    let mut m = Model::create();
    assert!(m.enter(TextSetting::NumIterations, b"7"));
    assert_eq!(m.config().iteration_count(), 7);
    assert!(m.enter(TextSetting::Eta, b"0.35"));
    assert_eq!(m.config().eta().raw, 350_000_000);
    assert!(m.enter(TextSetting::Nu, b"1"));
    assert_eq!(m.config().damping().raw, 1_000_000_000);
    assert!(m.enter(TextSetting::JacobiRelaxation, b".01"));
    assert_eq!(m.config().jacobi_relaxation().raw, 10_000_000);
    assert_eq!(m.config().stiffness(), Fixed::from_int(5000));
}

#[test]
fn entered_text_that_is_not_a_number_changes_nothing() {
    let mut m = Model::create();
    for text in ["", "abc", "1e-3", "0.5.5", " 0.5", "NaN", "inf", "-"] {
        assert!(m.enter(TextSetting::NumIterations, text.as_bytes()));
        assert!(m.enter(TextSetting::Eta, text.as_bytes()));
        assert!(m.enter(TextSetting::Nu, text.as_bytes()));
        assert!(m.enter(TextSetting::JacobiRelaxation, text.as_bytes()));
    }
    assert!(m.enter(TextSetting::NumIterations, b"2.5"));
    assert_eq!(m.config().iteration_count(), 2);
    assert_eq!(m.config().eta().raw, 1_000_000_000);
    assert_eq!(m.config().damping().raw, 600_000_000);
    assert_eq!(m.config().jacobi_relaxation().raw, 600_000_000);
}

#[test]
fn entered_numbers_out_of_range_change_nothing() {
    let mut m = Model::create();
    m.enter(TextSetting::NumIterations, b"0");
    m.enter(TextSetting::NumIterations, b"-3");
    m.enter(TextSetting::NumIterations, b"99999999999");
    m.enter(TextSetting::Eta, b"1.000000001");
    m.enter(TextSetting::Eta, b"-0.1");
    m.enter(TextSetting::Nu, b"2");
    m.enter(TextSetting::JacobiRelaxation, b"-1");
    m.enter(TextSetting::JacobiRelaxation, b"99999999999999999999");
    assert_eq!(m.config().iteration_count(), 2);
    assert_eq!(m.config().eta().raw, 1_000_000_000);
    assert_eq!(m.config().damping().raw, 600_000_000);
    assert_eq!(m.config().jacobi_relaxation().raw, 600_000_000);
}

#[test]
fn entered_text_leaves_the_scheduler_alone() {
    let mut m = Model::with_cloth(Cloth::grid(3, 3).unwrap());
    m.enter(TextSetting::Eta, b"0.5");
    m.enter(TextSetting::NumIterations, b"4");
    assert!(!m.reset_pending());
    assert!(!m.lambda_clear_pending());
    assert_eq!(m.time_step(), 0);
    assert!(same(m.cloth(), &Cloth::grid(3, 3).unwrap()));
}
