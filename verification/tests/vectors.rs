use xpbd_cloth::{Fixed, Vec3};

fn v(x: i64, y: i64, z: i64) -> Vec3 {
    Vec3::new(Fixed::from_raw(x), Fixed::from_raw(y), Fixed::from_raw(z))
}

fn raw(p: Vec3) -> (i64, i64, i64) {
    (p.x.raw, p.y.raw, p.z.raw)
}

#[test]
fn zero_vector_has_zero_components() {
    assert_eq!(raw(Vec3::zero()), (0, 0, 0));
}

#[test]
fn sum_difference_and_negation_work_by_component() {
    let a = v(1, -2, 3);
    let b = v(10, 20, -30);
    assert_eq!(raw(a.add(b)), (11, 18, -27));
    assert_eq!(raw(a.sub(b)), (-9, -22, 33));
    assert_eq!(raw(a.neg()), (-1, 2, -3));
}

#[test]
fn components_saturate_independently() {
    let a = v(i64::MAX, 0, i64::MIN);
    let b = v(1, 1, -1);
    assert_eq!(raw(a.add(b)), (i64::MAX, 1, i64::MIN));
}

#[test]
fn scaling_multiplies_every_component() {
    let a = v(2_000_000_000, -4_000_000_000, 1);
    assert_eq!(raw(a.scale(Fixed::from_raw(500_000_000))), (1_000_000_000, -2_000_000_000, 0));
    assert_eq!(raw(a.scale(Fixed::one())), (2_000_000_000, -4_000_000_000, 1));
    assert_eq!(raw(a.scale(Fixed::zero())), (0, 0, 0));
}

#[test]
fn dividing_by_a_scalar_divides_every_component() {
    let a = v(3_000_000_000, -1_000_000_000, 1);
    assert_eq!(raw(a.div(Fixed::from_raw(2_000_000_000))), (1_500_000_000, -500_000_000, 0));
    assert_eq!(raw(a.div(Fixed::from_int(3))), (1_000_000_000, -333_333_333, 0));
}

#[test]
fn length_of_a_three_four_five_triangle() {
    assert_eq!(v(3_000_000_000, 4_000_000_000, 0).length().raw, 5_000_000_000);
    assert_eq!(v(0, -3_000_000_000, 4_000_000_000).length().raw, 5_000_000_000);
}

#[test]
fn length_is_floored() {
    assert_eq!(v(1_000_000_000, 1_000_000_000, 1_000_000_000).length().raw, 1_732_050_807);
    assert_eq!(v(1, 1, 0).length().raw, 1);
    assert_eq!(v(1, 1, 1).length().raw, 1);
    assert_eq!(v(2, 2, 1).length().raw, 3);
}

#[test]
fn length_ignores_signs() {
    assert_eq!(v(-7, 0, 0).length().raw, 7);
    assert_eq!(v(0, 0, i64::MIN).length().raw, i64::MAX);
    assert_eq!(v(i64::MAX, 0, 0).length().raw, i64::MAX);
}

#[test]
fn length_is_zero_only_for_the_zero_vector() {
    assert_eq!(Vec3::zero().length().raw, 0);
    assert_eq!(v(0, 1, 0).length().raw, 1);
    assert_eq!(v(0, 0, -1).length().raw, 1);
}

#[test]
fn length_saturates_for_huge_vectors() {
    assert_eq!(v(i64::MAX, i64::MAX, i64::MAX).length().raw, i64::MAX);
    assert_eq!(v(i64::MIN, i64::MIN, i64::MIN).length().raw, i64::MAX);
}
