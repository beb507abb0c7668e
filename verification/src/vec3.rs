//! Three-component vectors over [`Fixed`], with componentwise saturating arithmetic.

use crate::fixed::{
    fx_add, fx_div, fx_mul, fx_neg, fx_sub, isqrt, isqrt_u128, lemma_isqrt_exists, saturate,
    Fixed,
};
use vstd::prelude::*;

verus! {

/// The mathematical value of a vector: its three raw components.
pub struct V3 {
    pub x: int,
    pub y: int,
    pub z: int,
}

/// The vector with no extent.
pub open spec fn v3_zero() -> V3 {
    V3 { x: 0, y: 0, z: 0 }
}

/// Sum, component by component.
pub open spec fn v3_add(a: V3, b: V3) -> V3 {
    V3 { x: fx_add(a.x, b.x), y: fx_add(a.y, b.y), z: fx_add(a.z, b.z) }
}

/// Difference, component by component.
pub open spec fn v3_sub(a: V3, b: V3) -> V3 {
    V3 { x: fx_sub(a.x, b.x), y: fx_sub(a.y, b.y), z: fx_sub(a.z, b.z) }
}

/// The opposite vector.
pub open spec fn v3_neg(a: V3) -> V3 {
    V3 { x: fx_neg(a.x), y: fx_neg(a.y), z: fx_neg(a.z) }
}

/// Every component multiplied by the scalar `s`.
pub open spec fn v3_scale(a: V3, s: int) -> V3 {
    V3 { x: fx_mul(a.x, s), y: fx_mul(a.y, s), z: fx_mul(a.z, s) }
}

/// Every component divided by the scalar `s`. Meaningful for `s != 0`.
pub open spec fn v3_div(a: V3, s: int) -> V3 {
    V3 { x: fx_div(a.x, s), y: fx_div(a.y, s), z: fx_div(a.z, s) }
}

/// Sum of the squared raw components.
pub open spec fn v3_norm_sq(a: V3) -> int {
    a.x * a.x + a.y * a.y + a.z * a.z
}

/// Euclidean length in raw units: the floored square root of the squared norm.
#[verifier::opaque]
pub open spec fn v3_len(a: V3) -> int {
    saturate(isqrt(v3_norm_sq(a)))
}

/// Whether every component lies in the raw range.
pub open spec fn v3_in_range(a: V3) -> bool {
    &&& i64::MIN <= a.x <= i64::MAX
    &&& i64::MIN <= a.y <= i64::MAX
    &&& i64::MIN <= a.z <= i64::MAX
}

/// A vector of three fixed-point components.
#[derive(Clone, Copy, Debug, PartialEq, Eq, Structural)]
pub struct Vec3 {
    pub x: Fixed,
    pub y: Fixed,
    pub z: Fixed,
}

impl View for Vec3 {
    type V = V3;

    open spec fn view(&self) -> V3 {
        V3 { x: self.x@, y: self.y@, z: self.z@ }
    }
}

/// The mathematical values of a sequence of vectors.
pub open spec fn v3_seq(s: Seq<Vec3>) -> Seq<V3> {
    s.map_values(|p: Vec3| p@)
}

fn magnitude(v: i64) -> (r: u128)
    ensures
        r as int * r as int == v as int * v as int,
        r <= 0x8000_0000_0000_0000,
{
    let wide: i128 = v as i128;
    if wide >= 0 {
        wide as u128
    } else {
        assert((-wide) * (-wide) == wide * wide) by (nonlinear_arith);
        (-wide) as u128
    }
}

impl Vec3 {
    pub fn new(x: Fixed, y: Fixed, z: Fixed) -> (r: Vec3)
        ensures
            r@ == (V3 { x: x@, y: y@, z: z@ }),
    {
        Vec3 { x, y, z }
    }

    pub fn zero() -> (r: Vec3)
        ensures
            r@ == v3_zero(),
    {
        Vec3 { x: Fixed::zero(), y: Fixed::zero(), z: Fixed::zero() }
    }

    pub fn add(self, rhs: Vec3) -> (r: Vec3)
        ensures
            r@ == v3_add(self@, rhs@),
    {
        Vec3 { x: self.x.add(rhs.x), y: self.y.add(rhs.y), z: self.z.add(rhs.z) }
    }

    pub fn sub(self, rhs: Vec3) -> (r: Vec3)
        ensures
            r@ == v3_sub(self@, rhs@),
    {
        Vec3 { x: self.x.sub(rhs.x), y: self.y.sub(rhs.y), z: self.z.sub(rhs.z) }
    }

    pub fn neg(self) -> (r: Vec3)
        ensures
            r@ == v3_neg(self@),
    {
        Vec3 { x: self.x.neg(), y: self.y.neg(), z: self.z.neg() }
    }

    /// The vector stretched by the factor `s`.
    pub fn scale(self, s: Fixed) -> (r: Vec3)
        ensures
            r@ == v3_scale(self@, s@),
    {
        Vec3 { x: self.x.mul(s), y: self.y.mul(s), z: self.z.mul(s) }
    }

    /// The vector shrunk by the divisor `s`.
    pub fn div(self, s: Fixed) -> (r: Vec3)
        requires
            s@ != 0,
        ensures
            r@ == v3_div(self@, s@),
    {
        Vec3 { x: self.x.div(s), y: self.y.div(s), z: self.z.div(s) }
    }

    /// The Euclidean length, rounded down to a raw unit and clamped to the raw
    /// range.
    pub fn length(self) -> (r: Fixed)
        ensures
            r@ == v3_len(self@),
    {
        let ax: u128 = magnitude(self.x.raw);
        let ay: u128 = magnitude(self.y.raw);
        let az: u128 = magnitude(self.z.raw);
        assert(ax * ax <= 0x4000_0000_0000_0000_0000_0000_0000_0000) by (nonlinear_arith)
            requires
                ax <= 0x8000_0000_0000_0000,
        ;
        assert(ay * ay <= 0x4000_0000_0000_0000_0000_0000_0000_0000) by (nonlinear_arith)
            requires
                ay <= 0x8000_0000_0000_0000,
        ;
        assert(az * az <= 0x4000_0000_0000_0000_0000_0000_0000_0000) by (nonlinear_arith)
            requires
                az <= 0x8000_0000_0000_0000,
        ;
        proof {
            reveal(v3_len);
        }
        let sum: u128 = ax * ax + ay * ay + az * az;
        let root: u128 = isqrt_u128(sum);
        if root > i64::MAX as u128 {
            Fixed { raw: i64::MAX }
        } else {
            Fixed { raw: root as i64 }
        }
    }
}

/// Sums are representable.
pub proof fn lemma_sum_in_range(a: V3, b: V3)
    ensures
        v3_in_range(v3_add(a, b)),
{
    reveal(fx_add);
}

/// Adding nothing to a representable vector changes nothing.
pub proof fn lemma_add_zero(a: V3)
    requires
        v3_in_range(a),
    ensures
        v3_add(a, v3_zero()) == a,
        v3_add(v3_zero(), a) == a,
{
    reveal(fx_add);
}

/// Scaled vectors are representable; scaling by zero gives zero, scaling zero gives
/// zero, and scaling a representable vector by one gives it back.
pub proof fn lemma_scale(a: V3, s: int)
    ensures
        v3_in_range(v3_scale(a, s)),
        v3_scale(a, 0) == v3_zero(),
        v3_scale(v3_zero(), s) == v3_zero(),
        v3_in_range(a) ==> v3_scale(a, 1_000_000_000) == a,
{
    reveal(fx_mul);
    assert(a.x * 0 == 0 && a.y * 0 == 0 && a.z * 0 == 0);
    assert(0 * s == 0);
}

/// Only the zero vector has no length, and no length is negative.
pub proof fn lemma_zero_length(d: V3)
    ensures
        v3_len(d) >= 0,
        v3_len(d) == 0 <==> d == v3_zero(),
{
    reveal(v3_len);
    let n = v3_norm_sq(d);
    assert(n >= 0 && (n == 0 <==> d.x == 0 && d.y == 0 && d.z == 0)) by (nonlinear_arith)
        requires
            n == d.x * d.x + d.y * d.y + d.z * d.z,
    ;
    lemma_isqrt_exists(n);
    let r = isqrt(n);
    assert(r == 0 <==> n == 0) by (nonlinear_arith)
        requires
            0 <= r,
            r * r <= n,
            n < (r + 1) * (r + 1),
    ;
}

/// Two points are no distance apart exactly when they are the same point.
pub proof fn lemma_coincide(a: V3, b: V3)
    ensures
        v3_len(v3_sub(a, b)) >= 0,
        v3_len(v3_sub(a, b)) == 0 <==> a == b,
{
    reveal(fx_sub);
    lemma_zero_length(v3_sub(a, b));
}

} // verus!
