//! The rigid limit: how close a stiff constraint comes to its rest length.

use crate::cloth::{constraint_ok, distance, same_shape, ClothView};
use crate::config::{SimType, SolverParams};
use crate::fixed::{fx_add, fx_div, fx_mul, fx_neg, fx_sub, lemma_isqrt_is, quot, saturate};
use crate::solver::{
    compliance, correction, delta_lambda, effective_eta, inv_mass, lemma_solved_keeps, project,
    solved, sweep, zeros, SweepState,
};
use crate::vec3::{
    lemma_add_zero, lemma_scale, v3_add, v3_div, v3_in_range, v3_len, v3_neg, v3_norm_sq, v3_scale,
    v3_sub, v3_zero, V3,
};
use vstd::prelude::*;

verus! {

/// The magnitude of an integer.
pub open spec fn magnitude(v: int) -> int {
    if v < 0 {
        -v
    } else {
        v
    }
}

/// The sign of an integer: one, minus one, or zero.
pub open spec fn sign(v: int) -> int {
    if v < 0 {
        -1
    } else if v > 0 {
        1
    } else {
        0
    }
}

/// Whether a raw value is small enough that sums of a few such values are exact:
/// at most two to the sixtieth in magnitude.
pub open spec fn moderate(v: int) -> bool {
    -0x1000_0000_0000_0000 <= v <= 0x1000_0000_0000_0000
}

/// The product of a sign and a value, written out.
pub proof fn lemma_signed_value(s: int, r: int)
    requires
        -1 <= s <= 1,
    ensures
        s * r == (if s == 1 {
            r
        } else if s == -1 {
            -r
        } else {
            0
        }),
        (-s) * r == -(s * r),
{
    if s == 1 {
        assert(1 * r == r);
        assert((-1) * r == -r);
    } else if s == -1 {
        assert((-1) * r == -r);
        assert(1 * r == r);
    } else {
        assert(0 * r == 0);
    }
}

/// Scaling a signed unit by a moderate value gives the value with that sign.
pub proof fn lemma_signed_product(s: int, r: int)
    requires
        -1 <= s <= 1,
        -0x4000_0000_0000_0000 <= r <= 0x4000_0000_0000_0000,
    ensures
        fx_mul(s * 1_000_000_000, r) == s * r,
{
    reveal(fx_mul);
    if s == 1 {
        assert((1_000_000_000 * r) == r * 1_000_000_000);
    } else if s == -1 {
        assert((-1_000_000_000 * r) == -(r * 1_000_000_000));
    } else {
        assert(0 * r == 0);
    }
}

/// What is left of a residual `r` once it has been reduced by the share
/// `one / (one + soft)` of itself, rounded toward zero: at most the share
/// `soft / (one + soft)` and one raw unit.
pub proof fn lemma_gain(r: int, soft: int)
    requires
        soft >= 0,
    ensures
        ({
            let d = 1_000_000_000 + soft;
            let t = quot(r * 1_000_000_000, d);
            &&& magnitude(t) <= magnitude(r)
            &&& sign(t) == 0 || sign(t) == sign(r)
            &&& magnitude(r - t) == magnitude(r) - magnitude(t)
            &&& d * magnitude(r - t) <= magnitude(r) * soft + d
        }),
{
    let d = 1_000_000_000 + soft;
    let m = magnitude(r);
    let q = (m * 1_000_000_000) / d;
    assert(0 <= q && q <= m && d * (m - q) <= m * soft + d) by (nonlinear_arith)
        requires
            m >= 0,
            soft >= 0,
            d == 1_000_000_000 + soft,
            q == (m * 1_000_000_000) / d,
    ;
    if r < 0 {
        assert(-(r * 1_000_000_000) == m * 1_000_000_000) by (nonlinear_arith)
            requires
                m == -r,
        ;
    }
}

/// From a stiffness of one on, the compliance is moderate, and its product with
/// the stiffness is at most the squared step rate: it shrinks as the stiffness
/// grows.
pub proof fn lemma_compliance_shrinks(stiffness: int)
    requires
        1_000_000_000 <= stiffness,
    ensures
        0 <= compliance(stiffness) <= 3_600_000_000_000,
        compliance(stiffness) * stiffness <= 3_600_000_000_000 * 1_000_000_000,
{
    reveal(fx_div);
    let n = 3_600_000_000_000int * 1_000_000_000;
    let q = n / stiffness;
    assert(0 <= q <= 3_600_000_000_000 && q * stiffness <= n) by (nonlinear_arith)
        requires
            n == 3_600_000_000_000int * 1_000_000_000,
            1_000_000_000 <= stiffness,
            q == n / stiffness,
    ;
}

/// The correction that a rigid constraint would make: the residual along the unit
/// vector from the second end to the first.
pub open spec fn rigid_pull(a: V3, b: V3, rest: int) -> V3 {
    let d = v3_sub(a, b);
    let len = v3_len(d);
    v3_scale(v3_div(d, len), fx_sub(len, rest))
}

/// Whether `got` is as close to the opposite of `pull` as the compliance allows:
/// within the share `soft / (1 + soft)` of `pull` and two raw units.
pub open spec fn near_rigid(got: int, pull: int, soft: int) -> bool {
    (1_000_000_000 + soft) * magnitude(got + pull) <= magnitude(pull) * soft + 2 * (1_000_000_000
        + soft)
}

/// Dividing the opposite of a representable value by one plus the compliance gives
/// a value near the rigid one.
pub proof fn lemma_softened(y: int, soft: int)
    requires
        i64::MIN <= y <= i64::MAX,
        0 <= soft,
    ensures
        near_rigid(fx_div(fx_neg(y), 1_000_000_000 + soft), y, soft),
{
    reveal(fx_neg);
    reveal(fx_div);
    let n = fx_neg(y);
    let whole = 1_000_000_000 + soft;
    lemma_gain(n, soft);
    let g = quot(n * 1_000_000_000, whole);
    assert(whole * magnitude(g + y) <= magnitude(y) * soft + 2 * whole) by (nonlinear_arith)
        requires
            whole * magnitude(n - g) <= magnitude(n) * soft + whole,
            magnitude(n) <= magnitude(y),
            magnitude(g + y) <= magnitude(n - g) + 1,
            soft >= 0,
            whole == 1_000_000_000 + soft,
    ;
}

/// Stiffness limit of one correction: on the first pass of a cold start, the
/// change of the multiplier of a constraint with one anchored end is, in every
/// component, near the opposite of the rigid correction. The share that separates
/// them shrinks with the compliance, which is at most the squared step rate over
/// the stiffness.
pub proof fn theorem_correction_nears_rigid(
    a: V3,
    b: V3,
    fixed0: bool,
    fixed1: bool,
    rest: int,
    lambda: V3,
    p: SolverParams,
)
    requires
        fixed0 != fixed1,
        1_000_000_000 <= p.stiffness,
        p.warm_start ==> lambda == v3_zero(),
    ensures
        ({
            let delta = delta_lambda(a, b, fixed0, fixed1, rest, lambda, p, true);
            let pull = rigid_pull(a, b, rest);
            let soft = compliance(p.stiffness);
            &&& 0 <= soft
            &&& soft * p.stiffness <= 3_600_000_000_000 * 1_000_000_000
            &&& near_rigid(delta.x, pull.x, soft)
            &&& near_rigid(delta.y, pull.y, soft)
            &&& near_rigid(delta.z, pull.z, soft)
        }),
{
    let pull = rigid_pull(a, b, rest);
    let soft = compliance(p.stiffness);
    lemma_compliance_shrinks(p.stiffness);
    assert(v3_in_range(pull)) by {
        reveal(fx_mul);
    }
    lemma_scale(v3_zero(), soft);
    lemma_scale(lambda, effective_eta(p));
    lemma_add_zero(pull);
    assert(fx_add(fx_add(inv_mass(fixed0), inv_mass(fixed1)), soft) == 1_000_000_000 + soft) by {
        reveal(fx_add);
    }
    lemma_softened(pull.x, soft);
    lemma_softened(pull.y, soft);
    lemma_softened(pull.z, soft);
    let base = v3_div(v3_neg(pull), 1_000_000_000 + soft);
    assert(v3_in_range(base)) by {
        reveal(fx_div);
    }
    lemma_add_zero(base);
}

/// Whether at most one component of a vector is not zero.
pub open spec fn on_an_axis(d: V3) -> bool {
    (d.x == 0 && d.y == 0) || (d.x == 0 && d.z == 0) || (d.y == 0 && d.z == 0)
}

/// A vector along an axis is as long as its one component is large.
pub proof fn lemma_length_on_an_axis(d: V3)
    requires
        on_an_axis(d),
        v3_in_range(d),
    ensures
        v3_len(d) == saturate(magnitude(d.x) + magnitude(d.y) + magnitude(d.z)),
{
    reveal(v3_len);
    let m = magnitude(d.x) + magnitude(d.y) + magnitude(d.z);
    assert(v3_norm_sq(d) == m * m) by (nonlinear_arith)
        requires
            on_an_axis(d),
            m == magnitude(d.x) + magnitude(d.y) + magnitude(d.z),
    ;
    assert(m * m < (m + 1) * (m + 1)) by (nonlinear_arith)
        requires
            m >= 0,
    ;
    lemma_isqrt_is(m * m, m);
}

/// Dividing a component by the length of its axis-aligned vector leaves its sign.
pub proof fn lemma_unit_component(u: int, len: int)
    requires
        len > 0,
        u == 0 || magnitude(u) == len,
    ensures
        fx_div(u, len) == sign(u) * 1_000_000_000,
{
    reveal(fx_div);
    if u > 0 {
        assert((u * 1_000_000_000) / u == 1_000_000_000) by (nonlinear_arith)
            requires
                u > 0,
        ;
    } else if u < 0 {
        let m = -u;
        assert(-(u * 1_000_000_000) == m * 1_000_000_000) by (nonlinear_arith)
            requires
                m == -u,
        ;
        assert((m * 1_000_000_000) / m == 1_000_000_000) by (nonlinear_arith)
            requires
                m > 0,
        ;
    }
}

/// Whether all three coordinates of a point are moderate.
pub open spec fn moderate_point(a: V3) -> bool {
    moderate(a.x) && moderate(a.y) && moderate(a.z)
}

/// A rod: two particles, exactly one of them anchored, joined by the only
/// constraint, which lies along a coordinate axis. The particles do not coincide,
/// and all coordinates and the rest length are moderate.
pub open spec fn is_axis_rod(c: ClothView) -> bool {
    &&& c.wf()
    &&& c.len() == 2
    &&& c.constraints.len() == 1
    &&& c.fixed[0] != c.fixed[1]
    &&& moderate_point(c.current[0])
    &&& moderate_point(c.current[1])
    &&& on_an_axis(v3_sub(c.current[0], c.current[1]))
    &&& c.current[0] != c.current[1]
    &&& 0 <= c.constraints[0].rest
    &&& moderate(c.constraints[0].rest)
}

/// How far the two ends of the only constraint are from their rest length.
pub open spec fn rod_error(c: ClothView) -> int {
    let k = c.constraints[0];
    distance(c.current[k.p0], c.current[k.p1]) - k.rest
}

/// The amount by which one cold pass shortens a rod whose length is off by `r`.
pub open spec fn rod_gain(r: int, soft: int) -> int {
    quot(r * 1_000_000_000, 1_000_000_000 + soft)
}

/// Dividing a signed residual by one plus the compliance gives the signed gain.
pub proof fn lemma_gain_component(s: int, r: int, soft: int)
    requires
        -1 <= s <= 1,
        soft >= 0,
        -0x4000_0000_0000_0000 <= r <= 0x4000_0000_0000_0000,
    ensures
        fx_div(-s * r, 1_000_000_000 + soft) == -s * rod_gain(r, soft),
{
    reveal(fx_div);
    lemma_gain(r, soft);
    let t = rod_gain(r, soft);
    lemma_signed_value(s, r);
    lemma_signed_value(s, t);
}

/// The change of the multiplier that a cold first pass computes for an
/// axis-aligned constraint with one anchored end: along the axis, against the
/// direction from the second end to the first, by the gain of the residual.
pub proof fn lemma_rod_delta(
    a: V3,
    b: V3,
    fixed0: bool,
    fixed1: bool,
    rest: int,
    lambda: V3,
    p: SolverParams,
)
    requires
        moderate_point(a),
        moderate_point(b),
        on_an_axis(v3_sub(a, b)),
        a != b,
        0 <= rest,
        moderate(rest),
        fixed0 != fixed1,
        1_000_000_000 <= p.stiffness,
        p.warm_start ==> lambda == v3_zero(),
    ensures
        ({
            let d = v3_sub(a, b);
            let len = magnitude(d.x) + magnitude(d.y) + magnitude(d.z);
            let t = rod_gain(len - rest, compliance(p.stiffness));
            &&& d == V3 { x: a.x - b.x, y: a.y - b.y, z: a.z - b.z }
            &&& distance(a, b) == len
            &&& len > 0
            &&& delta_lambda(a, b, fixed0, fixed1, rest, lambda, p, true) == V3 {
                x: -sign(d.x) * t,
                y: -sign(d.y) * t,
                z: -sign(d.z) * t,
            }
        }),
{
    reveal(fx_sub);
    reveal(fx_add);
    reveal(fx_neg);
    let d = v3_sub(a, b);
    lemma_length_on_an_axis(d);
    let len = v3_len(d);
    let soft = compliance(p.stiffness);
    lemma_compliance_shrinks(p.stiffness);
    let res = fx_sub(len, rest);
    assert(res == len - rest);
    lemma_unit_component(d.x, len);
    lemma_unit_component(d.y, len);
    lemma_unit_component(d.z, len);
    let normal = v3_div(d, len);
    lemma_signed_product(sign(d.x), res);
    lemma_signed_product(sign(d.y), res);
    lemma_signed_product(sign(d.z), res);
    let pull = v3_scale(normal, res);
    assert(pull == V3 { x: sign(d.x) * res, y: sign(d.y) * res, z: sign(d.z) * res });
    lemma_signed_value(sign(d.x), res);
    lemma_signed_value(sign(d.y), res);
    lemma_signed_value(sign(d.z), res);
    lemma_scale(v3_zero(), soft);
    lemma_scale(lambda, effective_eta(p));
    let whole = 1_000_000_000 + soft;
    assert(fx_add(fx_add(inv_mass(fixed0), inv_mass(fixed1)), soft) == whole);
    let t = rod_gain(res, soft);
    lemma_gain(res, soft);
    let back = v3_neg(v3_add(pull, v3_zero()));
    assert(back == V3 { x: -sign(d.x) * res, y: -sign(d.y) * res, z: -sign(d.z) * res });
    lemma_gain_component(sign(d.x), res, soft);
    lemma_gain_component(sign(d.y), res, soft);
    lemma_gain_component(sign(d.z), res, soft);
    let base = v3_div(back, whole);
    assert(base == V3 { x: -sign(d.x) * t, y: -sign(d.y) * t, z: -sign(d.z) * t });
    lemma_signed_value(sign(d.x), t);
    lemma_signed_value(sign(d.y), t);
    lemma_signed_value(sign(d.z), t);
    lemma_add_zero(base);
}

/// Stiffness limit for a rod along an axis: one Gauss-Seidel pass that starts cold
/// succeeds, and leaves the rod within `|r| * soft / (1 + soft)` and one raw unit of
/// its rest length, where `r` is the error before the pass and `soft` the
/// compliance. The compliance is at most the squared step rate over the stiffness,
/// so the bound shrinks toward one raw unit as the stiffness grows.
pub proof fn theorem_stiff_rod_nears_rest_length(c: ClothView, p: SolverParams)
    requires
        is_axis_rod(c),
        p.mode == SimType::GaussSeidel,
        1_000_000_000 <= p.stiffness,
        p.warm_start ==> c.constraints[0].lambda == v3_zero(),
    ensures
        solved(c, p, 1) is Some,
        same_shape(c, solved(c, p, 1)->0),
        ({
            let soft = compliance(p.stiffness);
            let whole = 1_000_000_000 + soft;
            &&& 0 <= soft
            &&& soft * p.stiffness <= 3_600_000_000_000 * 1_000_000_000
            &&& whole * magnitude(rod_error(solved(c, p, 1)->0)) <= magnitude(rod_error(c)) * soft
                + whole
        }),
{
    reveal(fx_sub);
    reveal(fx_add);
    reveal(fx_neg);
    let k = c.constraints[0];
    assert(constraint_ok(k, c.len()));
    let a = c.current[k.p0];
    let b = c.current[k.p1];
    let f0 = c.fixed[k.p0];
    let f1 = c.fixed[k.p1];
    let start = SweepState { cloth: c, pending: zeros(c.len()) };
    assert(solved(c, p, 0) == Some(c));
    assert(sweep(start, p, true, 0) == Some(start));
    assert(sweep(start, p, true, 1) == project(start, p, true, 0));
    lemma_compliance_shrinks(p.stiffness);
    let soft = compliance(p.stiffness);
    lemma_rod_delta(a, b, f0, f1, k.rest, k.lambda, p);
    let d = v3_sub(a, b);
    let len = magnitude(d.x) + magnitude(d.y) + magnitude(d.z);
    let res = len - k.rest;
    let t = rod_gain(res, soft);
    lemma_gain(res, soft);
    let delta = delta_lambda(a, b, f0, f1, k.rest, k.lambda, p, true);
    lemma_signed_value(sign(d.x), t);
    lemma_signed_value(sign(d.y), t);
    lemma_signed_value(sign(d.z), t);
    let fix = correction(a, b, f0, f1, k.rest, k.lambda, p, true);
    assert(fx_div(1_000_000_000, 1_000_000_000) == 1_000_000_000 && fx_div(0, 1_000_000_000)
        == 0) by {
        reveal(fx_div);
    }
    lemma_scale(delta, 0);
    lemma_scale(delta, 1_000_000_000);
    lemma_scale(v3_neg(delta), 0);
    lemma_scale(v3_neg(delta), 1_000_000_000);
    let after = solved(c, p, 1)->0;
    assert(solved(c, p, 1) is Some);
    let a2 = after.current[k.p0];
    let b2 = after.current[k.p1];
    let d2 = v3_sub(a2, b2);
    assert(d2 == V3 {
        x: d.x - sign(d.x) * t,
        y: d.y - sign(d.y) * t,
        z: d.z - sign(d.z) * t,
    });
    lemma_length_on_an_axis(d2);
    assert(distance(a2, b2) == len - t);
    lemma_solved_keeps(c, p, 1);
}

} // verus!
