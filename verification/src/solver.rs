//! The constraint solver: repeated projection of every distance constraint, with
//! compliance, an optional warm start, and two ways of applying the corrections.

use crate::cloth::{
    anchors_kept, constraint_ok, distance, same_shape, Cloth, ClothView, Constraint,
    ConstraintView,
};
use crate::config::{SimType, SolverConfig, SolverParams};
use crate::fixed::{fx_add, fx_div, fx_int, fx_mul, fx_sub, Fixed};
use crate::vec3::{
    lemma_sum_in_range, v3_add, v3_div, v3_in_range, v3_len, v3_neg, v3_scale, v3_seq, v3_sub,
    v3_zero, Vec3, V3,
};
use vstd::prelude::*;

verus! {

/// Steps per second. The time step is its inverse.
pub const STEP_RATE: i32 = 60;

/// Share of the carried multiplier that a warm start keeps in Gauss-Seidel mode,
/// where corrections applied in sequence would otherwise overshoot: seven tenths.
pub const SEQUENTIAL_CARRY: i64 = 700_000_000;

/// Compliance of a constraint: the inverse of the stiffness times the squared time
/// step, that is the squared step rate over the stiffness.
pub open spec fn compliance(stiffness: int) -> int {
    fx_div(fx_int(3600), stiffness)
}

/// Inverse mass of a particle: none when anchored, one otherwise.
pub open spec fn inv_mass(fixed: bool) -> int {
    if fixed {
        0
    } else {
        1_000_000_000
    }
}

/// Fraction of the previous multiplier that a warm start injects.
pub open spec fn effective_eta(p: SolverParams) -> int {
    match p.mode {
        SimType::Jacobi => p.eta,
        SimType::GaussSeidel => fx_mul(700_000_000, p.eta),
    }
}

/// What one visit to a constraint computes.
pub struct Correction {
    /// The constraint's multiplier after the visit.
    pub lambda: V3,
    /// Displacement owed to the first endpoint.
    pub shift0: V3,
    /// Displacement owed to the second endpoint.
    pub shift1: V3,
}

/// Change of the multiplier for a constraint of rest length `rest` between the
/// points `a` and `b`, which must not coincide. On the first pass of a step the
/// carried multiplier counts as zero, and a warm start adds its share of `lambda`.
pub open spec fn delta_lambda(
    a: V3,
    b: V3,
    fixed0: bool,
    fixed1: bool,
    rest: int,
    lambda: V3,
    p: SolverParams,
    first: bool,
) -> V3 {
    let d = v3_sub(a, b);
    let len = v3_len(d);
    let normal = v3_div(d, len);
    let residual = fx_sub(len, rest);
    let total = fx_add(inv_mass(fixed0), inv_mass(fixed1));
    let soft = compliance(p.stiffness);
    let carried = if first {
        v3_zero()
    } else {
        lambda
    };
    let base = v3_div(
        v3_neg(v3_add(v3_scale(normal, residual), v3_scale(carried, soft))),
        fx_add(total, soft),
    );
    if first && p.warm_start {
        v3_add(base, v3_scale(lambda, effective_eta(p)))
    } else {
        base
    }
}

/// The new multiplier and the two displacements, split by relative inverse mass.
pub open spec fn correction(
    a: V3,
    b: V3,
    fixed0: bool,
    fixed1: bool,
    rest: int,
    lambda: V3,
    p: SolverParams,
    first: bool,
) -> Correction {
    let delta = delta_lambda(a, b, fixed0, fixed1, rest, lambda, p, first);
    let total = fx_add(inv_mass(fixed0), inv_mass(fixed1));
    let carried = if first {
        v3_zero()
    } else {
        lambda
    };
    Correction {
        lambda: v3_add(carried, delta),
        shift0: v3_scale(delta, fx_div(inv_mass(fixed0), total)),
        shift1: v3_scale(v3_neg(delta), fx_div(inv_mass(fixed1), total)),
    }
}

/// A cloth in the middle of a pass, with the corrections gathered so far for each
/// particle. Gauss-Seidel passes leave `pending` untouched.
pub struct SweepState {
    pub cloth: ClothView,
    pub pending: Seq<V3>,
}

/// `n` zero vectors.
pub open spec fn zeros(n: int) -> Seq<V3> {
    Seq::new(n as nat, |i: int| v3_zero())
}

/// A point moved by `shift`, unless it is anchored.
pub open spec fn displaced(point: V3, fixed: bool, shift: V3) -> V3 {
    if fixed {
        point
    } else {
        v3_add(point, shift)
    }
}

/// The state after visiting constraint `i`. A constraint between two anchored
/// particles is passed over. Otherwise coincident endpoints give `None`; any other
/// constraint gets its new multiplier, and its two displacements are applied at
/// once (Gauss-Seidel) or added to `pending` (Jacobi).
pub open spec fn project(s: SweepState, p: SolverParams, first: bool, i: int) -> Option<
    SweepState,
> {
    let c = s.cloth.constraints[i];
    let f0 = s.cloth.fixed[c.p0];
    let f1 = s.cloth.fixed[c.p1];
    let a = s.cloth.current[c.p0];
    let b = s.cloth.current[c.p1];
    if f0 && f1 {
        Some(s)
    } else if distance(a, b) == 0 {
        None
    } else {
        let k = correction(a, b, f0, f1, c.rest, c.lambda, p, first);
        let constraints = s.cloth.constraints.update(i, ConstraintView { lambda: k.lambda, ..c });
        match p.mode {
            SimType::GaussSeidel => Some(
                SweepState {
                    cloth: ClothView {
                        current: s.cloth.current.update(c.p0, displaced(a, f0, k.shift0)).update(
                            c.p1,
                            displaced(b, f1, k.shift1),
                        ),
                        constraints,
                        ..s.cloth
                    },
                    pending: s.pending,
                },
            ),
            SimType::Jacobi => Some(
                SweepState {
                    cloth: ClothView { constraints, ..s.cloth },
                    pending: s.pending.update(c.p0, v3_add(s.pending[c.p0], k.shift0)).update(
                        c.p1,
                        v3_add(s.pending[c.p1], k.shift1),
                    ),
                },
            ),
        }
    }
}

/// The state after visiting the first `n` constraints in order, or `None` once a
/// visit has failed.
pub open spec fn sweep(s: SweepState, p: SolverParams, first: bool, n: nat) -> Option<SweepState>
    decreases n,
{
    if n == 0 {
        Some(s)
    } else {
        match sweep(s, p, first, (n - 1) as nat) {
            Some(t) => project(t, p, first, n - 1),
            None => None,
        }
    }
}

/// The cloth after the gathered corrections, scaled by the relaxation, have been
/// added to every particle that is not anchored.
pub open spec fn settle(s: SweepState, relaxation: int) -> ClothView {
    ClothView {
        current: Seq::new(
            s.cloth.current.len(),
            |i: int|
                displaced(s.cloth.current[i], s.cloth.fixed[i], v3_scale(s.pending[i], relaxation)),
        ),
        ..s.cloth
    }
}

/// One solver pass over all constraints, starting with nothing gathered.
pub open spec fn iteration(c: ClothView, p: SolverParams, first: bool) -> Option<ClothView> {
    match sweep(SweepState { cloth: c, pending: zeros(c.len()) }, p, first, c.constraints.len()) {
        Some(s) => Some(
            match p.mode {
                SimType::GaussSeidel => s.cloth,
                SimType::Jacobi => settle(s, p.relaxation),
            },
        ),
        None => None,
    }
}

/// The cloth after `k` passes, of which only the first treats the multipliers as
/// carried over from an earlier step.
pub open spec fn solved(c: ClothView, p: SolverParams, k: nat) -> Option<ClothView>
    decreases k,
{
    if k == 0 {
        Some(c)
    } else {
        match solved(c, p, (k - 1) as nat) {
            Some(before) => iteration(before, p, k == 1),
            None => None,
        }
    }
}

/// Why a solve was abandoned.
#[derive(Clone, Copy, Debug, PartialEq, Eq, Structural)]
pub enum SolveError {
    /// Two particles joined by a constraint occupy the same point, so the
    /// constraint has no direction to act along.
    CoincidentParticles,
}

/// A positive stiffness gives a compliance that is not negative.
pub proof fn lemma_compliance_not_negative(stiffness: int)
    requires
        stiffness > 0,
    ensures
        0 <= compliance(stiffness) <= i64::MAX,
{
    reveal(fx_div);
    let a = 3_600_000_000_000int * 1_000_000_000;
    assert(a / stiffness >= 0) by (nonlinear_arith)
        requires
            a >= 0,
            stiffness > 0,
    ;
}

/// Once a visit has failed, the rest of the pass has failed.
pub proof fn lemma_sweep_stays_failed(s: SweepState, p: SolverParams, first: bool, m: nat, n: nat)
    requires
        m <= n,
        sweep(s, p, first, m) is None,
    ensures
        sweep(s, p, first, n) is None,
    decreases n,
{
    if m < n {
        lemma_sweep_stays_failed(s, p, first, m, (n - 1) as nat);
    }
}

/// Once a pass has failed, every longer solve has failed.
pub proof fn lemma_solved_stays_failed(c: ClothView, p: SolverParams, m: nat, n: nat)
    requires
        m <= n,
        solved(c, p, m) is None,
    ensures
        solved(c, p, n) is None,
    decreases n,
{
    if m < n {
        lemma_solved_stays_failed(c, p, m, (n - 1) as nat);
    }
}

/// One visit keeps the cloth well formed, of the same shape, and its anchors in
/// place.
pub proof fn lemma_project_keeps(s: SweepState, p: SolverParams, first: bool, i: int)
    requires
        s.cloth.wf(),
        s.pending.len() == s.cloth.len(),
        0 <= i < s.cloth.constraints.len(),
        project(s, p, first, i) is Some,
    ensures
        project(s, p, first, i)->0.cloth.wf(),
        project(s, p, first, i)->0.pending.len() == s.pending.len(),
        same_shape(s.cloth, project(s, p, first, i)->0.cloth),
        anchors_kept(s.cloth, project(s, p, first, i)->0.cloth),
{
    let t = project(s, p, first, i)->0;
    let c = s.cloth.constraints[i];
    assert(constraint_ok(c, s.cloth.len()));
    let f0 = s.cloth.fixed[c.p0];
    let f1 = s.cloth.fixed[c.p1];
    if !(f0 && f1) {
        let a = s.cloth.current[c.p0];
        let b = s.cloth.current[c.p1];
        let k = correction(a, b, f0, f1, c.rest, c.lambda, p, first);
        lemma_sum_in_range(a, k.shift0);
        lemma_sum_in_range(b, k.shift1);
        lemma_sum_in_range(
            if first {
                v3_zero()
            } else {
                c.lambda
            },
            delta_lambda(a, b, f0, f1, c.rest, c.lambda, p, first),
        );
        assert forall|j: int| 0 <= j < t.cloth.constraints.len() implies constraint_ok(
            #[trigger] t.cloth.constraints[j],
            t.cloth.len(),
        ) by {
            assert(constraint_ok(s.cloth.constraints[j], s.cloth.len()));
        }
        assert forall|j: int| 0 <= j < t.cloth.current.len() implies v3_in_range(
            #[trigger] t.cloth.current[j],
        ) by {
            assert(v3_in_range(s.cloth.current[j]));
        }
    }
}

/// A pass, as far as it gets, keeps the cloth well formed, of the same shape, and
/// its anchors in place.
pub proof fn lemma_sweep_keeps(s: SweepState, p: SolverParams, first: bool, n: nat)
    requires
        s.cloth.wf(),
        s.pending.len() == s.cloth.len(),
        n <= s.cloth.constraints.len(),
        sweep(s, p, first, n) is Some,
    ensures
        sweep(s, p, first, n)->0.cloth.wf(),
        sweep(s, p, first, n)->0.pending.len() == s.pending.len(),
        same_shape(s.cloth, sweep(s, p, first, n)->0.cloth),
        anchors_kept(s.cloth, sweep(s, p, first, n)->0.cloth),
    decreases n,
{
    if n > 0 {
        lemma_sweep_keeps(s, p, first, (n - 1) as nat);
        let t = sweep(s, p, first, (n - 1) as nat)->0;
        lemma_project_keeps(t, p, first, n - 1);
    }
}

/// One whole pass keeps the cloth well formed, of the same shape, and its anchors
/// in place.
pub proof fn lemma_iteration_keeps(c: ClothView, p: SolverParams, first: bool)
    requires
        c.wf(),
        iteration(c, p, first) is Some,
    ensures
        iteration(c, p, first)->0.wf(),
        same_shape(c, iteration(c, p, first)->0),
        anchors_kept(c, iteration(c, p, first)->0),
{
    let start = SweepState { cloth: c, pending: zeros(c.len()) };
    lemma_sweep_keeps(start, p, first, c.constraints.len());
    let s = sweep(start, p, first, c.constraints.len())->0;
    if p.mode == SimType::Jacobi {
        let after = settle(s, p.relaxation);
        assert forall|j: int| 0 <= j < after.current.len() implies v3_in_range(
            #[trigger] after.current[j],
        ) by {
            assert(v3_in_range(s.cloth.current[j]));
            lemma_sum_in_range(s.cloth.current[j], v3_scale(s.pending[j], p.relaxation));
        }
        assert forall|j: int| 0 <= j < after.constraints.len() implies constraint_ok(
            #[trigger] after.constraints[j],
            after.len(),
        ) by {
            assert(constraint_ok(s.cloth.constraints[j], s.cloth.len()));
        }
    }
}

/// Any number of passes keeps the cloth well formed, of the same shape, and its
/// anchors in place.
pub proof fn lemma_solved_keeps(c: ClothView, p: SolverParams, k: nat)
    requires
        c.wf(),
        solved(c, p, k) is Some,
    ensures
        solved(c, p, k)->0.wf(),
        same_shape(c, solved(c, p, k)->0),
        anchors_kept(c, solved(c, p, k)->0),
    decreases k,
{
    if k > 0 {
        lemma_solved_keeps(c, p, (k - 1) as nat);
        lemma_iteration_keeps(solved(c, p, (k - 1) as nat)->0, p, k == 1);
    }
}

fn inverse_mass(fixed: bool) -> (r: Fixed)
    ensures
        r@ == inv_mass(fixed),
{
    if fixed {
        Fixed::zero()
    } else {
        Fixed::one()
    }
}

/// The compliance for a stiffness.
pub fn compliance_of(stiffness: Fixed) -> (r: Fixed)
    requires
        stiffness@ != 0,
    ensures
        r@ == compliance(stiffness@),
{
    Fixed::from_int(STEP_RATE * STEP_RATE).div(stiffness)
}

/// The warm-start fraction that a configuration calls for.
pub fn effective_eta_of(config: &SolverConfig) -> (r: Fixed)
    ensures
        r@ == effective_eta(config@),
{
    match config.solve_mode() {
        SimType::Jacobi => config.eta(),
        SimType::GaussSeidel => Fixed::from_raw(SEQUENTIAL_CARRY).mul(config.eta()),
    }
}

fn zero_vectors(n: usize) -> (r: Vec<Vec3>)
    ensures
        v3_seq(r@) == zeros(n as int),
{
    let mut out: Vec<Vec3> = Vec::new();
    let mut i: usize = 0;
    while i < n
        invariant
            i <= n,
            out@.len() == i,
            forall|k: int| 0 <= k < i ==> (#[trigger] out@[k])@ == v3_zero(),
        decreases n - i,
    {
        out.push(Vec3::zero());
        i = i + 1;
    }
    assert(v3_seq(out@) =~= zeros(n as int));
    out
}

/// Visits constraint `i`. Returns whether the visit succeeded; after a failure the
/// cloth is well formed but otherwise unspecified.
fn visit(
    cloth: &mut Cloth,
    pending: &mut Vec<Vec3>,
    config: &SolverConfig,
    soft: Fixed,
    carry: Fixed,
    first: bool,
    i: usize,
) -> (ok: bool)
    requires
        old(cloth).wf(),
        config.wf(),
        i < old(cloth)@.constraints.len(),
        old(pending)@.len() == old(cloth)@.len(),
        soft@ == compliance(config@.stiffness),
        carry@ == effective_eta(config@),
    ensures
        final(cloth).wf(),
        final(pending)@.len() == final(cloth)@.len(),
        final(cloth)@.len() == old(cloth)@.len(),
        final(cloth)@.constraints.len() == old(cloth)@.constraints.len(),
        match project(
            SweepState { cloth: old(cloth)@, pending: v3_seq(old(pending)@) },
            config@,
            first,
            i as int,
        ) {
            Some(t) => ok && final(cloth)@ == t.cloth && v3_seq(final(pending)@) == t.pending,
            None => !ok,
        },
{
    let c: Constraint = cloth.constraint(i);
    assert(constraint_ok(cloth@.constraints[i as int], cloth@.len()));
    let f0: bool = cloth.is_fixed(c.p0);
    let f1: bool = cloth.is_fixed(c.p1);
    if f0 && f1 {
        return true;
    }
    let a: Vec3 = cloth.position(c.p0);
    let b: Vec3 = cloth.position(c.p1);
    let d: Vec3 = a.sub(b);
    let len: Fixed = d.length();
    if len.is_zero() {
        return false;
    }
    let normal: Vec3 = d.div(len);
    let residual: Fixed = len.sub(c.length);
    let w0: Fixed = inverse_mass(f0);
    let w1: Fixed = inverse_mass(f1);
    let total: Fixed = w0.add(w1);
    let carried: Vec3 = if first {
        Vec3::zero()
    } else {
        c.lambda
    };
    proof {
        reveal(fx_add);
        lemma_compliance_not_negative(config@.stiffness);
    }
    let base: Vec3 = normal.scale(residual).add(carried.scale(soft)).neg().div(total.add(soft));
    let delta: Vec3 = if first && config.warm_start() {
        base.add(c.lambda.scale(carry))
    } else {
        base
    };
    let lambda: Vec3 = carried.add(delta);
    let shift0: Vec3 = delta.scale(w0.div(total));
    let shift1: Vec3 = delta.neg().scale(w1.div(total));
    let ghost k = correction(a@, b@, f0, f1, c@.rest, c@.lambda, config@, first);
    assert(lambda@ == k.lambda);
    assert(shift0@ == k.shift0);
    assert(shift1@ == k.shift1);
    cloth.set_lambda(i, lambda);
    match config.solve_mode() {
        SimType::GaussSeidel => {
            if !f0 {
                cloth.set_position(c.p0, a.add(shift0));
            }
            if !f1 {
                cloth.set_position(c.p1, b.add(shift1));
            }
            assert(cloth@.current =~= old(cloth)@.current.update(
                c.p0 as int,
                displaced(a@, f0, k.shift0),
            ).update(c.p1 as int, displaced(b@, f1, k.shift1)));
        },
        SimType::Jacobi => {
            let g0: Vec3 = pending[c.p0].add(shift0);
            let g1: Vec3 = pending[c.p1].add(shift1);
            pending.set(c.p0, g0);
            pending.set(c.p1, g1);
            assert(v3_seq(pending@) =~= v3_seq(old(pending)@).update(c.p0 as int, g0@).update(
                c.p1 as int,
                g1@,
            ));
        },
    }
    true
}

/// Visits every constraint in order. Returns whether all visits succeeded.
fn sweep_constraints(
    cloth: &mut Cloth,
    pending: &mut Vec<Vec3>,
    config: &SolverConfig,
    soft: Fixed,
    carry: Fixed,
    first: bool,
) -> (ok: bool)
    requires
        old(cloth).wf(),
        config.wf(),
        old(pending)@.len() == old(cloth)@.len(),
        soft@ == compliance(config@.stiffness),
        carry@ == effective_eta(config@),
    ensures
        final(cloth).wf(),
        final(pending)@.len() == final(cloth)@.len(),
        final(cloth)@.len() == old(cloth)@.len(),
        match sweep(
            SweepState { cloth: old(cloth)@, pending: v3_seq(old(pending)@) },
            config@,
            first,
            old(cloth)@.constraints.len(),
        ) {
            Some(t) => ok && final(cloth)@ == t.cloth && v3_seq(final(pending)@) == t.pending,
            None => !ok,
        },
{
    let ghost start = SweepState { cloth: cloth@, pending: v3_seq(pending@) };
    let n: usize = cloth.num_constraints();
    let mut i: usize = 0;
    while i < n
        invariant
            i <= n,
            start.cloth == old(cloth)@,
            start.pending == v3_seq(old(pending)@),
            n == start.cloth.constraints.len(),
            n == cloth@.constraints.len(),
            cloth.wf(),
            config.wf(),
            pending@.len() == cloth@.len(),
            cloth@.len() == start.cloth.len(),
            soft@ == compliance(config@.stiffness),
            carry@ == effective_eta(config@),
            sweep(start, config@, first, i as nat) == Some(
                SweepState { cloth: cloth@, pending: v3_seq(pending@) },
            ),
        decreases n - i,
    {
        let ghost before = SweepState { cloth: cloth@, pending: v3_seq(pending@) };
        let ok: bool = visit(cloth, pending, config, soft, carry, first, i);
        assert(sweep(start, config@, first, (i + 1) as nat) == project(
            before,
            config@,
            first,
            i as int,
        ));
        if !ok {
            proof {
                lemma_sweep_stays_failed(start, config@, first, (i + 1) as nat, n as nat);
            }
            return false;
        }
        i = i + 1;
    }
    true
}

/// A Gauss-Seidel pass gathers nothing.
pub proof fn lemma_sweep_gathers_nothing(s: SweepState, p: SolverParams, first: bool, n: nat)
    requires
        p.mode == SimType::GaussSeidel,
    ensures
        sweep(s, p, first, n) matches Some(t) ==> t.pending == s.pending,
    decreases n,
{
    if n > 0 {
        lemma_sweep_gathers_nothing(s, p, first, (n - 1) as nat);
    }
}

/// Adds the gathered corrections, scaled by `relaxation`, to the particles that are
/// not anchored, and empties `pending`.
fn settle_pending(cloth: &mut Cloth, pending: &mut Vec<Vec3>, relaxation: Fixed)
    requires
        old(cloth).wf(),
        old(pending)@.len() == old(cloth)@.len(),
    ensures
        final(cloth).wf(),
        final(cloth)@ == settle(
            SweepState { cloth: old(cloth)@, pending: v3_seq(old(pending)@) },
            relaxation@,
        ),
        v3_seq(final(pending)@) == zeros(old(cloth)@.len()),
{
    let n: usize = cloth.num_particles();
    let mut i: usize = 0;
    while i < n
        invariant
            i <= n,
            n == cloth@.len(),
            n == old(cloth)@.len(),
            pending@.len() == n,
            old(pending)@.len() == n,
            cloth.wf(),
            old(cloth).wf(),
            cloth@.previous == old(cloth)@.previous,
            cloth@.fixed == old(cloth)@.fixed,
            cloth@.constraints == old(cloth)@.constraints,
            forall|k: int|
                0 <= k < i ==> #[trigger] cloth@.current[k] == displaced(
                    old(cloth)@.current[k],
                    old(cloth)@.fixed[k],
                    v3_scale(old(pending)@[k]@, relaxation@),
                ),
            forall|k: int| i <= k < n ==> #[trigger] cloth@.current[k] == old(cloth)@.current[k],
            forall|k: int| 0 <= k < i ==> (#[trigger] pending@[k])@ == v3_zero(),
            forall|k: int| i <= k < n ==> #[trigger] pending@[k] == old(pending)@[k],
        decreases n - i,
    {
        if !cloth.is_fixed(i) {
            let moved: Vec3 = cloth.position(i).add(pending[i].scale(relaxation));
            cloth.set_position(i, moved);
        }
        pending.set(i, Vec3::zero());
        i = i + 1;
    }
    assert(cloth@.current =~= settle(
        SweepState { cloth: old(cloth)@, pending: v3_seq(old(pending)@) },
        relaxation@,
    ).current);
    assert(v3_seq(pending@) =~= zeros(n as int));
}

/// Runs one pass. Returns whether it succeeded; after a failure the cloth is well
/// formed but otherwise unspecified.
fn run_pass(
    cloth: &mut Cloth,
    pending: &mut Vec<Vec3>,
    config: &SolverConfig,
    soft: Fixed,
    carry: Fixed,
    first: bool,
) -> (ok: bool)
    requires
        old(cloth).wf(),
        config.wf(),
        v3_seq(old(pending)@) == zeros(old(cloth)@.len()),
        soft@ == compliance(config@.stiffness),
        carry@ == effective_eta(config@),
    ensures
        final(cloth).wf(),
        match iteration(old(cloth)@, config@, first) {
            Some(c) => ok && final(cloth)@ == c && v3_seq(final(pending)@) == zeros(
                final(cloth)@.len(),
            ),
            None => !ok,
        },
{
    assert(v3_seq(pending@).len() == pending@.len());
    proof {
        if config@.mode == SimType::GaussSeidel {
            lemma_sweep_gathers_nothing(
                SweepState { cloth: cloth@, pending: v3_seq(pending@) },
                config@,
                first,
                cloth@.constraints.len(),
            );
        }
    }
    if !sweep_constraints(cloth, pending, config, soft, carry, first) {
        return false;
    }
    match config.solve_mode() {
        SimType::GaussSeidel => {},
        SimType::Jacobi => {
            settle_pending(cloth, pending, config.jacobi_relaxation());
        },
    }
    true
}

impl Cloth {
    /// Runs the configured number of solver passes. All of them succeed or none
    /// takes effect: when a constraint that has to be projected joins two
    /// coincident particles, the cloth is left as it was.
    pub fn solve(&mut self, config: &SolverConfig) -> (r: Result<(), SolveError>)
        requires
            old(self).wf(),
            config.wf(),
        ensures
            final(self).wf(),
            match solved(old(self)@, config@, config@.iterations as nat) {
                Some(c) => r is Ok && final(self)@ == c,
                None => r == Err::<(), SolveError>(SolveError::CoincidentParticles)
                    && final(self)@ == old(self)@,
            },
            same_shape(old(self)@, final(self)@),
            anchors_kept(old(self)@, final(self)@),
    {
        let mut work: Cloth = self.clone();
        let mut pending: Vec<Vec3> = zero_vectors(work.num_particles());
        let soft: Fixed = compliance_of(config.stiffness());
        let carry: Fixed = effective_eta_of(config);
        let passes: u32 = config.iteration_count();
        let mut k: u32 = 0;
        while k < passes
            invariant
                k <= passes,
                passes == config@.iterations,
                work.wf(),
                config.wf(),
                v3_seq(pending@) == zeros(work@.len()),
                soft@ == compliance(config@.stiffness),
                carry@ == effective_eta(config@),
                solved(old(self)@, config@, k as nat) == Some(work@),
                *self == *old(self),
                old(self).wf(),
            decreases passes - k,
        {
            let ok: bool = run_pass(&mut work, &mut pending, config, soft, carry, k == 0);
            if !ok {
                proof {
                    lemma_solved_stays_failed(
                        old(self)@,
                        config@,
                        (k + 1) as nat,
                        passes as nat,
                    );
                }
                return Err(SolveError::CoincidentParticles);
            }
            k = k + 1;
        }
        proof {
            lemma_solved_keeps(old(self)@, config@, passes as nat);
        }
        *self = work;
        Ok(())
    }
}

} // verus!
