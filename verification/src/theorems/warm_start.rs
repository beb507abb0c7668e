//! When the warm start makes no difference: with nothing carried over, and with
//! nothing stored.

use crate::cloth::ClothView;
use crate::config::SolverParams;
use crate::fixed::{fx_add, fx_div, fx_mul};
use crate::integrator::integrated;
use crate::scheduler::stepped;
use crate::solver::{effective_eta, project, solved, sweep, zeros, SweepState};
use crate::vec3::{lemma_scale, v3_scale, v3_zero, V3};
use vstd::prelude::*;

verus! {

/// The same settings with the warm start switched on or off.
pub open spec fn with_warm_start(p: SolverParams, warm_start: bool) -> SolverParams {
    SolverParams { warm_start, ..p }
}

/// Whether a warm start would inject nothing for this multiplier.
pub open spec fn injects_nothing(lambda: V3, p: SolverParams) -> bool {
    v3_scale(lambda, effective_eta(p)) == v3_zero()
}

/// A visit whose warm start injects nothing does what a cold visit does.
pub proof fn lemma_project_cold(s: SweepState, p: SolverParams, first: bool, i: int)
    requires
        injects_nothing(s.cloth.constraints[i].lambda, p),
    ensures
        project(s, with_warm_start(p, true), first, i) == project(
            s,
            with_warm_start(p, false),
            first,
            i,
        ),
{
    reveal(fx_add);
    reveal(fx_div);
}

/// With a carry-over fraction of zero a warm start injects nothing.
pub proof fn lemma_zero_eta_injects_nothing(lambda: V3, p: SolverParams)
    requires
        p.eta == 0,
    ensures
        injects_nothing(lambda, p),
{
    reveal(fx_mul);
    assert(700_000_000 * 0 == 0);
    lemma_scale(lambda, 0);
}

/// A pass with a carry-over fraction of zero does not depend on the warm start.
pub proof fn lemma_sweep_neutral(s: SweepState, p: SolverParams, first: bool, n: nat)
    requires
        p.eta == 0,
    ensures
        sweep(s, with_warm_start(p, true), first, n) == sweep(
            s,
            with_warm_start(p, false),
            first,
            n,
        ),
    decreases n,
{
    if n > 0 {
        lemma_sweep_neutral(s, p, first, (n - 1) as nat);
        match sweep(s, with_warm_start(p, false), first, (n - 1) as nat) {
            Some(t) => {
                lemma_zero_eta_injects_nothing(t.cloth.constraints[n - 1].lambda, p);
                lemma_project_cold(t, p, first, n - 1);
            },
            None => {},
        }
    }
}

/// Warm-start neutrality: with a carry-over fraction of zero, the solver gives the
/// same result, or fails alike, whether the warm start is on or off.
pub proof fn theorem_warm_start_neutral(c: ClothView, p: SolverParams, k: nat)
    requires
        p.eta == 0,
    ensures
        solved(c, with_warm_start(p, true), k) == solved(c, with_warm_start(p, false), k),
    decreases k,
{
    if k > 0 {
        theorem_warm_start_neutral(c, p, (k - 1) as nat);
        match solved(c, with_warm_start(p, false), (k - 1) as nat) {
            Some(before) => {
                lemma_sweep_neutral(
                    SweepState { cloth: before, pending: zeros(before.len()) },
                    p,
                    k == 1,
                    before.constraints.len(),
                );
            },
            None => {},
        }
    }
}

/// With a carry-over fraction of zero, a whole step gives the same cloth, or fails
/// alike, whether the warm start is on or off.
pub proof fn theorem_step_warm_start_neutral(c: ClothView, p: SolverParams)
    requires
        p.eta == 0,
    ensures
        stepped(c, with_warm_start(p, true)) == stepped(c, with_warm_start(p, false)),
{
    theorem_warm_start_neutral(integrated(c, p.damping), p, p.iterations as nat);
}

/// Whether the constraints from index `from` on hold no multiplier.
pub open spec fn lambdas_clear_from(c: ClothView, from: int) -> bool {
    forall|j: int| from <= j < c.constraints.len() ==> (#[trigger] c.constraints[j]).lambda == v3_zero()
}

/// While the constraints not yet visited hold no multiplier, a pass does not
/// depend on the warm start, and leaves the later constraints untouched.
pub proof fn lemma_sweep_cold(s: SweepState, p: SolverParams, first: bool, n: nat)
    requires
        lambdas_clear_from(s.cloth, 0),
        n <= s.cloth.constraints.len(),
    ensures
        sweep(s, with_warm_start(p, true), first, n) == sweep(
            s,
            with_warm_start(p, false),
            first,
            n,
        ),
        sweep(s, with_warm_start(p, false), first, n) matches Some(t) ==> lambdas_clear_from(
            t.cloth,
            n as int,
        ) && t.cloth.constraints.len() == s.cloth.constraints.len(),
    decreases n,
{
    if n > 0 {
        lemma_sweep_cold(s, p, first, (n - 1) as nat);
        match sweep(s, with_warm_start(p, false), first, (n - 1) as nat) {
            Some(t) => {
                assert(t.cloth.constraints[n - 1].lambda == v3_zero());
                lemma_scale(v3_zero(), effective_eta(p));
                lemma_project_cold(t, p, first, n - 1);
            },
            None => {},
        }
    }
}

/// Only the first pass of a step looks at the warm start.
pub proof fn lemma_sweep_later_pass(s: SweepState, p: SolverParams, n: nat)
    ensures
        sweep(s, with_warm_start(p, true), false, n) == sweep(
            s,
            with_warm_start(p, false),
            false,
            n,
        ),
    decreases n,
{
    if n > 0 {
        lemma_sweep_later_pass(s, p, (n - 1) as nat);
    }
}

/// Forgetting the multipliers gives a cold start: a cloth whose constraints hold no
/// multiplier is solved alike, pass for pass, with the warm start on or off,
/// whatever the carry-over fraction.
pub proof fn theorem_cleared_lambdas_start_cold(c: ClothView, p: SolverParams, k: nat)
    requires
        lambdas_clear_from(c, 0),
    ensures
        solved(c, with_warm_start(p, true), k) == solved(c, with_warm_start(p, false), k),
    decreases k,
{
    if k == 1 {
        assert(solved(c, with_warm_start(p, true), 0) == Some(c));
        assert(solved(c, with_warm_start(p, false), 0) == Some(c));
        lemma_sweep_cold(
            SweepState { cloth: c, pending: zeros(c.len()) },
            p,
            true,
            c.constraints.len(),
        );
    } else if k > 1 {
        theorem_cleared_lambdas_start_cold(c, p, (k - 1) as nat);
        match solved(c, with_warm_start(p, false), (k - 1) as nat) {
            Some(before) => {
                lemma_sweep_later_pass(
                    SweepState { cloth: before, pending: zeros(before.len()) },
                    p,
                    before.constraints.len(),
                );
            },
            None => {},
        }
    }
}

} // verus!
