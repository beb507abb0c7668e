//! Where the two solving orders agree.

use crate::cloth::{constraint_ok, distance, ClothView};
use crate::config::{SimType, SolverParams};
use crate::fixed::fx_mul;
use crate::solver::{
    correction, delta_lambda, effective_eta, project, settle, solved, sweep, zeros, SweepState,
};
use crate::vec3::{lemma_add_zero, lemma_scale, v3_in_range, v3_scale, v3_zero, V3};
use vstd::prelude::*;

verus! {

/// The same settings in another solving order.
pub open spec fn with_mode(p: SolverParams, mode: SimType) -> SolverParams {
    SolverParams { mode, ..p }
}

/// What a warm start adds to the change of a multiplier in a given solving order.
pub open spec fn injection(lambda: V3, p: SolverParams, mode: SimType) -> V3 {
    v3_scale(lambda, effective_eta(with_mode(p, mode)))
}

/// Single-constraint mode equivalence: on a cloth with exactly one constraint, one
/// Gauss-Seidel pass and one Jacobi pass without under-relaxation give the same
/// cloth, or fail alike. The two orders scale the carried multiplier differently,
/// so with the warm start on this is claimed only where both inject the same.
pub proof fn theorem_single_constraint_modes_agree(c: ClothView, p: SolverParams)
    requires
        c.wf(),
        c.constraints.len() == 1,
        p.relaxation == 1_000_000_000,
        p.warm_start ==> injection(c.constraints[0].lambda, p, SimType::GaussSeidel)
            == injection(c.constraints[0].lambda, p, SimType::Jacobi),
    ensures
        solved(c, with_mode(p, SimType::GaussSeidel), 1) == solved(
            c,
            with_mode(p, SimType::Jacobi),
            1,
        ),
{
    let pg = with_mode(p, SimType::GaussSeidel);
    let pj = with_mode(p, SimType::Jacobi);
    let start = SweepState { cloth: c, pending: zeros(c.len()) };
    assert(solved(c, pg, 0) == Some(c));
    assert(solved(c, pj, 0) == Some(c));
    assert(sweep(start, pg, true, 0) == Some(start));
    assert(sweep(start, pj, true, 0) == Some(start));
    assert(sweep(start, pg, true, 1) == project(start, pg, true, 0));
    assert(sweep(start, pj, true, 1) == project(start, pj, true, 0));
    let k = c.constraints[0];
    assert(constraint_ok(k, c.len()));
    let f0 = c.fixed[k.p0];
    let f1 = c.fixed[k.p1];
    let a = c.current[k.p0];
    let b = c.current[k.p1];
    lemma_scale(v3_zero(), 1_000_000_000);
    if f0 && f1 {
        let after = settle(start, 1_000_000_000);
        assert forall|i: int| 0 <= i < c.current.len() implies #[trigger] after.current[i]
            == c.current[i] by {
            assert(v3_in_range(c.current[i]));
            lemma_add_zero(c.current[i]);
        }
        assert(after.current =~= c.current);
    } else if distance(a, b) != 0 {
        let g = correction(a, b, f0, f1, k.rest, k.lambda, pg, true);
        let j = correction(a, b, f0, f1, k.rest, k.lambda, pj, true);
        assert(g == j);
        let gathered = project(start, pj, true, 0)->0;
        let after = settle(gathered, 1_000_000_000);
        let direct = project(start, pg, true, 0)->0.cloth;
        lemma_scale(g.shift0, 1_000_000_000);
        lemma_scale(g.shift1, 1_000_000_000);
        let d = delta_lambda(a, b, f0, f1, k.rest, k.lambda, pg, true);
        lemma_scale(d, 0);
        assert(v3_in_range(g.shift0)) by {
            reveal(fx_mul);
        }
        assert(v3_in_range(g.shift1)) by {
            reveal(fx_mul);
        }
        lemma_add_zero(g.shift0);
        lemma_add_zero(g.shift1);
        assert forall|i: int| 0 <= i < c.current.len() implies #[trigger] after.current[i]
            == direct.current[i] by {
            assert(v3_in_range(c.current[i]));
            lemma_add_zero(c.current[i]);
        }
        assert(after.current =~= direct.current);
    }
}

} // verus!
