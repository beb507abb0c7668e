//! A particle that nothing holds falls by gravity alone.

use crate::cloth::ClothView;
use crate::config::{SimType, SolverParams};
use crate::fixed::{fx_add, fx_sub};
use crate::integrator::{gravity_step, integrated, lemma_gravity_values, lemma_integrated_keeps};
use crate::scheduler::stepped;
use crate::solver::{iteration, settle, solved, sweep, zeros, SweepState};
use crate::vec3::{lemma_add_zero, lemma_scale, v3_add, v3_in_range, v3_zero, V3};
use vstd::prelude::*;

verus! {

/// A free particle at rest moves in one integration by exactly the velocity that
/// gravity adds in a step, whatever the damping: straight down by 0.016333333.
pub proof fn theorem_particle_at_rest_falls(c: ClothView, damping: int, i: int)
    requires
        c.wf(),
        0 <= i < c.len(),
        !c.fixed[i],
        c.previous[i] == c.current[i],
    ensures
        integrated(c, damping).current[i] == v3_add(c.current[i], gravity_step()),
        integrated(c, damping).previous[i] == c.current[i],
        gravity_step() == (V3 { x: 0, y: -16_333_333, z: 0 }),
{
    lemma_gravity_values();
    reveal(fx_sub);
    reveal(fx_add);
    lemma_scale(v3_zero(), damping);
}

/// Passes over no constraints leave the cloth as it is, in either order.
pub proof fn lemma_no_constraints(c: ClothView, p: SolverParams, k: nat)
    requires
        c.wf(),
        c.constraints.len() == 0,
    ensures
        solved(c, p, k) == Some(c),
    decreases k,
{
    if k > 0 {
        lemma_no_constraints(c, p, (k - 1) as nat);
        let start = SweepState { cloth: c, pending: zeros(c.len()) };
        assert(sweep(start, p, k == 1, 0) == Some(start));
        if p.mode == SimType::Jacobi {
            let after = settle(start, p.relaxation);
            lemma_scale(v3_zero(), p.relaxation);
            assert forall|i: int| 0 <= i < c.current.len() implies #[trigger] after.current[i]
                == c.current[i] by {
                assert(v3_in_range(c.current[i]));
                lemma_add_zero(c.current[i]);
            }
            assert(after.current =~= c.current);
        }
        assert(iteration(c, p, k == 1) == Some(c));
    }
}

/// Without constraints the solver changes nothing, so a step is the integration
/// alone.
pub proof fn theorem_unconstrained_step_is_integration(c: ClothView, p: SolverParams)
    requires
        c.wf(),
        c.constraints.len() == 0,
    ensures
        stepped(c, p) == Some(integrated(c, p.damping)),
{
    lemma_integrated_keeps(c, p.damping);
    lemma_no_constraints(integrated(c, p.damping), p, p.iterations as nat);
}

} // verus!
