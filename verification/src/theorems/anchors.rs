//! Anchored particles stay where they are, whatever the simulation does.

use crate::cloth::{anchors_kept, constraint_ok, ClothView};
use crate::config::SolverParams;
use crate::integrator::{integrated, lemma_integrated_keeps};
use crate::scheduler::{framed, prepared, stepped, ModelView};
use crate::solver::{lemma_solved_keeps, solved};
use vstd::prelude::*;

verus! {

/// The integrator never moves an anchored particle: both its positions stay as
/// they were, and the same particles are anchored afterwards.
pub proof fn theorem_integration_keeps_anchors(c: ClothView, damping: int)
    requires
        c.wf(),
    ensures
        integrated(c, damping).fixed == c.fixed,
        anchors_kept(c, integrated(c, damping)),
        forall|i: int|
            0 <= i < c.len() && c.fixed[i] ==> #[trigger] integrated(c, damping).previous[i]
                == c.previous[i],
{
    lemma_integrated_keeps(c, damping);
}

/// The solver never moves an anchored particle: after any number of passes that
/// succeed, every anchored particle is where it was, and the same particles are
/// anchored.
pub proof fn theorem_solver_keeps_anchors(c: ClothView, p: SolverParams, k: nat)
    requires
        c.wf(),
    ensures
        solved(c, p, k) matches Some(after) ==> after.fixed == c.fixed && anchors_kept(c, after),
{
    if solved(c, p, k) is Some {
        lemma_solved_keeps(c, p, k);
    }
}

/// A whole step never moves an anchored particle.
pub proof fn theorem_step_keeps_anchors(c: ClothView, p: SolverParams)
    requires
        c.wf(),
    ensures
        stepped(c, p) matches Some(after) ==> after.wf() && after.fixed == c.fixed && anchors_kept(
            c,
            after,
        ),
{
    lemma_integrated_keeps(c, p.damping);
    if stepped(c, p) is Some {
        lemma_solved_keeps(integrated(c, p.damping), p, p.iterations as nat);
    }
}

/// No frame short of a reset moves an anchored particle, whether it only carries
/// out pending work, simulates a step, or finds that the step cannot finish.
pub proof fn theorem_frame_keeps_anchors(m: ModelView, now: int)
    requires
        m.wf(),
        !m.do_reset,
    ensures
        framed(m, now).cloth.fixed == m.cloth.fixed,
        anchors_kept(m.cloth, framed(m, now).cloth),
{
    let b = prepared(m, now);
    assert(b.cloth.wf()) by {
        assert forall|j: int| 0 <= j < b.cloth.constraints.len() implies constraint_ok(
            #[trigger] b.cloth.constraints[j],
            b.cloth.len(),
        ) by {
            assert(constraint_ok(m.cloth.constraints[j], m.cloth.len()));
        }
    }
    theorem_step_keeps_anchors(b.cloth, b.config);
}

} // verus!
