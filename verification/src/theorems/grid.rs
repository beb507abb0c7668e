//! What every grid is like, and what a reset leaves.

use crate::cloth::constraint_ok;
use crate::scheduler::{due, framed, ModelView};
use crate::topology::{
    grid, grid_link, grid_ok, lemma_cell, lemma_grid_link, lemma_grid_offsets_apart,
    lemma_grid_position,
};
use crate::vec3::{lemma_coincide, v3_in_range, v3_len, v3_zero};
use vstd::prelude::*;

verus! {

/// No two particles of a grid share a place.
pub proof fn theorem_grid_particles_are_apart(nx: int, ny: int, k1: int, k2: int)
    requires
        grid_ok(nx, ny),
        0 <= k1 < nx * ny,
        0 <= k2 < nx * ny,
        k1 != k2,
    ensures
        grid(nx, ny).current[k1] != grid(nx, ny).current[k2],
{
    lemma_cell(k1, nx, ny);
    lemma_cell(k2, nx, ny);
    let i1 = k1 / ny;
    let j1 = k1 % ny;
    let i2 = k2 / ny;
    let j2 = k2 % ny;
    lemma_grid_position(nx, ny, i1, j1);
    lemma_grid_position(nx, ny, i2, j2);
    if i1 < i2 {
        lemma_grid_offsets_apart(i1, i2, nx);
    } else if i2 < i1 {
        lemma_grid_offsets_apart(i2, i1, nx);
    } else if j1 < j2 {
        lemma_grid_offsets_apart(j1, j2, ny);
    } else if j2 < j1 {
        lemma_grid_offsets_apart(j2, j1, ny);
    }
}

/// A grid is a well-formed cloth inside the unit square about the origin, at rest,
/// and each of its constraints joins two particles a positive distance apart: no
/// constraint of a fresh grid is without direction.
pub proof fn theorem_grid_is_sound(nx: int, ny: int)
    requires
        grid_ok(nx, ny),
    ensures
        grid(nx, ny).wf(),
        grid(nx, ny).previous == grid(nx, ny).current,
        forall|k: int|
            0 <= k < nx * ny ==> {
                &&& -500_000_000 <= (#[trigger] grid(nx, ny).current[k]).x < 500_000_000
                &&& -500_000_000 < grid(nx, ny).current[k].y <= 500_000_000
            },
        forall|m: int|
            0 <= m < grid(nx, ny).constraints.len() ==> {
                &&& (#[trigger] grid(nx, ny).constraints[m]).rest > 0
                &&& grid(nx, ny).constraints[m].lambda == v3_zero()
            },
{
    let g = grid(nx, ny);
    assert(nx * ny >= 0) by (nonlinear_arith)
        requires
            nx >= 2,
            ny >= 2,
    ;
    assert forall|k: int| 0 <= k < nx * ny implies {
        &&& -500_000_000 <= (#[trigger] g.current[k]).x < 500_000_000
        &&& -500_000_000 < g.current[k].y <= 500_000_000
        &&& v3_in_range(g.current[k])
    } by {
        lemma_cell(k, nx, ny);
        lemma_grid_position(nx, ny, k / ny, k % ny);
    }
    assert forall|m: int| 0 <= m < g.constraints.len() implies {
        &&& (#[trigger] g.constraints[m]).rest > 0
        &&& g.constraints[m].lambda == v3_zero()
        &&& constraint_ok(g.constraints[m], g.len())
    } by {
        lemma_grid_link(nx, ny, m);
        let p0 = grid_link(nx, ny, m).0;
        let p1 = grid_link(nx, ny, m).1;
        theorem_grid_particles_are_apart(nx, ny, p0, p1);
        lemma_coincide(g.current[p0], g.current[p1]);
        assert(g.constraints[m].rest <= i64::MAX) by {
            reveal(v3_len);
        }
    }
}

/// Topology determinism: a frame that carries out a reset leaves the grid of the
/// model's dimensions, at rest and without multipliers, whatever the cloth was and
/// whenever the frame comes. Two resets with the same dimensions therefore give the
/// same positions, the same anchors and the same constraints in the same order.
pub proof fn theorem_reset_builds_the_grid(m: ModelView, now: int)
    requires
        m.do_reset,
    ensures
        framed(m, now).cloth == grid(m.nx, m.ny),
        !framed(m, now).do_reset,
{
    let g = grid(m.nx, m.ny);
    assert(g.without_lambdas().constraints =~= g.constraints);
    assert(!due(now, now));
}

} // verus!
