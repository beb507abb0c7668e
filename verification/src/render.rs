//! What a renderer needs of a cloth: the planar coordinates of its particles and
//! the endpoints of its constraints, each as one flat array ready for a buffer.

use crate::cloth::{Cloth, ClothView, Constraint};
use crate::fixed::Fixed;
use crate::vec3::Vec3;
use vstd::prelude::*;

verus! {

/// The `x` and `y` of every particle in turn: entry `2 * i` is the `x` of particle
/// `i`, entry `2 * i + 1` its `y`.
pub open spec fn vertex_data(c: ClothView) -> Seq<int> {
    Seq::new(
        2 * c.current.len(),
        |k: int|
            if k % 2 == 0 {
                c.current[k / 2].x
            } else {
                c.current[k / 2].y
            },
    )
}

/// The two endpoints of every constraint in turn: entry `2 * i` is the first
/// endpoint of constraint `i`, entry `2 * i + 1` the second.
pub open spec fn edge_data(c: ClothView) -> Seq<int> {
    Seq::new(
        2 * c.constraints.len(),
        |k: int|
            if k % 2 == 0 {
                c.constraints[k / 2].p0
            } else {
                c.constraints[k / 2].p1
            },
    )
}

impl Cloth {
    /// The coordinates to draw, two per particle.
    pub fn vertex_positions(&self) -> (r: Vec<Fixed>)
        requires
            self.wf(),
        ensures
            r@.map_values(|v: Fixed| v@) == vertex_data(self@),
    {
        let n: usize = self.num_particles();
        let mut out: Vec<Fixed> = Vec::new();
        let mut i: usize = 0;
        while i < n
            invariant
                i <= n,
                n == self@.len(),
                self.wf(),
                out@.len() == 2 * i,
                forall|k: int|
                    0 <= k < 2 * i ==> (#[trigger] out@[k])@ == vertex_data(self@)[k],
            decreases n - i,
        {
            let p: Vec3 = self.position(i);
            out.push(p.x);
            out.push(p.y);
            i = i + 1;
        }
        assert(out@.map_values(|v: Fixed| v@) =~= vertex_data(self@));
        out
    }

    /// The lines to draw, two particle indices per constraint.
    pub fn edge_indices(&self) -> (r: Vec<usize>)
        ensures
            r@.map_values(|v: usize| v as int) == edge_data(self@),
    {
        let n: usize = self.num_constraints();
        let mut out: Vec<usize> = Vec::new();
        let mut i: usize = 0;
        while i < n
            invariant
                i <= n,
                n == self@.constraints.len(),
                out@.len() == 2 * i,
                forall|k: int|
                    0 <= k < 2 * i ==> (#[trigger] out@[k]) as int == edge_data(self@)[k],
            decreases n - i,
        {
            let c: Constraint = self.constraint(i);
            out.push(c.p0);
            out.push(c.p1);
            i = i + 1;
        }
        assert(out@.map_values(|v: usize| v as int) =~= edge_data(self@));
        out
    }
}

} // verus!
