//! The particle system: positions, anchors and distance constraints held in flat
//! arrays, with constraints naming their endpoints by index.

use crate::fixed::Fixed;
use crate::vec3::{v3_in_range, v3_len, v3_seq, v3_sub, v3_zero, Vec3, V3};
use vstd::prelude::*;

verus! {

/// The mathematical value of a distance constraint.
pub struct ConstraintView {
    /// Index of the first endpoint.
    pub p0: int,
    /// Index of the second endpoint.
    pub p1: int,
    /// Distance the constraint tries to restore, in raw units.
    pub rest: int,
    /// Accumulated multiplier carried between solver passes.
    pub lambda: V3,
}

/// Distance between two points, in raw units.
pub open spec fn distance(a: V3, b: V3) -> int {
    v3_len(v3_sub(a, b))
}

/// The constraint that joins particles `p0` and `p1` of `positions` at their present
/// distance, with no accumulated multiplier.
pub open spec fn constraint_between(positions: Seq<V3>, p0: int, p1: int) -> ConstraintView {
    ConstraintView { p0, p1, rest: distance(positions[p0], positions[p1]), lambda: v3_zero() }
}

/// A distance constraint between two distinct particles.
#[derive(Clone, Copy, Debug, PartialEq, Eq, Structural)]
pub struct Constraint {
    pub p0: usize,
    pub p1: usize,
    pub length: Fixed,
    pub lambda: Vec3,
}

impl View for Constraint {
    type V = ConstraintView;

    open spec fn view(&self) -> ConstraintView {
        ConstraintView {
            p0: self.p0 as int,
            p1: self.p1 as int,
            rest: self.length@,
            lambda: self.lambda@,
        }
    }
}

impl Constraint {
    /// Joins particles `p0` and `p1` at their present distance. Refuses an index
    /// outside `positions` and a constraint from a particle to itself.
    pub fn new(p0: usize, p1: usize, positions: &[Vec3]) -> (r: Option<Constraint>)
        ensures
            r is Some <==> p0 < positions@.len() && p1 < positions@.len() && p0 != p1,
            r matches Some(c) ==> c@ == constraint_between(
                v3_seq(positions@),
                p0 as int,
                p1 as int,
            ),
    {
        if p0 >= positions.len() || p1 >= positions.len() || p0 == p1 {
            return None;
        }
        let length: Fixed = positions[p0].sub(positions[p1]).length();
        Some(Constraint { p0, p1, length, lambda: Vec3::zero() })
    }
}

/// The mathematical value of a cloth: one entry per particle in the first three
/// sequences, and the constraints in solving order.
pub struct ClothView {
    pub current: Seq<V3>,
    pub previous: Seq<V3>,
    pub fixed: Seq<bool>,
    pub constraints: Seq<ConstraintView>,
}

/// Whether a constraint joins two distinct particles among `n` and holds
/// representable values.
pub open spec fn constraint_ok(c: ConstraintView, n: int) -> bool {
    &&& 0 <= c.p0 < n
    &&& 0 <= c.p1 < n
    &&& c.p0 != c.p1
    &&& i64::MIN <= c.rest <= i64::MAX
    &&& v3_in_range(c.lambda)
}

impl ClothView {
    /// The cloth without particles.
    pub open spec fn empty() -> ClothView {
        ClothView {
            current: Seq::empty(),
            previous: Seq::empty(),
            fixed: Seq::empty(),
            constraints: Seq::empty(),
        }
    }

    /// Number of particles.
    pub open spec fn len(self) -> int {
        self.current.len() as int
    }

    /// The three particle sequences agree in length, every coordinate is
    /// representable, and every constraint joins two distinct particles.
    pub open spec fn wf(self) -> bool {
        &&& self.previous.len() == self.current.len()
        &&& self.fixed.len() == self.current.len()
        &&& forall|i: int| 0 <= i < self.current.len() ==> v3_in_range(#[trigger] self.current[i])
        &&& forall|i: int|
            0 <= i < self.previous.len() ==> v3_in_range(#[trigger] self.previous[i])
        &&& forall|i: int|
            0 <= i < self.constraints.len() ==> constraint_ok(
                #[trigger] self.constraints[i],
                self.len(),
            )
    }

    /// The same cloth with every accumulated multiplier set to zero.
    pub open spec fn without_lambdas(self) -> ClothView {
        ClothView {
            constraints: Seq::new(
                self.constraints.len(),
                |i: int| ConstraintView { lambda: v3_zero(), ..self.constraints[i] },
            ),
            ..self
        }
    }
}

/// Whether two cloths have the same particles and connections: the same previous
/// positions and anchors, as many current positions, and constraints that join the
/// same particles at the same rest lengths.
pub open spec fn same_shape(a: ClothView, b: ClothView) -> bool {
    &&& a.current.len() == b.current.len()
    &&& a.previous == b.previous
    &&& a.fixed == b.fixed
    &&& a.constraints.len() == b.constraints.len()
    &&& forall|j: int|
        0 <= j < a.constraints.len() ==> {
            &&& (#[trigger] a.constraints[j]).p0 == b.constraints[j].p0
            &&& a.constraints[j].p1 == b.constraints[j].p1
            &&& a.constraints[j].rest == b.constraints[j].rest
        }
}

/// Whether every anchored particle of `a` is at the same place in `b`.
pub open spec fn anchors_kept(a: ClothView, b: ClothView) -> bool {
    forall|i: int| 0 <= i < a.current.len() && a.fixed[i] ==> #[trigger] b.current[i] == a.current[i]
}

/// A cloth: particles with current and previous positions, a mask of anchored
/// particles, and the distance constraints between them.
pub struct Cloth {
    current: Vec<Vec3>,
    previous: Vec<Vec3>,
    fixed: Vec<bool>,
    constraints: Vec<Constraint>,
}

impl View for Cloth {
    type V = ClothView;

    closed spec fn view(&self) -> ClothView {
        ClothView {
            current: v3_seq(self.current@),
            previous: v3_seq(self.previous@),
            fixed: self.fixed@,
            constraints: self.constraints@.map_values(|c: Constraint| c@),
        }
    }
}

fn copy_vectors(source: &Vec<Vec3>) -> (r: Vec<Vec3>)
    ensures
        r@ == source@,
{
    let mut out: Vec<Vec3> = Vec::new();
    let mut i: usize = 0;
    while i < source.len()
        invariant
            i <= source.len(),
            out@ == source@.take(i as int),
        decreases source.len() - i,
    {
        out.push(source[i]);
        i = i + 1;
    }
    out
}

impl Cloth {
    /// The invariant every method keeps: see [`ClothView::wf`].
    pub open spec fn wf(&self) -> bool {
        self@.wf()
    }

    /// A cloth without particles.
    pub fn new() -> (r: Cloth)
        ensures
            r.wf(),
            r@ == ClothView::empty(),
    {
        let r: Cloth = Cloth {
            current: Vec::new(),
            previous: Vec::new(),
            fixed: Vec::new(),
            constraints: Vec::new(),
        };
        assert(r@.current =~= Seq::empty());
        assert(r@.previous =~= Seq::empty());
        assert(r@.fixed =~= Seq::empty());
        assert(r@.constraints =~= Seq::empty());
        r
    }

    /// Number of particles.
    pub fn num_particles(&self) -> (n: usize)
        ensures
            n == self@.len(),
    {
        self.current.len()
    }

    /// Number of constraints.
    pub fn num_constraints(&self) -> (n: usize)
        ensures
            n == self@.constraints.len(),
    {
        self.constraints.len()
    }

    /// Appends a particle at rest at `position` and returns its index.
    pub fn add_particle(&mut self, position: Vec3, fixed: bool) -> (index: usize)
        requires
            old(self).wf(),
        ensures
            final(self).wf(),
            index == old(self)@.len(),
            final(self)@ == (ClothView {
                current: old(self)@.current.push(position@),
                previous: old(self)@.previous.push(position@),
                fixed: old(self)@.fixed.push(fixed),
                constraints: old(self)@.constraints,
            }),
    {
        let index: usize = self.current.len();
        self.current.push(position);
        self.previous.push(position);
        self.fixed.push(fixed);
        assert(self@.current =~= old(self)@.current.push(position@));
        assert(self@.previous =~= old(self)@.previous.push(position@));
        index
    }

    /// Joins particles `p0` and `p1` at their present distance and returns whether
    /// it did: an index out of range or `p0 == p1` leaves the cloth as it was.
    pub fn add_constraint(&mut self, p0: usize, p1: usize) -> (added: bool)
        requires
            old(self).wf(),
        ensures
            final(self).wf(),
            added <==> p0 < old(self)@.len() && p1 < old(self)@.len() && p0 != p1,
            added ==> final(self)@ == (ClothView {
                constraints: old(self)@.constraints.push(
                    constraint_between(old(self)@.current, p0 as int, p1 as int),
                ),
                ..old(self)@
            }),
            !added ==> final(self)@ == old(self)@,
    {
        match Constraint::new(p0, p1, self.current.as_slice()) {
            Some(c) => {
                self.constraints.push(c);
                assert(self@.constraints =~= old(self)@.constraints.push(c@));
                true
            },
            None => false,
        }
    }

    /// Where particle `i` is.
    pub fn position(&self, i: usize) -> (p: Vec3)
        requires
            self.wf(),
            i < self@.len(),
        ensures
            p@ == self@.current[i as int],
    {
        self.current[i]
    }

    /// Where particle `i` was one step ago.
    pub fn previous_position(&self, i: usize) -> (p: Vec3)
        requires
            self.wf(),
            i < self@.len(),
        ensures
            p@ == self@.previous[i as int],
    {
        self.previous[i]
    }

    /// Whether particle `i` is anchored.
    pub fn is_fixed(&self, i: usize) -> (f: bool)
        requires
            self.wf(),
            i < self@.len(),
        ensures
            f == self@.fixed[i as int],
    {
        self.fixed[i]
    }

    /// The `i`-th constraint in solving order.
    pub fn constraint(&self, i: usize) -> (c: Constraint)
        requires
            i < self@.constraints.len(),
        ensures
            c@ == self@.constraints[i as int],
    {
        self.constraints[i]
    }

    /// Moves particle `i` to `p`, leaving its previous position alone.
    pub fn set_position(&mut self, i: usize, p: Vec3)
        requires
            old(self).wf(),
            i < old(self)@.len(),
        ensures
            final(self).wf(),
            final(self)@ == (ClothView {
                current: old(self)@.current.update(i as int, p@),
                ..old(self)@
            }),
    {
        self.current.set(i, p);
        assert(self@.current =~= old(self)@.current.update(i as int, p@));
    }

    /// Records `p` as the previous position of particle `i`.
    pub fn set_previous_position(&mut self, i: usize, p: Vec3)
        requires
            old(self).wf(),
            i < old(self)@.len(),
        ensures
            final(self).wf(),
            final(self)@ == (ClothView {
                previous: old(self)@.previous.update(i as int, p@),
                ..old(self)@
            }),
    {
        self.previous.set(i, p);
        assert(self@.previous =~= old(self)@.previous.update(i as int, p@));
    }

    /// Replaces the accumulated multiplier of constraint `i`.
    pub fn set_lambda(&mut self, i: usize, lambda: Vec3)
        requires
            old(self).wf(),
            i < old(self)@.constraints.len(),
        ensures
            final(self).wf(),
            final(self)@ == (ClothView {
                constraints: old(self)@.constraints.update(
                    i as int,
                    ConstraintView { lambda: lambda@, ..old(self)@.constraints[i as int] },
                ),
                ..old(self)@
            }),
    {
        let c: Constraint = self.constraints[i];
        let updated: Constraint = Constraint { p0: c.p0, p1: c.p1, length: c.length, lambda };
        self.constraints.set(i, updated);
        assert(self@.constraints =~= old(self)@.constraints.update(i as int, updated@));
    }

    /// Forgets every accumulated multiplier.
    pub fn clear_lambdas(&mut self)
        requires
            old(self).wf(),
        ensures
            final(self).wf(),
            final(self)@ == old(self)@.without_lambdas(),
    {
        let n: usize = self.constraints.len();
        let mut i: usize = 0;
        while i < n
            invariant
                i <= n,
                n == self@.constraints.len(),
                n == old(self)@.constraints.len(),
                self.wf(),
                self@.current == old(self)@.current,
                self@.previous == old(self)@.previous,
                self@.fixed == old(self)@.fixed,
                forall|k: int|
                    0 <= k < i ==> #[trigger] self@.constraints[k] == (ConstraintView {
                        lambda: v3_zero(),
                        ..old(self)@.constraints[k]
                    }),
                forall|k: int|
                    i <= k < n ==> #[trigger] self@.constraints[k] == old(self)@.constraints[k],
            decreases n - i,
        {
            self.set_lambda(i, Vec3::zero());
            i = i + 1;
        }
        assert(self@.constraints =~= old(self)@.without_lambdas().constraints);
    }
}

impl Clone for Cloth {
    fn clone(&self) -> (r: Cloth)
        ensures
            r@ == self@,
    {
        let mut constraints: Vec<Constraint> = Vec::new();
        let mut fixed: Vec<bool> = Vec::new();
        let mut i: usize = 0;
        while i < self.constraints.len()
            invariant
                i <= self.constraints.len(),
                constraints@ == self.constraints@.take(i as int),
            decreases self.constraints.len() - i,
        {
            constraints.push(self.constraints[i]);
            i = i + 1;
        }
        let mut j: usize = 0;
        while j < self.fixed.len()
            invariant
                j <= self.fixed.len(),
                fixed@ == self.fixed@.take(j as int),
            decreases self.fixed.len() - j,
        {
            fixed.push(self.fixed[j]);
            j = j + 1;
        }
        assert(constraints@ =~= self.constraints@);
        assert(fixed@ =~= self.fixed@);
        Cloth {
            current: copy_vectors(&self.current),
            previous: copy_vectors(&self.previous),
            fixed,
            constraints,
        }
    }
}

} // verus!
