//! The integrator: each free particle keeps a damped share of the displacement of
//! its last step, gains the pull of gravity, and moves on by the sum.

use crate::cloth::{anchors_kept, Cloth, ClothView};
use crate::fixed::{fx_add, fx_div, fx_int, fx_mul, Fixed};
use crate::solver::STEP_RATE;
use crate::vec3::{v3_add, v3_div, v3_in_range, v3_scale, v3_sub, Vec3, V3};
use vstd::prelude::*;

verus! {

/// Downward acceleration before scaling, in raw units: 9.8.
pub const GRAVITY_Y: i64 = -9_800_000_000;

/// Factor applied to the acceleration, in raw units: one tenth.
pub const GRAVITY_SCALE: i64 = 100_000_000;

/// The acceleration of gravity as simulated.
pub open spec fn gravity() -> V3 {
    v3_scale(V3 { x: 0, y: -9_800_000_000, z: 0 }, 100_000_000)
}

/// Velocity gained from gravity in one step: gravity times the time step.
pub open spec fn gravity_step() -> V3 {
    v3_div(gravity(), fx_int(60))
}

/// In numbers: gravity is 0.98 downward, and adds 0.016333333 to the downward
/// velocity in every step.
pub proof fn lemma_gravity_values()
    ensures
        gravity() == (V3 { x: 0, y: -980_000_000, z: 0 }),
        gravity_step() == (V3 { x: 0, y: -16_333_333, z: 0 }),
{
    reveal(fx_mul);
    reveal(fx_div);
}

/// Displacement of a free particle over one step.
pub open spec fn velocity(current: V3, previous: V3, damping: int) -> V3 {
    v3_add(v3_scale(v3_sub(current, previous), damping), gravity_step())
}

/// The cloth one step later, before any constraint is enforced. Anchored particles
/// keep both positions; every other particle remembers where it was and advances by
/// its velocity.
pub open spec fn integrated(c: ClothView, damping: int) -> ClothView {
    ClothView {
        current: Seq::new(
            c.current.len(),
            |i: int|
                if c.fixed[i] {
                    c.current[i]
                } else {
                    v3_add(c.current[i], velocity(c.current[i], c.previous[i], damping))
                },
        ),
        previous: Seq::new(
            c.previous.len(),
            |i: int|
                if c.fixed[i] {
                    c.previous[i]
                } else {
                    c.current[i]
                },
        ),
        ..c
    }
}

/// Integration keeps the cloth well formed and of the same connections, and leaves
/// both positions of every anchored particle alone.
pub proof fn lemma_integrated_keeps(c: ClothView, damping: int)
    requires
        c.wf(),
    ensures
        integrated(c, damping).wf(),
        integrated(c, damping).fixed == c.fixed,
        integrated(c, damping).constraints == c.constraints,
        anchors_kept(c, integrated(c, damping)),
        forall|i: int|
            0 <= i < c.len() && c.fixed[i] ==> #[trigger] integrated(c, damping).previous[i]
                == c.previous[i],
{
    let after = integrated(c, damping);
    assert forall|j: int| 0 <= j < after.current.len() implies v3_in_range(
        #[trigger] after.current[j],
    ) by {
        assert(v3_in_range(c.current[j]));
        reveal(fx_add);
    }
    assert forall|j: int| 0 <= j < after.previous.len() implies v3_in_range(
        #[trigger] after.previous[j],
    ) by {
        assert(v3_in_range(c.current[j]));
        assert(v3_in_range(c.previous[j]));
    }
}

/// The velocity that gravity adds in one step.
pub fn gravity_per_step() -> (r: Vec3)
    ensures
        r@ == gravity_step(),
{
    let pull: Vec3 = Vec3::new(Fixed::zero(), Fixed::from_raw(GRAVITY_Y), Fixed::zero()).scale(
        Fixed::from_raw(GRAVITY_SCALE),
    );
    pull.div(Fixed::from_int(STEP_RATE))
}

impl Cloth {
    /// Advances every free particle by one step.
    pub fn integrate(&mut self, damping: Fixed)
        requires
            old(self).wf(),
        ensures
            final(self).wf(),
            final(self)@ == integrated(old(self)@, damping@),
            anchors_kept(old(self)@, final(self)@),
    {
        let fall: Vec3 = gravity_per_step();
        let n: usize = self.num_particles();
        let mut i: usize = 0;
        while i < n
            invariant
                i <= n,
                n == self@.len(),
                n == old(self)@.len(),
                self.wf(),
                old(self).wf(),
                fall@ == gravity_step(),
                self@.fixed == old(self)@.fixed,
                self@.constraints == old(self)@.constraints,
                forall|k: int|
                    0 <= k < i ==> #[trigger] self@.current[k] == integrated(
                        old(self)@,
                        damping@,
                    ).current[k],
                forall|k: int|
                    0 <= k < i ==> #[trigger] self@.previous[k] == integrated(
                        old(self)@,
                        damping@,
                    ).previous[k],
                forall|k: int| i <= k < n ==> #[trigger] self@.current[k] == old(self)@.current[k],
                forall|k: int|
                    i <= k < n ==> #[trigger] self@.previous[k] == old(self)@.previous[k],
            decreases n - i,
        {
            if !self.is_fixed(i) {
                let here: Vec3 = self.position(i);
                let before: Vec3 = self.previous_position(i);
                let step: Vec3 = here.sub(before).scale(damping).add(fall);
                self.set_previous_position(i, here);
                self.set_position(i, here.add(step));
            }
            i = i + 1;
        }
        assert(self@.current =~= integrated(old(self)@, damping@).current);
        assert(self@.previous =~= integrated(old(self)@, damping@).previous);
        proof {
            lemma_integrated_keeps(old(self)@, damping@);
        }
    }
}

} // verus!
