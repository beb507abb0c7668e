//! Solver settings, validated where they enter: a rejected value leaves the
//! setting as it was.

use crate::fixed::Fixed;
use vstd::prelude::*;

verus! {

/// Order in which constraint corrections reach the positions.
#[derive(Clone, Copy, Debug, PartialEq, Eq, Structural)]
pub enum SimType {
    /// Corrections are gathered per particle and applied together after each pass.
    Jacobi,
    /// Each correction is applied at once and seen by the constraints after it.
    GaussSeidel,
}

/// The mathematical value of a configuration. Fractions are raw fixed-point values.
pub struct SolverParams {
    /// Solver passes per step.
    pub iterations: int,
    /// Constraint stiffness; the compliance is its inverse scaled by the step rate.
    pub stiffness: int,
    pub mode: SimType,
    /// Whether the first pass reuses the multipliers of the previous step.
    pub warm_start: bool,
    /// Fraction of the previous multiplier that a warm start carries over.
    pub eta: int,
    /// Fraction of the velocity kept from one step to the next.
    pub damping: int,
    /// Under-relaxation of the gathered corrections in Jacobi mode.
    pub relaxation: int,
}

/// Whether a raw value lies between zero and one.
pub open spec fn is_fraction(v: int) -> bool {
    0 <= v <= 1_000_000_000
}

impl SolverParams {
    /// At least one pass, a positive stiffness, and fractions between zero and one.
    pub open spec fn valid(self) -> bool {
        &&& 1 <= self.iterations <= u32::MAX
        &&& 0 < self.stiffness <= i64::MAX
        &&& is_fraction(self.eta)
        &&& is_fraction(self.damping)
        &&& is_fraction(self.relaxation)
    }
}

/// The settings a simulation starts with: two Gauss-Seidel passes at stiffness 5000,
/// warm-started in full, keeping six tenths of the velocity and of the gathered
/// Jacobi corrections.
pub open spec fn default_params() -> SolverParams {
    SolverParams {
        iterations: 2,
        stiffness: 5_000_000_000_000,
        mode: SimType::GaussSeidel,
        warm_start: true,
        eta: 1_000_000_000,
        damping: 600_000_000,
        relaxation: 600_000_000,
    }
}

/// Settings of the solver. Every value held is valid.
#[derive(Clone, Copy, Debug)]
pub struct SolverConfig {
    iteration_count: u32,
    stiffness: Fixed,
    solve_mode: SimType,
    warm_start: bool,
    eta: Fixed,
    damping: Fixed,
    jacobi_relaxation: Fixed,
}

impl View for SolverConfig {
    type V = SolverParams;

    closed spec fn view(&self) -> SolverParams {
        SolverParams {
            iterations: self.iteration_count as int,
            stiffness: self.stiffness@,
            mode: self.solve_mode,
            warm_start: self.warm_start,
            eta: self.eta@,
            damping: self.damping@,
            relaxation: self.jacobi_relaxation@,
        }
    }
}

impl SolverConfig {
    pub open spec fn wf(&self) -> bool {
        self@.valid()
    }

    /// The starting settings.
    pub fn new() -> (r: SolverConfig)
        ensures
            r.wf(),
            r@ == default_params(),
    {
        SolverConfig {
            iteration_count: 2,
            stiffness: Fixed { raw: 5_000_000_000_000 },
            solve_mode: SimType::GaussSeidel,
            warm_start: true,
            eta: Fixed { raw: 1_000_000_000 },
            damping: Fixed { raw: 600_000_000 },
            jacobi_relaxation: Fixed { raw: 600_000_000 },
        }
    }

    pub fn iteration_count(&self) -> (r: u32)
        ensures
            r == self@.iterations,
    {
        self.iteration_count
    }

    pub fn stiffness(&self) -> (r: Fixed)
        ensures
            r@ == self@.stiffness,
    {
        self.stiffness
    }

    pub fn solve_mode(&self) -> (r: SimType)
        ensures
            r == self@.mode,
    {
        self.solve_mode
    }

    pub fn warm_start(&self) -> (r: bool)
        ensures
            r == self@.warm_start,
    {
        self.warm_start
    }

    pub fn eta(&self) -> (r: Fixed)
        ensures
            r@ == self@.eta,
    {
        self.eta
    }

    pub fn damping(&self) -> (r: Fixed)
        ensures
            r@ == self@.damping,
    {
        self.damping
    }

    pub fn jacobi_relaxation(&self) -> (r: Fixed)
        ensures
            r@ == self@.relaxation,
    {
        self.jacobi_relaxation
    }

    /// Sets the number of passes per step; a count below one is rejected.
    pub fn set_iteration_count(&mut self, count: i32) -> (accepted: bool)
        ensures
            old(self).wf() ==> final(self).wf(),
            accepted <==> count >= 1,
            accepted ==> final(self)@ == (SolverParams { iterations: count as int, ..old(self)@ }),
            !accepted ==> final(self)@ == old(self)@,
    {
        if count >= 1 {
            self.iteration_count = count as u32;
            true
        } else {
            false
        }
    }

    /// Sets the stiffness; a value that is not positive is rejected.
    pub fn set_stiffness(&mut self, stiffness: Fixed) -> (accepted: bool)
        ensures
            old(self).wf() ==> final(self).wf(),
            accepted <==> stiffness@ > 0,
            accepted ==> final(self)@ == (SolverParams { stiffness: stiffness@, ..old(self)@ }),
            !accepted ==> final(self)@ == old(self)@,
    {
        if stiffness.raw > 0 {
            self.stiffness = stiffness;
            true
        } else {
            false
        }
    }

    pub fn set_solve_mode(&mut self, mode: SimType)
        ensures
            old(self).wf() ==> final(self).wf(),
            final(self)@ == (SolverParams { mode, ..old(self)@ }),
    {
        self.solve_mode = mode;
    }

    pub fn set_warm_start(&mut self, warm_start: bool)
        ensures
            old(self).wf() ==> final(self).wf(),
            final(self)@ == (SolverParams { warm_start, ..old(self)@ }),
    {
        self.warm_start = warm_start;
    }

    /// Sets the warm-start fraction; a value outside zero to one is rejected.
    pub fn set_eta(&mut self, eta: Fixed) -> (accepted: bool)
        ensures
            old(self).wf() ==> final(self).wf(),
            accepted <==> is_fraction(eta@),
            accepted ==> final(self)@ == (SolverParams { eta: eta@, ..old(self)@ }),
            !accepted ==> final(self)@ == old(self)@,
    {
        if 0 <= eta.raw && eta.raw <= 1_000_000_000 {
            self.eta = eta;
            true
        } else {
            false
        }
    }

    /// Sets the velocity retention; a value outside zero to one is rejected.
    pub fn set_damping(&mut self, damping: Fixed) -> (accepted: bool)
        ensures
            old(self).wf() ==> final(self).wf(),
            accepted <==> is_fraction(damping@),
            accepted ==> final(self)@ == (SolverParams { damping: damping@, ..old(self)@ }),
            !accepted ==> final(self)@ == old(self)@,
    {
        if 0 <= damping.raw && damping.raw <= 1_000_000_000 {
            self.damping = damping;
            true
        } else {
            false
        }
    }

    /// Sets the Jacobi under-relaxation; a value outside zero to one is rejected.
    pub fn set_jacobi_relaxation(&mut self, relaxation: Fixed) -> (accepted: bool)
        ensures
            old(self).wf() ==> final(self).wf(),
            accepted <==> is_fraction(relaxation@),
            accepted ==> final(self)@ == (SolverParams { relaxation: relaxation@, ..old(self)@ }),
            !accepted ==> final(self)@ == old(self)@,
    {
        if 0 <= relaxation.raw && relaxation.raw <= 1_000_000_000 {
            self.jacobi_relaxation = relaxation;
            true
        } else {
            false
        }
    }
}

} // verus!
