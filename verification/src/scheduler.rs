//! The step scheduler: it owns the cloth and its settings, turns frame timestamps
//! into fixed-size simulation steps, and carries out pending resets and pending
//! clearing of the multipliers at the start of a frame.

use crate::cloth::{anchors_kept, Cloth, ClothView};
use crate::config::{default_params, is_fraction, SimType, SolverConfig, SolverParams};
use crate::fixed::Fixed;
use crate::integrator::integrated;
use crate::parse::{count_value, decimal_value, parse_count, parse_decimal};
use crate::solver::{solved, SolveError};
use crate::topology::{grid, grid_fits, grid_ok};
use vstd::prelude::*;

verus! {

/// Microseconds in a second: timestamps count microseconds.
pub const TICKS_PER_SECOND: u64 = 1_000_000;

/// The cloth after one step: one integration, then the configured solver passes.
/// `None` when the solver meets coincident particles.
pub open spec fn stepped(c: ClothView, p: SolverParams) -> Option<ClothView> {
    solved(integrated(c, p.damping), p, p.iterations as nat)
}

impl Cloth {
    /// Advances the cloth by one step, or leaves it as it was when the solver
    /// cannot finish.
    pub fn step(&mut self, config: &SolverConfig) -> (r: Result<(), SolveError>)
        requires
            old(self).wf(),
            config.wf(),
        ensures
            final(self).wf(),
            match stepped(old(self)@, config@) {
                Some(c) => r is Ok && final(self)@ == c,
                None => r == Err::<(), SolveError>(SolveError::CoincidentParticles)
                    && final(self)@ == old(self)@,
            },
            final(self)@.fixed == old(self)@.fixed,
            anchors_kept(old(self)@, final(self)@),
    {
        let mut work: Cloth = self.clone();
        work.integrate(config.damping());
        match work.solve(config) {
            Ok(()) => {
                *self = work;
                Ok(())
            },
            Err(e) => Err(e),
        }
    }
}

/// What the user interface tells the simulation.
#[derive(Clone, Copy, Debug, PartialEq, Eq)]
pub enum Msg {
    /// A frame is due; the timestamp counts microseconds.
    Render(u64),
    /// Rebuild the grid at the next frame.
    ResetClicked,
    /// Forget the stored multipliers.
    CleanLambdaClicked,
    SimTypeClicked(SimType),
    NumIterationsChanged(i32),
    StiffnessChanged(Fixed),
    /// Toggle the warm start.
    WarmStartChanged,
    EtaChanged(Fixed),
    /// A new damping factor.
    NuChanged(Fixed),
    JacobiRelaxationChanged(Fixed),
}

/// What a frame did to the simulation.
#[derive(Clone, Copy, Debug, PartialEq, Eq, Structural)]
pub enum StepOutcome {
    /// Too little time has passed since the last step: nothing was simulated.
    Idle,
    /// One step was simulated.
    Stepped,
    /// A step was due but the solver met coincident particles; the cloth is
    /// unchanged.
    Degenerate,
}

/// The mathematical value of a [`Model`].
pub struct ModelView {
    pub cloth: ClothView,
    /// Columns of the grid that a reset builds.
    pub nx: int,
    /// Rows of the grid that a reset builds.
    pub ny: int,
    pub config: SolverParams,
    /// Timestamp of the last step or reset.
    pub prev_timestamp: int,
    /// Steps simulated since the last reset.
    pub time_step: int,
    /// A reset is pending.
    pub do_reset: bool,
    /// Clearing of the multipliers is pending.
    pub do_clean_lambda: bool,
}

impl ModelView {
    pub open spec fn wf(self) -> bool {
        &&& self.cloth.wf()
        &&& self.config.valid()
        &&& grid_ok(self.nx, self.ny)
        &&& 0 <= self.time_step <= u64::MAX
    }
}

/// Whether a step is due at `now`: at least a sixtieth of a second has passed
/// since `prev`.
pub open spec fn due(prev: int, now: int) -> bool {
    (now - prev) * 60 >= 1_000_000
}

/// The model once the pending work of a frame is done: a pending reset rebuilds the
/// grid, restarts the step count and takes `now` as the time of the last step; then
/// a pending clearing zeroes the multipliers.
pub open spec fn prepared(m: ModelView, now: int) -> ModelView {
    let a = if m.do_reset {
        ModelView {
            cloth: grid(m.nx, m.ny),
            prev_timestamp: now,
            time_step: 0,
            do_reset: false,
            ..m
        }
    } else {
        m
    };
    if a.do_clean_lambda {
        ModelView { cloth: a.cloth.without_lambdas(), do_clean_lambda: false, ..a }
    } else {
        a
    }
}

/// What the frame at `now` does.
pub open spec fn frame_outcome(m: ModelView, now: int) -> StepOutcome {
    let b = prepared(m, now);
    if !due(b.prev_timestamp, now) {
        StepOutcome::Idle
    } else if stepped(b.cloth, b.config) is Some {
        StepOutcome::Stepped
    } else {
        StepOutcome::Degenerate
    }
}

/// The step count after one more step; it stops at the largest count.
pub open spec fn next_count(count: int) -> int {
    if count < u64::MAX {
        count + 1
    } else {
        count
    }
}

/// The model after the frame at `now`: the pending work, then exactly one step
/// when one is due. A step that cannot finish leaves the cloth alone but still
/// uses up the frame.
pub open spec fn framed(m: ModelView, now: int) -> ModelView {
    let b = prepared(m, now);
    if due(b.prev_timestamp, now) {
        match stepped(b.cloth, b.config) {
            Some(c) => ModelView {
                cloth: c,
                prev_timestamp: now,
                time_step: next_count(b.time_step),
                ..b
            },
            None => ModelView { prev_timestamp: now, ..b },
        }
    } else {
        b
    }
}

/// The settings after a message that carries one; a value out of range changes
/// nothing.
pub open spec fn configured(p: SolverParams, msg: Msg) -> SolverParams {
    match msg {
        Msg::SimTypeClicked(mode) => SolverParams { mode, ..p },
        Msg::NumIterationsChanged(n) => if n >= 1 {
            SolverParams { iterations: n as int, ..p }
        } else {
            p
        },
        Msg::StiffnessChanged(v) => if v@ > 0 {
            SolverParams { stiffness: v@, ..p }
        } else {
            p
        },
        Msg::WarmStartChanged => SolverParams { warm_start: !p.warm_start, ..p },
        Msg::EtaChanged(v) => if is_fraction(v@) {
            SolverParams { eta: v@, ..p }
        } else {
            p
        },
        Msg::NuChanged(v) => if is_fraction(v@) {
            SolverParams { damping: v@, ..p }
        } else {
            p
        },
        Msg::JacobiRelaxationChanged(v) => if is_fraction(v@) {
            SolverParams { relaxation: v@, ..p }
        } else {
            p
        },
        _ => p,
    }
}

/// The model after a message. A frame runs the scheduler. A reset request is
/// recorded for the next frame, together with a clearing of the multipliers. A
/// change of solving order or of the warm start takes effect at once and records a
/// clearing. A request to forget the multipliers zeroes them on the spot. Every
/// other message only changes a setting.
pub open spec fn updated(m: ModelView, msg: Msg) -> ModelView {
    match msg {
        Msg::Render(now) => framed(m, now as int),
        Msg::ResetClicked => ModelView { do_reset: true, do_clean_lambda: true, ..m },
        Msg::CleanLambdaClicked => ModelView { cloth: m.cloth.without_lambdas(), ..m },
        Msg::SimTypeClicked(_) | Msg::WarmStartChanged => ModelView {
            config: configured(m.config, msg),
            do_clean_lambda: true,
            ..m
        },
        _ => ModelView { config: configured(m.config, msg), ..m },
    }
}

/// A setting that the user enters as text.
#[derive(Clone, Copy, Debug, PartialEq, Eq, Structural)]
pub enum TextSetting {
    /// Solver passes per step, a whole number.
    NumIterations,
    /// The warm-start fraction, a decimal number.
    Eta,
    /// The damping factor, a decimal number.
    Nu,
    /// The Jacobi under-relaxation, a decimal number.
    JacobiRelaxation,
}

/// The message that a text entered for a setting amounts to, or nothing when the
/// text is not a number of the kind that the setting takes.
pub open spec fn message_for(setting: TextSetting, text: Seq<u8>) -> Option<Msg> {
    match setting {
        TextSetting::NumIterations => match count_value(text) {
            Some(n) => Some(Msg::NumIterationsChanged(n as i32)),
            None => None,
        },
        TextSetting::Eta => match decimal_value(text) {
            Some(v) => Some(Msg::EtaChanged(Fixed { raw: v as i64 })),
            None => None,
        },
        TextSetting::Nu => match decimal_value(text) {
            Some(v) => Some(Msg::NuChanged(Fixed { raw: v as i64 })),
            None => None,
        },
        TextSetting::JacobiRelaxation => match decimal_value(text) {
            Some(v) => Some(Msg::JacobiRelaxationChanged(Fixed { raw: v as i64 })),
            None => None,
        },
    }
}

/// The model after a text has been entered for a setting: text that is not a
/// number changes nothing, and a number is handled as the message that carries it,
/// which turns down a value out of range.
pub open spec fn entered(m: ModelView, setting: TextSetting, text: Seq<u8>) -> ModelView {
    match message_for(setting, text) {
        Some(msg) => updated(m, msg),
        None => m,
    }
}

/// Whether the controls have to be drawn again after a message: after every
/// message that carries a setting.
pub open spec fn redraws(msg: Msg) -> bool {
    !(msg is Render || msg is ResetClicked || msg is CleanLambdaClicked)
}

/// The simulation: a cloth, its settings, and the state of the scheduler.
pub struct Model {
    cloth: Cloth,
    num_particles_x: i32,
    num_particles_y: i32,
    config: SolverConfig,
    prev_timestamp: u64,
    time_step: u64,
    do_reset: bool,
    do_clean_lambda: bool,
}

impl View for Model {
    type V = ModelView;

    closed spec fn view(&self) -> ModelView {
        ModelView {
            cloth: self.cloth@,
            nx: self.num_particles_x as int,
            ny: self.num_particles_y as int,
            config: self.config@,
            prev_timestamp: self.prev_timestamp as int,
            time_step: self.time_step as int,
            do_reset: self.do_reset,
            do_clean_lambda: self.do_clean_lambda,
        }
    }
}

impl Model {
    pub open spec fn wf(&self) -> bool {
        self@.wf()
    }

    /// A model that builds a grid of ten by ten particles at its first frame, with
    /// the settings of [`SolverConfig::new`].
    pub fn create() -> (r: Model)
        ensures
            r.wf(),
            r@ == Model::create_view(),
    {
        Model {
            cloth: Cloth::new(),
            num_particles_x: 10,
            num_particles_y: 10,
            config: SolverConfig::new(),
            prev_timestamp: 0,
            time_step: 0,
            do_reset: true,
            do_clean_lambda: true,
        }
    }

    /// A model that builds a grid of `nx` by `ny` particles at its first frame, or
    /// nothing when such a grid cannot be built.
    pub fn with_grid(nx: i32, ny: i32) -> (r: Option<Model>)
        ensures
            r is Some <==> grid_ok(nx as int, ny as int),
            r matches Some(m) ==> m.wf() && m@ == (ModelView {
                nx: nx as int,
                ny: ny as int,
                ..Model::create_view()
            }),
    {
        if !grid_fits(nx, ny) {
            return None;
        }
        let mut model: Model = Model::create();
        model.num_particles_x = nx;
        model.num_particles_y = ny;
        Some(model)
    }

    /// A model around a cloth built by hand, with the starting settings and nothing
    /// pending. A later reset replaces the cloth by a grid of ten by ten.
    pub fn with_cloth(cloth: Cloth) -> (r: Model)
        requires
            cloth.wf(),
        ensures
            r.wf(),
            r@ == (ModelView {
                cloth: cloth@,
                do_reset: false,
                do_clean_lambda: false,
                ..Model::create_view()
            }),
    {
        Model {
            cloth,
            num_particles_x: 10,
            num_particles_y: 10,
            config: SolverConfig::new(),
            prev_timestamp: 0,
            time_step: 0,
            do_reset: false,
            do_clean_lambda: false,
        }
    }

    /// The value of a freshly created model.
    pub open spec fn create_view() -> ModelView {
        ModelView {
            cloth: ClothView::empty(),
            nx: 10,
            ny: 10,
            config: default_params(),
            prev_timestamp: 0,
            time_step: 0,
            do_reset: true,
            do_clean_lambda: true,
        }
    }

    pub fn cloth(&self) -> (r: &Cloth)
        ensures
            r@ == self@.cloth,
            self.wf() ==> r.wf(),
    {
        &self.cloth
    }

    pub fn config(&self) -> (r: &SolverConfig)
        ensures
            r@ == self@.config,
            self.wf() ==> r.wf(),
    {
        &self.config
    }

    /// Steps simulated since the last reset.
    pub fn time_step(&self) -> (r: u64)
        ensures
            r == self@.time_step,
    {
        self.time_step
    }

    /// Timestamp of the last step or reset.
    pub fn prev_timestamp(&self) -> (r: u64)
        ensures
            r == self@.prev_timestamp,
    {
        self.prev_timestamp
    }

    /// Whether the next frame rebuilds the grid.
    pub fn reset_pending(&self) -> (r: bool)
        ensures
            r == self@.do_reset,
    {
        self.do_reset
    }

    /// Whether the next frame zeroes the multipliers.
    pub fn lambda_clear_pending(&self) -> (r: bool)
        ensures
            r == self@.do_clean_lambda,
    {
        self.do_clean_lambda
    }

    /// Runs the frame at `timestamp`: the pending work, then one step if one is
    /// due.
    pub fn step(&mut self, timestamp: u64) -> (outcome: StepOutcome)
        requires
            old(self).wf(),
        ensures
            final(self).wf(),
            final(self)@ == framed(old(self)@, timestamp as int),
            outcome == frame_outcome(old(self)@, timestamp as int),
    {
        if self.do_reset {
            match Cloth::grid(self.num_particles_x, self.num_particles_y) {
                Some(c) => {
                    self.cloth = c;
                },
                None => {},
            }
            self.prev_timestamp = timestamp;
            self.time_step = 0;
            self.do_reset = false;
        }
        if self.do_clean_lambda {
            self.cloth.clear_lambdas();
            self.do_clean_lambda = false;
        }
        assert(self@ == prepared(old(self)@, timestamp as int));
        let is_due: bool = timestamp >= self.prev_timestamp && (timestamp
            - self.prev_timestamp) as u128 * 60 >= 1_000_000;
        if !is_due {
            return StepOutcome::Idle;
        }
        self.prev_timestamp = timestamp;
        let config: SolverConfig = self.config;
        match self.cloth.step(&config) {
            Ok(()) => {
                if self.time_step < u64::MAX {
                    self.time_step = self.time_step + 1;
                }
                StepOutcome::Stepped
            },
            Err(_) => StepOutcome::Degenerate,
        }
    }

    /// Takes the text that the user entered for a setting. The setting changes only
    /// if the text is a number and the number is in range. The controls have to be
    /// drawn again in any case, to show the value that holds.
    pub fn enter(&mut self, setting: TextSetting, text: &[u8]) -> (redraw: bool)
        requires
            old(self).wf(),
        ensures
            final(self).wf(),
            final(self)@ == entered(old(self)@, setting, text@),
            redraw,
    {
        match setting {
            TextSetting::NumIterations => {
                match parse_count(text) {
                    Some(count) => {
                        self.update(Msg::NumIterationsChanged(count));
                    },
                    None => {},
                }
            },
            TextSetting::Eta => {
                match parse_decimal(text) {
                    Some(eta) => {
                        self.update(Msg::EtaChanged(eta));
                    },
                    None => {},
                }
            },
            TextSetting::Nu => {
                match parse_decimal(text) {
                    Some(damping) => {
                        self.update(Msg::NuChanged(damping));
                    },
                    None => {},
                }
            },
            TextSetting::JacobiRelaxation => {
                match parse_decimal(text) {
                    Some(relaxation) => {
                        self.update(Msg::JacobiRelaxationChanged(relaxation));
                    },
                    None => {},
                }
            },
        }
        true
    }

    /// Handles a message and returns whether the controls have to be drawn again.
    pub fn update(&mut self, msg: Msg) -> (redraw: bool)
        requires
            old(self).wf(),
        ensures
            final(self).wf(),
            final(self)@ == updated(old(self)@, msg),
            redraw == redraws(msg),
    {
        match msg {
            Msg::Render(timestamp) => {
                self.step(timestamp);
                false
            },
            Msg::ResetClicked => {
                self.do_reset = true;
                self.do_clean_lambda = true;
                false
            },
            Msg::CleanLambdaClicked => {
                self.cloth.clear_lambdas();
                false
            },
            Msg::SimTypeClicked(mode) => {
                self.config.set_solve_mode(mode);
                self.do_clean_lambda = true;
                true
            },
            Msg::NumIterationsChanged(count) => {
                self.config.set_iteration_count(count);
                true
            },
            Msg::StiffnessChanged(stiffness) => {
                self.config.set_stiffness(stiffness);
                true
            },
            Msg::WarmStartChanged => {
                let warm: bool = self.config.warm_start();
                self.config.set_warm_start(!warm);
                self.do_clean_lambda = true;
                true
            },
            Msg::EtaChanged(eta) => {
                self.config.set_eta(eta);
                true
            },
            Msg::NuChanged(damping) => {
                self.config.set_damping(damping);
                true
            },
            Msg::JacobiRelaxationChanged(relaxation) => {
                self.config.set_jacobi_relaxation(relaxation);
                true
            },
        }
    }
}

} // verus!
