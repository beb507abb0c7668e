//! A cloth simulator built on extended position-based dynamics, computed in
//! saturating fixed-point arithmetic so that every run is reproducible bit for bit.
//!
//! A [`Cloth`] holds the particles and the distance constraints between them. Each
//! step integrates the free particles and then lets the solver project every
//! constraint a configured number of times, in Gauss-Seidel or Jacobi order. A
//! [`Model`] owns a cloth and its settings and decides, frame by frame, when a step
//! is due.

pub mod cloth;
pub mod config;
pub mod fixed;
pub mod integrator;
pub mod parse;
pub mod render;
pub mod scheduler;
pub mod solver;
pub mod theorems;
pub mod topology;
pub mod vec3;

pub use crate::cloth::{Cloth, Constraint};
pub use crate::config::{SimType, SolverConfig};
pub use crate::fixed::Fixed;
pub use crate::scheduler::{Model, Msg, StepOutcome, TextSetting};
pub use crate::solver::SolveError;
pub use crate::vec3::Vec3;
