//! What holds of every run of the simulation, proved over its mathematical model.

pub mod anchors;
pub mod free_fall;
pub mod grid;
pub mod modes;
pub mod stiffness;
pub mod warm_start;
