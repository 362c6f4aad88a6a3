//! A position-based (Verlet) particle and distance-constraint simulation.
//!
//! Geometry is carried in fixed-point coordinates: one spatial unit is
//! `SCALE` micro-units, held in `i64` components. Every stage of the
//! per-tick pipeline — spawn flush, integration, boundary clamping,
//! constraint relaxation, jerk filtering, dirty-frame tracking and the
//! rigid-attachment tracker — is specified and verified here.

pub mod attach;
pub mod fixed;
pub mod modify;
pub mod params;
pub mod particle;
pub mod quat;
pub mod shapes;
pub mod solver;
pub mod spawn;
pub mod world;
pub mod vec3;

use vstd::prelude::*;

verus! {

/// Number of micro-units in one spatial unit.
pub const SCALE: i64 = 1_000_000;

} // verus!
