//! Simulation configuration and the per-tick render bookkeeping: settings,
//! world bounds, the dirty-frame record and the play state.

use vstd::prelude::*;

use crate::fixed::tdiv;
use crate::vec3::Vec3;

verus! {

/// Camera distance from the origin, micro-units: the z half-extent.
pub const CAMERA_DISTANCE: i64 = 4_000_000;

/// Half the visible height at the origin plane, micro-units.
pub const HALF_CAMERA_HEIGHT: i64 = 1_656_854;

/// Energy coefficients, damping factors and similar ratios are carried in
/// thousandths: 1000 is a factor of exactly one.
pub const PERMILLE: i64 = 1000;

/// Positions at or below this height count as resting on the floor for the
/// friction test (one thousandth of a unit).
pub const FLOOR_EPSILON: i64 = 1_000;

/// Per-axis world bounds: an enabled flag and the full extent of the axis in
/// micro-units (the clamp uses half of it on x and z; the floor sits at y=0).
#[derive(Clone, Copy, Debug, PartialEq)]
pub struct SimulationBounds {
    pub x: (bool, i64),
    pub y: (bool, i64),
    pub z: (bool, i64),
}

impl SimulationBounds {
    pub open spec fn wf(self) -> bool {
        0 <= self.x.1 <= 1_000_000_000_000 && 0 <= self.y.1 <= 1_000_000_000_000 && 0 <= self.z.1
            <= 1_000_000_000_000
    }

    /// Default extents: the visible width and height, and the camera depth.
    pub fn new(x: bool, y: bool, z: bool) -> (r: SimulationBounds)
        ensures
            r.x == (x, (2 * HALF_CAMERA_HEIGHT) as i64),
            r.y == (y, (2 * HALF_CAMERA_HEIGHT) as i64),
            r.z == (z, CAMERA_DISTANCE as i64),
            r.wf(),
    {
        SimulationBounds {
            x: (x, 2 * HALF_CAMERA_HEIGHT),
            y: (y, 2 * HALF_CAMERA_HEIGHT),
            z: (z, CAMERA_DISTANCE),
        }
    }
}

/// Process-wide simulation settings, read-only during a tick. Ratios are in
/// thousandths; lengths, speeds and accelerations in micro-units.
#[derive(Clone, Copy, Debug)]
pub struct SimulationSettings {
    /// Substep count for the constraint solver.
    pub converge_iterations: u16,
    /// Minimum travel, in micro-units, that marks a frame as changed.
    pub min_render_delta: i64,
    /// A render is forced after this many unchanged frames.
    pub max_unchanged_frames: u32,
    /// Point diameter for the built-in geometries, micro-units.
    pub default_geometry_point_size: i64,
    /// Stick thickness for the built-in geometries, micro-units.
    pub default_geometry_stick_size: i64,
    /// Interaction events reach bodies within this distance, micro-units.
    pub interaction_radius: i64,
    /// Thousandths of the axis velocity kept by a wall or floor bounce.
    pub coeff_restitution: i64,
    /// Thousandths of the velocity kept each frame while on the floor.
    pub friction_restituation: i64,
    /// Downward acceleration, micro-units per second squared.
    pub gravity: i64,
    /// Thousandths of the velocity kept each frame in the air.
    pub air_resistance: i64,
    pub simulation_bounds: SimulationBounds,
    /// Thousandths of the discrete acceleration spike removed by the filter.
    pub jerk_damping: i64,
}

impl SimulationSettings {
    /// The ranges every stage relies on: ratios are genuine fractions and the
    /// remaining magnitudes are small against the coordinate bound.
    pub open spec fn wf(self) -> bool {
        &&& 0 <= self.coeff_restitution <= PERMILLE
        &&& 0 <= self.friction_restituation <= PERMILLE
        &&& 0 <= self.air_resistance <= PERMILLE
        &&& 0 <= self.jerk_damping <= PERMILLE
        &&& 0 <= self.gravity <= 1_000_000_000
        &&& 0 <= self.min_render_delta <= 1_000_000_000_000
        &&& 0 <= self.default_geometry_point_size <= 1_000_000_000
        &&& 0 <= self.default_geometry_stick_size <= 1_000_000_000
        &&& 0 <= self.interaction_radius <= 1_000_000_000_000
        &&& self.simulation_bounds.wf()
    }

    /// The host viewport was resized: rescale the x extent so the simulated
    /// width keeps the viewport's aspect ratio, leaving y fixed.
    pub fn apply_resize(&mut self, width: i64, height: i64)
        requires
            old(self).wf(),
            0 <= width <= 1_000_000,
            0 < height <= 1_000_000,
            old(self).simulation_bounds.y.1 * width <= 1_000_000_000_000 * height,
        ensures
            final(self).wf(),
            final(self).simulation_bounds.x.1 == tdiv(
                old(self).simulation_bounds.y.1 * width,
                height as int,
            ),
            final(self).simulation_bounds.x.0 == old(self).simulation_bounds.x.0,
            final(self).simulation_bounds.y == old(self).simulation_bounds.y,
            final(self).simulation_bounds.z == old(self).simulation_bounds.z,
            *final(self) == (SimulationSettings {
                simulation_bounds: final(self).simulation_bounds,
                ..*old(self)
            }),
    {
        let y1: i64 = self.simulation_bounds.y.1;
        proof {
            let p = y1 * width;
            assert(p >= 0) by (nonlinear_arith)
                requires
                    p == y1 * width,
                    y1 >= 0,
                    width >= 0,
            ;
            vstd::arithmetic::div_mod::lemma_div_is_ordered(
                p,
                1_000_000_000_000 * height,
                height as int,
            );
            vstd::arithmetic::div_mod::lemma_div_multiples_vanish(
                1_000_000_000_000,
                height as int,
            );
        }
        let w: i64 = crate::fixed::mul_div(y1, width, height);
        self.simulation_bounds.x.1 = w;
    }
}

impl Default for SimulationSettings {
    /// The stock configuration: 10 solver substeps, render every frame that
    /// moves at all (and at least every 120 frames), 5% bounce and friction
    /// loss, 0.5% air drag, gravity of 9.8 units per second squared, all
    /// three axis bounds enabled, jerk damping of 0.4.
    fn default() -> (r: SimulationSettings)
        ensures
            r.converge_iterations == 10,
            r.min_render_delta == 0,
            r.max_unchanged_frames == 120,
            r.default_geometry_point_size == 25_000,
            r.default_geometry_stick_size == 10_000,
            r.interaction_radius == 30_000,
            r.coeff_restitution == 950,
            r.friction_restituation == 950,
            r.gravity == 9_800_000,
            r.air_resistance == 995,
            r.jerk_damping == 400,
            r.simulation_bounds.x == (true, (2 * HALF_CAMERA_HEIGHT) as i64),
            r.simulation_bounds.y == (true, (2 * HALF_CAMERA_HEIGHT) as i64),
            r.simulation_bounds.z == (true, CAMERA_DISTANCE as i64),
            r.wf(),
    {
        SimulationSettings {
            converge_iterations: 10,
            min_render_delta: 0,
            max_unchanged_frames: 120,
            default_geometry_point_size: 25_000,
            default_geometry_stick_size: 10_000,
            interaction_radius: 30_000,
            coeff_restitution: 950,
            friction_restituation: 950,
            gravity: 9_800_000,
            air_resistance: 995,
            simulation_bounds: SimulationBounds::new(true, true, true),
            jerk_damping: 400,
        }
    }
}

/// Whether a tick's geometry changed enough to be worth re-rendering.
#[derive(Clone, Copy, Debug, PartialEq, Eq, Structural)]
pub struct FrameComparison {
    /// Frames elapsed since the last rendered one.
    pub frames_since: u32,
    /// Whether this frame needs to be rendered.
    pub changed: bool,
}

impl Default for FrameComparison {
    /// A fresh simulation renders its first frame.
    fn default() -> (r: FrameComparison)
        ensures
            r.frames_since == 0,
            r.changed,
    {
        FrameComparison { frames_since: 0, changed: true }
    }
}

/// Whether the integration and constraint stages run this tick.
#[derive(Clone, Copy, Debug, PartialEq, Eq, Structural)]
pub enum SimulationPlayState {
    Running,
    Paused,
}

/// An externally requested play-state transition.
#[derive(Clone, Copy, Debug, PartialEq, Eq, Structural)]
pub enum SimulationPlayStateRequest {
    Pause,
    Play,
    Reset,
}

} // verus!
