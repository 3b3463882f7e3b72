//! Simulation tunables.
use crate::fixed::{LIMIT, SCALE};
use vstd::prelude::*;

verus! {

/// Default top speed: 500 units per second.
pub const DEFAULT_MAX_SPEED: i64 = 500000;

/// Default drag: 250 units per second squared.
pub const DEFAULT_DRAG: i64 = 250000;

/// Default acceleration from full input: 1000 units per second squared.
pub const DEFAULT_ACCELERATION: i64 = 1000000;

/// Default restitution: 0.5.
pub const DEFAULT_RESTITUTION: i64 = 500;

/// Tunables read by every tick, all in fixed point.
#[derive(Clone, Copy, PartialEq, Eq, Structural, Debug)]
pub struct PhysicsConfig {
    /// Largest speed a body keeps after integration.
    pub max_speed: i64,
    /// Acceleration that a full-length input produces.
    pub acceleration: i64,
    /// Deceleration applied on axes without input.
    pub drag: i64,
    /// Bounce coefficient, from 0 (inelastic) to `SCALE` (elastic).
    pub restitution: i64,
}

impl PhysicsConfig {
    pub open spec fn wf(self) -> bool {
        &&& 0 < self.max_speed <= LIMIT
        &&& 0 <= self.acceleration <= LIMIT
        &&& 0 <= self.drag <= LIMIT
        &&& 0 <= self.restitution <= SCALE
    }

    /// The square of the top speed.
    pub fn max_speed_sq(&self) -> (r: i64)
        requires
            self.wf(),
        ensures
            r == self.max_speed * self.max_speed,
    {
        assert(self.max_speed * self.max_speed <= LIMIT * LIMIT) by (nonlinear_arith)
            requires
                0 < self.max_speed <= LIMIT,
        ;
        self.max_speed * self.max_speed
    }
}

impl Default for PhysicsConfig {
    fn default() -> (r: Self)
        ensures
            r.max_speed == DEFAULT_MAX_SPEED,
            r.acceleration == DEFAULT_ACCELERATION,
            r.drag == DEFAULT_DRAG,
            r.restitution == DEFAULT_RESTITUTION,
            r.wf(),
    {
        PhysicsConfig {
            max_speed: DEFAULT_MAX_SPEED,
            acceleration: DEFAULT_ACCELERATION,
            drag: DEFAULT_DRAG,
            restitution: DEFAULT_RESTITUTION,
        }
    }
}

} // verus!
