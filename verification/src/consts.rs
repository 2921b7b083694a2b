//! The simulation's standard parameters, as raw fixed-point values.

use vstd::prelude::*;

verus! {

/// Radius of a standard body: 10.
pub const RADIUS: i64 = 42949672960;

/// Sub-steps of integration in one tick.
pub const PHY_ITERATIONS: u32 = 4;

/// Duration of one tick: 1/60.
pub const PHY_DT: i64 = 71582788;

/// Duration of one sub-step: 1/240.
pub const PHY_SDT: i64 = 17895697;

/// Horizontal component of gravity: 0.
pub const GRAVITY_X: i64 = 0;

/// Vertical component of gravity: -9.8.
pub const GRAVITY_Y: i64 = -42090679501;

/// Restitution of a collision: 0.5.
pub const ELASTICITY: i64 = 2147483648;

/// The circle constant, 3.14159265...
pub const PI: i64 = 13493037705;

/// Share of a penetration by which each of the two bodies is moved: 0.5.
pub const CORRECTION: i64 = 2147483648;

/// Share of the computed change of velocity that a body receives: 0.5.
pub const DAMPING: i64 = 2147483648;

/// Share of a positional correction that carries over to the previous
/// position of a position-based body: 0.25.
pub const SMOOTHING: i64 = 1073741824;

/// What is added to a distance before dividing by it: 2^-23.
pub const EPSILON: i64 = 512;

} // verus!
