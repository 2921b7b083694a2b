//! The parameters of a simulation.

use vstd::prelude::*;
use crate::consts;
use crate::fixed::{Fixed, ONE_RAW};
use crate::vec2::Vec2;

verus! {

/// How the pairwise pass finds the pairs that it tests for overlap. The
/// choice changes the work done, never the outcome.
#[derive(Clone, Copy, Debug, PartialEq, Eq, Structural)]
pub enum Strategy {
    /// Every ball is tested against every other.
    Exhaustive,
    /// A ball is tested against those within the neighbour radius of it on
    /// the horizontal axis.
    AxisRange,
    /// A ball is tested against those within the neighbour radius of it on
    /// both axes.
    ChainIntersection,
}

/// The parameters that a step of the simulation reads.
#[derive(Clone, Copy, Debug, PartialEq, Eq, Structural)]
pub struct Config {
    /// Sub-steps of integration in one tick.
    pub iterations: u32,
    /// Duration of one sub-step.
    pub dt: Fixed,
    /// What every body's acceleration receives at the start of a tick.
    pub gravity: Vec2,
    /// Restitution of a collision, from 0 (inelastic) to 1 (elastic).
    pub elasticity: Fixed,
    /// Distance on one axis up to which two bodies are candidates for a
    /// collision.
    pub neighbor_radius: Fixed,
    /// Share of a penetration by which each of the two bodies is moved.
    pub correction: Fixed,
    /// Share of the computed change of velocity that a body receives.
    pub damping: Fixed,
    /// Share of a positional correction that carries over to the previous
    /// position of a position-based body, from 0 to 1.
    pub smoothing: Fixed,
    /// What is added to a distance before dividing by it; positive.
    pub epsilon: Fixed,
    /// How the pairwise pass finds its pairs.
    pub strategy: Strategy,
}

/// Whether `v` lies between zero and one.
pub open spec fn is_fraction(v: Fixed) -> bool {
    0 <= v@ <= ONE_RAW
}

impl Config {
    /// The guard against division by zero is positive, and restitution and
    /// smoothing are fractions.
    pub open spec fn wf(&self) -> bool {
        &&& self.epsilon@ > 0
        &&& is_fraction(self.elasticity)
        &&& is_fraction(self.smoothing)
    }

    /// The standard parameters, without gravity.
    pub fn standard() -> (c: Config)
        ensures
            c.wf(),
            c.iterations == consts::PHY_ITERATIONS,
            c.dt@ == consts::PHY_SDT,
            c.gravity == Vec2::zero(),
            c.elasticity@ == consts::ELASTICITY,
            c.neighbor_radius@ == 2 * consts::RADIUS,
            c.correction@ == consts::CORRECTION,
            c.damping@ == consts::DAMPING,
            c.smoothing@ == consts::SMOOTHING,
            c.epsilon@ == consts::EPSILON,
            c.strategy == Strategy::Exhaustive,
    {
        Config {
            iterations: consts::PHY_ITERATIONS,
            dt: Fixed::from_raw(consts::PHY_SDT),
            gravity: Vec2::zero(),
            elasticity: Fixed::from_raw(consts::ELASTICITY),
            neighbor_radius: Fixed::from_raw(2 * consts::RADIUS),
            correction: Fixed::from_raw(consts::CORRECTION),
            damping: Fixed::from_raw(consts::DAMPING),
            smoothing: Fixed::from_raw(consts::SMOOTHING),
            epsilon: Fixed::from_raw(consts::EPSILON),
            strategy: Strategy::Exhaustive,
        }
    }
}

} // verus!
