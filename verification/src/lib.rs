//! A fixed-point core for simulating circular bodies in the plane.
//!
//! Numbers are [`fixed::Fixed`]: integers that count units of 2^-32, with
//! arithmetic that clamps in place of overflowing. On top of them stand
//! vectors ([`vec2`]), the response to two overlapping circles
//! ([`collision`]), two kinds of body ([`ball`] with an explicit velocity,
//! [`particle`] with a previous position), and a world for each kind
//! ([`world`], [`particle_world`]) whose tick applies gravity, moves the
//! bodies, confines them between the walls, and then resolves their
//! overlaps in one pairwise pass ([`response`]). How nearly that pass keeps
//! the momentum is the subject of [`momentum`].
//!
//! The pass can find its pairs through a sorted index of the bodies'
//! coordinates on one axis ([`axis_projection`], [`axis_chain`],
//! [`broad_phase`]); whichever way it finds them, what it computes is the
//! same.

pub mod axis;
pub mod axis_chain;
pub mod axis_projection;
pub mod ball;
pub mod broad_phase;
pub mod collision;
pub mod config;
pub mod consts;
pub mod fixed;
pub mod momentum;
pub mod particle;
pub mod particle_world;
pub mod response;
pub mod sort;
pub mod sqrt;
pub mod vec2;
pub mod world;
