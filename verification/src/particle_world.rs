//! The world of position-based particles and its tick: acceleration,
//! motion, walls, the pairwise pass, and the corrections of position.

use vstd::prelude::*;
use crate::ball::Ball;
use crate::config::Config;
use crate::fixed::Fixed;
use crate::particle::Particle;
use crate::response::{lemma_lonely_pass_is_empty, responses, spec_responses};
use crate::vec2::Vec2;
use crate::world::{mean_speed, spec_mean_speed};

verus! {

/// The particles of a simulation.
pub struct ParticleWorld {
    pub particles: Vec<Particle>,
}

impl View for ParticleWorld {
    type V = Seq<Particle>;

    open spec fn view(&self) -> Seq<Particle> {
        self.particles@
    }
}

/// Whether every particle of `particles` has a positive mass and a radius
/// that is not negative.
pub open spec fn all_wf(particles: Seq<Particle>) -> bool {
    forall|k: int| 0 <= k < particles.len() ==> (#[trigger] particles[k]).wf()
}

/// The particles as balls with their implied velocities.
pub open spec fn as_balls(particles: Seq<Particle>) -> Seq<Ball> {
    Seq::new(particles.len(), |k: int| particles[k].as_ball())
}

/// A particle after the first part of a tick, in which the particles do not
/// meet: gravity, then the sub-steps of motion, then the walls.
pub open spec fn after_motion(particle: Particle, config: Config, width: Fixed) -> Particle {
    particle.after_acceleration(config.gravity).after_substeps(
        config.dt,
        config.iterations as nat,
    ).after_walls(width)
}

/// The particles after the first part of a tick.
pub open spec fn moved(particles: Seq<Particle>, config: Config, width: Fixed) -> Seq<Particle> {
    Seq::new(particles.len(), |k: int| after_motion(particles[k], config, width))
}

/// The particles after the second part of a tick: each displaced, with the
/// configured smoothing, by what the pairwise pass over all of them summed
/// up for it.
pub open spec fn settled(particles: Seq<Particle>, config: Config) -> Seq<Particle> {
    let sums = spec_responses(as_balls(particles), config);
    Seq::new(
        particles.len(),
        |k: int| particles[k].after_displace(sums.displacements[k], config.smoothing),
    )
}

/// The particles after one tick.
pub open spec fn after_tick(particles: Seq<Particle>, config: Config, width: Fixed) -> Seq<
    Particle,
> {
    settled(moved(particles, config, width), config)
}

impl ParticleWorld {
    /// Every particle has a positive mass and a radius that is not negative.
    pub open spec fn wf(&self) -> bool {
        all_wf(self@)
    }

    /// A world without particles.
    pub fn new() -> (w: ParticleWorld)
        ensures
            w@ == Seq::<Particle>::empty(),
            w.wf(),
    {
        ParticleWorld { particles: Vec::new() }
    }

    /// Adds a particle at rest, numbered by how many there were before.
    pub fn spawn(&mut self, pos: Vec2, mass: Fixed, radius: Fixed)
        requires
            mass@ > 0,
            radius@ >= 0,
        ensures
            final(self)@ == old(self)@.push(
                Particle {
                    id: old(self)@.len() as usize,
                    pos,
                    pos_last: pos,
                    accel: Vec2::zero(),
                    mass,
                    radius,
                },
            ),
            old(self).wf() ==> final(self).wf(),
    {
        let id: usize = self.particles.len();
        self.particles.push(Particle::new(id, pos, mass, radius));
    }

    /// Removes every particle.
    pub fn clear(&mut self)
        ensures
            final(self)@ == Seq::<Particle>::empty(),
            final(self).wf(),
    {
        self.particles.clear();
    }

    /// The number of particles.
    pub fn len(&self) -> (n: usize)
        ensures
            n == self@.len(),
    {
        self.particles.len()
    }

    /// The particle at `index`.
    pub fn get(&self, index: usize) -> (particle: Particle)
        requires
            index < self@.len(),
        ensures
            particle == self@[index as int],
    {
        self.particles[index]
    }

    /// The particles as balls with their implied velocities.
    pub fn to_balls(&self) -> (balls: Vec<Ball>)
        ensures
            balls@ == as_balls(self@),
    {
        let n: usize = self.particles.len();
        let mut balls: Vec<Ball> = Vec::new();
        let mut i: usize = 0;
        while i < n
            invariant
                i <= n,
                n == self.particles.len(),
                balls@ == Seq::new(i as nat, |k: int| self@[k].as_ball()),
            decreases n - i,
        {
            balls.push(self.particles[i].as_ball());
            i += 1;
        }
        balls
    }

    /// The mean length of the particles' implied velocities, none for a
    /// world without particles.
    pub fn system_energy(&self) -> (mean: Option<Fixed>)
        ensures
            mean == spec_mean_speed(as_balls(self@)),
    {
        let balls = self.to_balls();
        mean_speed(&balls)
    }

    /// Adds `accel` to the gathered acceleration of every particle.
    pub fn accelerate_all(&mut self, accel: Vec2)
        ensures
            final(self)@ == Seq::new(
                old(self)@.len(),
                |k: int| old(self)@[k].after_acceleration(accel),
            ),
    {
        let n: usize = self.particles.len();
        let mut i: usize = 0;
        while i < n
            invariant
                i <= n,
                n == self.particles.len(),
                n == old(self)@.len(),
                forall|k: int|
                    0 <= k < i ==> (#[trigger] self.particles@[k]) == old(
                        self,
                    )@[k].after_acceleration(accel),
                forall|k: int| i <= k < n ==> (#[trigger] self.particles@[k]) == old(self)@[k],
            decreases n - i,
        {
            let mut particle: Particle = self.particles[i];
            particle.apply_acceleration(accel);
            self.particles.set(i, particle);
            i += 1;
        }
    }

    /// Moves every particle `iterations` times by `dt`.
    pub fn integrate_all(&mut self, dt: Fixed, iterations: u32)
        ensures
            final(self)@ == Seq::new(
                old(self)@.len(),
                |k: int| old(self)@[k].after_substeps(dt, iterations as nat),
            ),
    {
        let n: usize = self.particles.len();
        let mut i: usize = 0;
        while i < n
            invariant
                i <= n,
                n == self.particles.len(),
                n == old(self)@.len(),
                forall|k: int|
                    0 <= k < i ==> (#[trigger] self.particles@[k]) == old(self)@[k].after_substeps(
                        dt,
                        iterations as nat,
                    ),
                forall|k: int| i <= k < n ==> (#[trigger] self.particles@[k]) == old(self)@[k],
            decreases n - i,
        {
            let mut particle: Particle = self.particles[i];
            let ghost start = particle;
            let mut step: u32 = 0;
            while step < iterations
                invariant
                    step <= iterations,
                    particle == start.after_substeps(dt, step as nat),
                decreases iterations - step,
            {
                particle.integrate(dt);
                step += 1;
            }
            self.particles.set(i, particle);
            i += 1;
        }
    }

    /// Applies the wall constraint to every particle.
    pub fn constrain_all(&mut self, width: Fixed)
        ensures
            final(self)@ == Seq::new(old(self)@.len(), |k: int| old(self)@[k].after_walls(width)),
    {
        let n: usize = self.particles.len();
        let mut i: usize = 0;
        while i < n
            invariant
                i <= n,
                n == self.particles.len(),
                n == old(self)@.len(),
                forall|k: int|
                    0 <= k < i ==> (#[trigger] self.particles@[k]) == old(self)@[k].after_walls(
                        width,
                    ),
                forall|k: int| i <= k < n ==> (#[trigger] self.particles@[k]) == old(self)@[k],
            decreases n - i,
        {
            let mut particle: Particle = self.particles[i];
            particle.constrain(width);
            self.particles.set(i, particle);
            i += 1;
        }
    }

    /// Gives every particle its displacement, with the share `smooth`
    /// carried over to its previous position.
    pub fn displace_all(&mut self, displacements: &Vec<Vec2>, smooth: Fixed)
        requires
            displacements.len() == old(self)@.len(),
        ensures
            final(self)@ == Seq::new(
                old(self)@.len(),
                |k: int| old(self)@[k].after_displace(displacements@[k], smooth),
            ),
    {
        let n: usize = self.particles.len();
        let mut i: usize = 0;
        while i < n
            invariant
                i <= n,
                n == self.particles.len(),
                n == old(self)@.len(),
                displacements.len() == n,
                forall|k: int|
                    0 <= k < i ==> (#[trigger] self.particles@[k]) == old(self)@[k].after_displace(
                        displacements@[k],
                        smooth,
                    ),
                forall|k: int| i <= k < n ==> (#[trigger] self.particles@[k]) == old(self)@[k],
            decreases n - i,
        {
            let mut particle: Particle = self.particles[i];
            particle.displace(displacements[i], smooth);
            self.particles.set(i, particle);
            i += 1;
        }
    }

    /// Advances the world by one tick: gravity, the sub-steps of motion and
    /// the walls for every particle; then the pairwise pass over the
    /// particles as they stand after that; then, for every particle, the
    /// displacement that the pass summed up for it.
    pub fn solve_physics(&mut self, config: &Config, width: Fixed)
        requires
            old(self).wf(),
            config.wf(),
        ensures
            final(self)@ == after_tick(old(self)@, *config, width),
            final(self)@.len() == old(self)@.len(),
            final(self).wf(),
    {
        self.accelerate_all(config.gravity);
        self.integrate_all(config.dt, config.iterations);
        self.constrain_all(width);
        proof {
            assert(self@ =~= moved(old(self)@, *config, width));
            assert forall|k: int| 0 <= k < self@.len() implies (#[trigger] self@[k]).wf() by {
                lemma_motion_keeps_shape(old(self)@[k], *config, width);
            }
        }
        let balls = self.to_balls();
        let sums = responses(&balls, config);
        self.displace_all(&sums.0, config.smoothing);
        proof {
            assert(self@ =~= after_tick(old(self)@, *config, width));
        }
    }
}

/// Moving a particle changes neither its mass nor its radius.
pub proof fn lemma_substeps_keep_shape(particle: Particle, dt: Fixed, steps: nat)
    ensures
        particle.after_substeps(dt, steps).mass == particle.mass,
        particle.after_substeps(dt, steps).radius == particle.radius,
    decreases steps,
{
    if steps > 0 {
        lemma_substeps_keep_shape(particle, dt, (steps - 1) as nat);
    }
}

/// The first part of a tick changes neither the mass nor the radius of a
/// particle.
pub proof fn lemma_motion_keeps_shape(particle: Particle, config: Config, width: Fixed)
    ensures
        after_motion(particle, config, width).mass == particle.mass,
        after_motion(particle, config, width).radius == particle.radius,
{
    lemma_substeps_keep_shape(
        particle.after_acceleration(config.gravity),
        config.dt,
        config.iterations as nat,
    );
}

/// With fewer than two particles the pairwise pass moves nothing: a tick
/// is then the first part alone.
pub proof fn lemma_lonely_tick(particles: Seq<Particle>, config: Config, width: Fixed)
    requires
        particles.len() <= 1,
    ensures
        after_tick(particles, config, width) == moved(particles, config, width),
{
    let m = moved(particles, config, width);
    lemma_lonely_pass_is_empty(as_balls(m), config);
    assert(0 * config.smoothing@ == 0) by (nonlinear_arith);
    assert(Vec2::zero().scale(config.smoothing) == Vec2::zero());
    assert(after_tick(particles, config, width) =~= m);
}

} // verus!
