//! A circular body that keeps its previous position in place of a velocity.

use vstd::prelude::*;
use crate::ball::Ball;
use crate::fixed::Fixed;
use crate::vec2::Vec2;

verus! {

/// A circular body whose velocity is implied by its last two positions.
#[derive(Clone, Copy, Debug, PartialEq, Eq, Structural)]
pub struct Particle {
    /// A number by which the particle is told from the others.
    pub id: usize,
    /// Position of the centre.
    pub pos: Vec2,
    /// Position of the centre before the last move.
    pub pos_last: Vec2,
    /// Acceleration gathered for the next move.
    pub accel: Vec2,
    /// Mass; positive.
    pub mass: Fixed,
    /// Radius; not negative.
    pub radius: Fixed,
}

impl Particle {
    /// The mass is positive and the radius is not negative.
    pub open spec fn wf(&self) -> bool {
        self.mass@ > 0 && self.radius@ >= 0
    }

    /// The velocity that the last two positions imply.
    pub open spec fn spec_velocity(self) -> Vec2 {
        self.pos.minus(self.pos_last)
    }

    /// The particle as a ball with its implied velocity.
    pub open spec fn spec_as_ball(self) -> Ball {
        Ball { pos: self.pos, vel: self.spec_velocity(), mass: self.mass, radius: self.radius }
    }

    /// The particle moved on by its implied velocity and by its gathered
    /// acceleration times the square of `dt`; the acceleration is spent.
    pub open spec fn after_integrate(self, dt: Fixed) -> Particle {
        Particle {
            pos_last: self.pos,
            pos: self.pos.plus(self.spec_velocity()).plus(self.accel.scale(dt).scale(dt)),
            accel: Vec2::zero(),
            ..self
        }
    }

    /// The particle after `steps` moves of `dt` each.
    pub open spec fn after_substeps(self, dt: Fixed, steps: nat) -> Particle
        decreases steps,
    {
        if steps == 0 {
            self
        } else {
            self.after_substeps(dt, (steps - 1) as nat).after_integrate(dt)
        }
    }

    /// The particle moved by `delta`, its previous position by the share
    /// `smooth` of `delta`.
    pub open spec fn after_displace(self, delta: Vec2, smooth: Fixed) -> Particle {
        Particle {
            pos: self.pos.plus(delta),
            pos_last: self.pos_last.plus(delta.scale(smooth)),
            ..self
        }
    }

    /// The particle with `accel` added to its gathered acceleration.
    pub open spec fn after_acceleration(self, accel: Vec2) -> Particle {
        Particle { accel: self.accel.plus(accel), ..self }
    }

    /// The particle with `force` divided by its mass added to its gathered
    /// acceleration.
    pub open spec fn after_force(self, force: Vec2) -> Particle {
        Particle { accel: self.accel.plus(force.div(self.mass)), ..self }
    }

    /// The particle lifted onto the floor `y = 0` if it reaches below it.
    pub open spec fn after_floor(self) -> Particle {
        let depth = self.pos.y.minus(self.radius);
        if depth@ < 0 {
            self.after_displace(Vec2 { x: Fixed::of(0), y: depth.neg() }, Fixed::of(0))
        } else {
            self
        }
    }

    /// The particle pushed off the wall `x = 0` if it reaches beyond it.
    pub open spec fn after_left_wall(self) -> Particle {
        let depth = self.pos.x.minus(self.radius);
        if depth@ < 0 {
            self.after_displace(Vec2 { x: depth.neg(), y: Fixed::of(0) }, Fixed::of(0))
        } else {
            self
        }
    }

    /// The particle pushed off the wall `x = width` if it reaches beyond it.
    pub open spec fn after_right_wall(self, width: Fixed) -> Particle {
        let reach = self.pos.x.plus(self.radius);
        if reach@ > width@ {
            self.after_displace(Vec2 { x: width.minus(reach), y: Fixed::of(0) }, Fixed::of(0))
        } else {
            self
        }
    }

    /// The particle after the floor, the left wall and the right wall, in
    /// that order.
    pub open spec fn after_walls(self, width: Fixed) -> Particle {
        self.after_floor().after_left_wall().after_right_wall(width)
    }

    /// A particle at rest at `pos`.
    pub fn new(id: usize, pos: Vec2, mass: Fixed, radius: Fixed) -> (p: Self)
        requires
            mass@ > 0,
            radius@ >= 0,
        ensures
            p == (Particle { id, pos, pos_last: pos, accel: Vec2::zero(), mass, radius }),
            p.wf(),
    {
        Particle { id, pos, pos_last: pos, accel: Vec2::zero(), mass, radius }
    }

    /// The velocity that the last two positions imply.
    #[verifier::when_used_as_spec(spec_velocity)]
    pub fn velocity(self) -> (v: Vec2)
        ensures
            v == self.spec_velocity(),
    {
        self.pos.minus(self.pos_last)
    }

    /// The particle as a ball with its implied velocity.
    #[verifier::when_used_as_spec(spec_as_ball)]
    pub fn as_ball(self) -> (b: Ball)
        ensures
            b == self.spec_as_ball(),
    {
        Ball { pos: self.pos, vel: self.velocity(), mass: self.mass, radius: self.radius }
    }

    /// Moves the particle on by its implied velocity and by its gathered
    /// acceleration times the square of `dt`, and spends the acceleration.
    pub fn integrate(&mut self, dt: Fixed)
        ensures
            *final(self) == old(self).after_integrate(dt),
    {
        let vel = self.pos.minus(self.pos_last);
        self.pos_last = self.pos;
        self.pos = self.pos.plus(vel).plus(self.accel.scale(dt).scale(dt));
        self.accel = Vec2::zero();
    }

    /// Moves the particle by `delta` and its previous position by the share
    /// `smooth` of `delta`: with a share of zero the move changes the
    /// implied velocity by all of `delta`, with a share of one not at all.
    pub fn displace(&mut self, delta: Vec2, smooth: Fixed)
        ensures
            *final(self) == old(self).after_displace(delta, smooth),
    {
        self.pos = self.pos.plus(delta);
        self.pos_last = self.pos_last.plus(delta.scale(smooth));
    }

    /// Adds `accel` to the gathered acceleration.
    pub fn apply_acceleration(&mut self, accel: Vec2)
        ensures
            *final(self) == old(self).after_acceleration(accel),
    {
        self.accel = self.accel.plus(accel);
    }

    /// Adds `force` divided by the mass to the gathered acceleration.
    pub fn apply_force(&mut self, force: Vec2)
        requires
            old(self).mass@ != 0,
        ensures
            *final(self) == old(self).after_force(force),
    {
        self.accel = self.accel.plus(force.div(self.mass));
    }

    /// Keeps the particle above the floor `y = 0` and between the walls
    /// `x = 0` and `x = width`: where it reaches beyond one of them it is
    /// moved back by as much, its previous position left where it is.
    pub fn constrain(&mut self, width: Fixed)
        ensures
            *final(self) == old(self).after_walls(width),
    {
        let depth_y = self.pos.y.minus(self.radius);
        if depth_y.raw < 0 {
            self.displace(Vec2::new(Fixed::zero(), depth_y.neg()), Fixed::zero());
        }
        let depth_x = self.pos.x.minus(self.radius);
        if depth_x.raw < 0 {
            self.displace(Vec2::new(depth_x.neg(), Fixed::zero()), Fixed::zero());
        }
        let reach_x = self.pos.x.plus(self.radius);
        if reach_x.raw > width.raw {
            self.displace(Vec2::new(width.minus(reach_x), Fixed::zero()), Fixed::zero());
        }
    }
}

/// A second pass of the wall constraint, with nothing moved in between,
/// changes nothing.
pub proof fn lemma_particle_walls_idempotent(particle: Particle, width: Fixed)
    requires
        crate::ball::within_wall_limit(particle.pos.x),
        crate::ball::within_wall_limit(particle.pos.y),
        crate::ball::within_wall_limit(particle.radius),
        crate::ball::within_wall_limit(width),
    ensures
        particle.after_walls(width).after_walls(width) == particle.after_walls(width),
{
    let zero = Fixed::of(0);
    assert forall|v: Fixed| (#[trigger] v.times(zero)) == zero by {
        assert(v@ * 0 == 0) by (nonlinear_arith);
    }
    let once = particle.after_walls(width);
    let f = particle.after_floor();
    let l = f.after_left_wall();
    assert(once == l.after_right_wall(width));
    let f2 = once.after_floor();
    assert(f2 == once);
    let l2 = f2.after_left_wall();
    let twice = l2.after_right_wall(width);
    assert(twice.pos == once.pos);
    assert(twice.pos_last == once.pos_last);
}

} // verus!
