//! A circular body that carries its velocity.

use vstd::prelude::*;
use crate::fixed::Fixed;
use crate::vec2::Vec2;

verus! {

/// A circular body with an explicit velocity.
#[derive(Clone, Copy, Debug, PartialEq, Eq, Structural)]
pub struct Ball {
    /// Position of the centre.
    pub pos: Vec2,
    /// Velocity.
    pub vel: Vec2,
    /// Mass; positive.
    pub mass: Fixed,
    /// Radius; not negative.
    pub radius: Fixed,
}

/// The largest magnitude of a coordinate, a radius or a width for which a
/// pass of the wall constraint never reaches the ends of the number range.
pub const WALL_LIMIT: i64 = 0x2000_0000_0000_0000;

/// Whether `v` is at most `WALL_LIMIT` in magnitude.
pub open spec fn within_wall_limit(v: Fixed) -> bool {
    -WALL_LIMIT <= v@ <= WALL_LIMIT
}

impl Ball {
    /// The mass is positive and the radius is not negative.
    pub open spec fn wf(&self) -> bool {
        self.mass@ > 0 && self.radius@ >= 0
    }

    /// The ball moved for `dt` at its velocity.
    pub open spec fn after_integrate(self, dt: Fixed) -> Ball {
        Ball { pos: self.pos.plus(self.vel.scale(dt)), ..self }
    }

    /// The ball moved by `delta`.
    pub open spec fn after_displace(self, delta: Vec2) -> Ball {
        Ball { pos: self.pos.plus(delta), ..self }
    }

    /// The ball with `change` added to its velocity.
    pub open spec fn after_velocity(self, change: Vec2) -> Ball {
        Ball { vel: self.vel.plus(change), ..self }
    }

    /// The ball with the force `force` applied: its velocity grows by the
    /// force divided by the mass.
    pub open spec fn after_force(self, force: Vec2) -> Ball {
        Ball { vel: self.vel.plus(force.div(self.mass)), ..self }
    }

    /// The ball lifted onto the floor `y = 0` if it reaches below it, its
    /// vertical velocity reversed.
    pub open spec fn after_floor(self) -> Ball {
        let depth = self.pos.y.minus(self.radius);
        if depth@ < 0 {
            Ball {
                pos: self.pos.plus(Vec2 { x: Fixed::of(0), y: depth.neg() }),
                vel: Vec2 { x: self.vel.x, y: self.vel.y.neg() },
                ..self
            }
        } else {
            self
        }
    }

    /// The ball pushed off the wall `x = 0` if it reaches beyond it, its
    /// horizontal velocity reversed.
    pub open spec fn after_left_wall(self) -> Ball {
        let depth = self.pos.x.minus(self.radius);
        if depth@ < 0 {
            Ball {
                pos: self.pos.plus(Vec2 { x: depth.neg(), y: Fixed::of(0) }),
                vel: Vec2 { x: self.vel.x.neg(), y: self.vel.y },
                ..self
            }
        } else {
            self
        }
    }

    /// The ball pushed off the wall `x = width` if it reaches beyond it,
    /// its horizontal velocity reversed.
    pub open spec fn after_right_wall(self, width: Fixed) -> Ball {
        let reach = self.pos.x.plus(self.radius);
        if reach@ > width@ {
            Ball {
                pos: self.pos.plus(Vec2 { x: width.minus(reach), y: Fixed::of(0) }),
                vel: Vec2 { x: self.vel.x.neg(), y: self.vel.y },
                ..self
            }
        } else {
            self
        }
    }

    /// The ball after the floor, the left wall and the right wall, in that
    /// order.
    pub open spec fn after_walls(self, width: Fixed) -> Ball {
        self.after_floor().after_left_wall().after_right_wall(width)
    }

    /// The ball after `steps` moves of `dt` each.
    pub open spec fn after_substeps(self, dt: Fixed, steps: nat) -> Ball
        decreases steps,
    {
        if steps == 0 {
            self
        } else {
            self.after_substeps(dt, (steps - 1) as nat).after_integrate(dt)
        }
    }

    /// A ball at `pos` with the given mass, radius and velocity.
    pub fn new(pos: Vec2, mass: Fixed, radius: Fixed, vel: Vec2) -> (b: Self)
        requires
            mass@ > 0,
            radius@ >= 0,
        ensures
            b == (Ball { pos, vel, mass, radius }),
            b.wf(),
    {
        Ball { pos, vel, mass, radius }
    }

    /// Moves the ball for `dt` at its velocity.
    pub fn integrate(&mut self, dt: Fixed)
        ensures
            *final(self) == old(self).after_integrate(dt),
    {
        self.pos = self.pos.plus(self.vel.scale(dt));
    }

    /// Moves the ball by `delta`.
    pub fn displace(&mut self, delta: Vec2)
        ensures
            *final(self) == old(self).after_displace(delta),
    {
        self.pos = self.pos.plus(delta);
    }

    /// Adds `accel` to the velocity.
    pub fn apply_acceleration(&mut self, accel: Vec2)
        ensures
            *final(self) == old(self).after_velocity(accel),
    {
        self.vel = self.vel.plus(accel);
    }

    /// Adds `force` divided by the mass to the velocity.
    pub fn apply_force(&mut self, force: Vec2)
        requires
            old(self).mass@ != 0,
        ensures
            *final(self) == old(self).after_force(force),
    {
        self.vel = self.vel.plus(force.div(self.mass));
    }

    /// Adds `vel` to the velocity.
    pub fn apply_velocity(&mut self, vel: Vec2)
        ensures
            *final(self) == old(self).after_velocity(vel),
    {
        self.vel = self.vel.plus(vel);
    }

    /// Keeps the ball above the floor `y = 0` and between the walls `x = 0`
    /// and `x = width`: where it reaches beyond one of them it is moved
    /// back by as much, and the velocity across that wall is reversed.
    pub fn constrain(&mut self, width: Fixed)
        ensures
            *final(self) == old(self).after_walls(width),
    {
        let depth_y = self.pos.y.minus(self.radius);
        if depth_y.raw < 0 {
            self.displace(Vec2::new(Fixed::zero(), depth_y.neg()));
            self.vel = Vec2::new(self.vel.x, self.vel.y.neg());
        }
        let depth_x = self.pos.x.minus(self.radius);
        if depth_x.raw < 0 {
            self.displace(Vec2::new(depth_x.neg(), Fixed::zero()));
            self.vel = Vec2::new(self.vel.x.neg(), self.vel.y);
        }
        let reach_x = self.pos.x.plus(self.radius);
        if reach_x.raw > width.raw {
            self.displace(Vec2::new(width.minus(reach_x), Fixed::zero()));
            self.vel = Vec2::new(self.vel.x.neg(), self.vel.y);
        }
    }
}

/// The mass of a disc of unit density: the circle constant times the square
/// of the radius.
pub open spec fn spec_disc_mass(radius: Fixed) -> Fixed {
    Fixed::of(crate::consts::PI as int).times(radius).times(radius)
}

/// The mass of a disc of unit density with the given radius.
#[verifier::when_used_as_spec(spec_disc_mass)]
pub fn disc_mass(radius: Fixed) -> (mass: Fixed)
    ensures
        mass == spec_disc_mass(radius),
{
    Fixed::from_raw(crate::consts::PI).times(radius).times(radius)
}

/// A ball that reaches below the floor or beyond the left wall is moved so
/// that it touches it: its centre comes to lie one radius from the wall.
pub proof fn lemma_walls_cancel_penetration(ball: Ball, width: Fixed)
    requires
        within_wall_limit(ball.pos.x),
        within_wall_limit(ball.pos.y),
        within_wall_limit(ball.radius),
        within_wall_limit(width),
    ensures
        ball.pos.y@ < ball.radius@ ==> ball.after_walls(width).pos.y == ball.radius,
        ball.pos.y@ >= ball.radius@ ==> ball.after_walls(width).pos.y == ball.pos.y,
        ball.pos.x@ < ball.radius@ && 2 * ball.radius@ <= width@ ==> ball.after_walls(width).pos.x
            == ball.radius,
        ({
            let x = if ball.pos.x@ < ball.radius@ {
                ball.radius@
            } else {
                ball.pos.x@
            };
            x + ball.radius@ > width@ ==> ball.after_walls(width).pos.x@ == width@ - ball.radius@
        }),
{
}

/// A second pass of the wall constraint, with nothing moved in between,
/// changes nothing.
pub proof fn lemma_walls_idempotent(ball: Ball, width: Fixed)
    requires
        within_wall_limit(ball.pos.x),
        within_wall_limit(ball.pos.y),
        within_wall_limit(ball.radius),
        within_wall_limit(width),
    ensures
        ball.after_walls(width).after_walls(width) == ball.after_walls(width),
{
    let once = ball.after_walls(width);
    let f = ball.after_floor();
    let l = f.after_left_wall();
    assert(once == l.after_right_wall(width));
    let f2 = once.after_floor();
    assert(f2 == once);
    let l2 = f2.after_left_wall();
    let twice = l2.after_right_wall(width);
    assert(twice.pos == once.pos);
    assert(twice.vel == once.vel);
}

} // verus!
