//! The world of balls and its tick: acceleration, motion, walls, the
//! pairwise pass, and the application of what the pass summed up.

use vstd::prelude::*;
use crate::ball::{lemma_walls_idempotent, within_wall_limit, Ball};
use crate::config::Config;
use crate::fixed::{lemma_trunc_div_bounds, trunc_div, Fixed};
use crate::response::{lemma_lonely_pass_is_empty, responses, spec_responses};
use crate::vec2::Vec2;

verus! {

/// The balls of a simulation.
pub struct World {
    pub balls: Vec<Ball>,
}

impl View for World {
    type V = Seq<Ball>;

    open spec fn view(&self) -> Seq<Ball> {
        self.balls@
    }
}

/// Whether every ball of `balls` has a positive mass and a radius that is
/// not negative.
pub open spec fn all_wf(balls: Seq<Ball>) -> bool {
    forall|k: int| 0 <= k < balls.len() ==> (#[trigger] balls[k]).wf()
}

/// A ball after the first part of a tick, in which the balls do not meet:
/// gravity, then the sub-steps of motion, then the walls.
pub open spec fn after_motion(ball: Ball, config: Config, width: Fixed) -> Ball {
    ball.after_velocity(config.gravity).after_substeps(
        config.dt,
        config.iterations as nat,
    ).after_walls(width)
}

/// The balls after the first part of a tick.
pub open spec fn moved(balls: Seq<Ball>, config: Config, width: Fixed) -> Seq<Ball> {
    Seq::new(balls.len(), |k: int| after_motion(balls[k], config, width))
}

/// The balls after the second part of a tick: each displaced and changed
/// in velocity by what the pairwise pass over all of them summed up for it.
pub open spec fn resolved(balls: Seq<Ball>, config: Config) -> Seq<Ball> {
    let sums = spec_responses(balls, config);
    Seq::new(
        balls.len(),
        |k: int| balls[k].after_displace(sums.displacements[k]).after_velocity(sums.velocities[k]),
    )
}

/// The balls after one tick.
pub open spec fn after_tick(balls: Seq<Ball>, config: Config, width: Fixed) -> Seq<Ball> {
    resolved(moved(balls, config, width), config)
}

/// The clamped sum of the speeds of the first `n` balls.
pub open spec fn speed_sum(balls: Seq<Ball>, n: nat) -> Fixed
    decreases n,
{
    if n == 0 {
        Fixed::of(0)
    } else {
        speed_sum(balls, (n - 1) as nat).plus(balls[n - 1].vel.length())
    }
}

/// The mean speed of the balls: the sum of the speeds divided by their
/// number, rounded toward zero; none for no balls.
pub open spec fn spec_mean_speed(balls: Seq<Ball>) -> Option<Fixed> {
    if balls.len() == 0 {
        None
    } else {
        Some(Fixed::of(trunc_div(speed_sum(balls, balls.len())@, balls.len() as int)))
    }
}

/// The mean speed of the balls, none for no balls.
pub fn mean_speed(balls: &Vec<Ball>) -> (mean: Option<Fixed>)
    ensures
        mean == spec_mean_speed(balls@),
{
    let n: usize = balls.len();
    if n == 0 {
        return None;
    }
    let mut sum: Fixed = Fixed::zero();
    let mut i: usize = 0;
    while i < n
        invariant
            i <= n,
            n == balls.len(),
            sum == speed_sum(balls@, i as nat),
        decreases n - i,
    {
        sum = sum.plus(balls[i].vel.length());
        i += 1;
    }
    proof {
        lemma_trunc_div_bounds(sum@, n as int);
    }
    let quotient: i128 = (sum.raw as i128) / (n as i128);
    Some(Fixed::from_raw(quotient as i64))
}

impl World {
    /// Every ball has a positive mass and a radius that is not negative.
    pub open spec fn wf(&self) -> bool {
        all_wf(self@)
    }

    /// A world without balls.
    pub fn new() -> (w: World)
        ensures
            w@ == Seq::<Ball>::empty(),
            w.wf(),
    {
        World { balls: Vec::new() }
    }

    /// Adds a ball.
    pub fn spawn(&mut self, pos: Vec2, mass: Fixed, radius: Fixed, vel: Vec2)
        requires
            mass@ > 0,
            radius@ >= 0,
        ensures
            final(self)@ == old(self)@.push(Ball { pos, vel, mass, radius }),
            old(self).wf() ==> final(self).wf(),
    {
        self.balls.push(Ball::new(pos, mass, radius, vel));
    }

    /// Removes every ball.
    pub fn clear(&mut self)
        ensures
            final(self)@ == Seq::<Ball>::empty(),
            final(self).wf(),
    {
        self.balls.clear();
    }

    /// The number of balls.
    pub fn len(&self) -> (n: usize)
        ensures
            n == self@.len(),
    {
        self.balls.len()
    }

    /// The ball at `index`.
    pub fn get(&self, index: usize) -> (ball: Ball)
        requires
            index < self@.len(),
        ensures
            ball == self@[index as int],
    {
        self.balls[index]
    }

    /// The mean speed of the balls, none for a world without balls.
    pub fn system_energy(&self) -> (mean: Option<Fixed>)
        ensures
            mean == spec_mean_speed(self@),
    {
        mean_speed(&self.balls)
    }

    /// Adds `accel` to the velocity of every ball.
    pub fn accelerate_all(&mut self, accel: Vec2)
        ensures
            final(self)@ == Seq::new(old(self)@.len(), |k: int| old(self)@[k].after_velocity(accel)),
    {
        let n: usize = self.balls.len();
        let mut i: usize = 0;
        while i < n
            invariant
                i <= n,
                n == self.balls.len(),
                n == old(self)@.len(),
                forall|k: int|
                    0 <= k < i ==> (#[trigger] self.balls@[k]) == old(self)@[k].after_velocity(accel),
                forall|k: int| i <= k < n ==> (#[trigger] self.balls@[k]) == old(self)@[k],
            decreases n - i,
        {
            let mut ball: Ball = self.balls[i];
            ball.apply_acceleration(accel);
            self.balls.set(i, ball);
            i += 1;
        }
    }

    /// Moves every ball `iterations` times for `dt` at its velocity.
    pub fn integrate_all(&mut self, dt: Fixed, iterations: u32)
        ensures
            final(self)@ == Seq::new(
                old(self)@.len(),
                |k: int| old(self)@[k].after_substeps(dt, iterations as nat),
            ),
    {
        let n: usize = self.balls.len();
        let mut i: usize = 0;
        while i < n
            invariant
                i <= n,
                n == self.balls.len(),
                n == old(self)@.len(),
                forall|k: int|
                    0 <= k < i ==> (#[trigger] self.balls@[k]) == old(self)@[k].after_substeps(
                        dt,
                        iterations as nat,
                    ),
                forall|k: int| i <= k < n ==> (#[trigger] self.balls@[k]) == old(self)@[k],
            decreases n - i,
        {
            let mut ball: Ball = self.balls[i];
            let ghost start = ball;
            let mut step: u32 = 0;
            while step < iterations
                invariant
                    step <= iterations,
                    ball == start.after_substeps(dt, step as nat),
                decreases iterations - step,
            {
                ball.integrate(dt);
                step += 1;
            }
            self.balls.set(i, ball);
            i += 1;
        }
    }

    /// Applies the wall constraint to every ball.
    pub fn constrain_all(&mut self, width: Fixed)
        ensures
            final(self)@ == Seq::new(old(self)@.len(), |k: int| old(self)@[k].after_walls(width)),
    {
        let n: usize = self.balls.len();
        let mut i: usize = 0;
        while i < n
            invariant
                i <= n,
                n == self.balls.len(),
                n == old(self)@.len(),
                forall|k: int|
                    0 <= k < i ==> (#[trigger] self.balls@[k]) == old(self)@[k].after_walls(width),
                forall|k: int| i <= k < n ==> (#[trigger] self.balls@[k]) == old(self)@[k],
            decreases n - i,
        {
            let mut ball: Ball = self.balls[i];
            ball.constrain(width);
            self.balls.set(i, ball);
            i += 1;
        }
    }

    /// Gives every ball its displacement and its change of velocity.
    pub fn apply(&mut self, displacements: &Vec<Vec2>, velocities: &Vec<Vec2>)
        requires
            displacements.len() == old(self)@.len(),
            velocities.len() == old(self)@.len(),
        ensures
            final(self)@ == Seq::new(
                old(self)@.len(),
                |k: int|
                    old(self)@[k].after_displace(displacements@[k]).after_velocity(velocities@[k]),
            ),
    {
        let n: usize = self.balls.len();
        let mut i: usize = 0;
        while i < n
            invariant
                i <= n,
                n == self.balls.len(),
                n == old(self)@.len(),
                displacements.len() == n,
                velocities.len() == n,
                forall|k: int|
                    0 <= k < i ==> (#[trigger] self.balls@[k]) == old(self)@[k].after_displace(
                        displacements@[k],
                    ).after_velocity(velocities@[k]),
                forall|k: int| i <= k < n ==> (#[trigger] self.balls@[k]) == old(self)@[k],
            decreases n - i,
        {
            let mut ball: Ball = self.balls[i];
            ball.displace(displacements[i]);
            ball.apply_velocity(velocities[i]);
            self.balls.set(i, ball);
            i += 1;
        }
    }

    /// Advances the world by one tick: gravity, the sub-steps of motion and
    /// the walls for every ball; then the pairwise pass over the balls as
    /// they stand after that; then, for every ball, what the pass summed up
    /// for it.
    pub fn solve_physics(&mut self, config: &Config, width: Fixed)
        requires
            old(self).wf(),
            config.wf(),
        ensures
            final(self)@ == after_tick(old(self)@, *config, width),
            final(self)@.len() == old(self)@.len(),
            final(self).wf(),
    {
        self.accelerate_all(config.gravity);
        self.integrate_all(config.dt, config.iterations);
        self.constrain_all(width);
        proof {
            assert(self@ =~= moved(old(self)@, *config, width));
            assert forall|k: int| 0 <= k < self@.len() implies (#[trigger] self@[k]).wf() by {
                lemma_motion_keeps_wf(old(self)@[k], *config, width);
            }
        }
        let sums = responses(&self.balls, config);
        self.apply(&sums.0, &sums.1);
        proof {
            assert(self@ =~= after_tick(old(self)@, *config, width));
        }
    }
}

/// Moving a ball changes neither its mass nor its radius.
pub proof fn lemma_substeps_keep_shape(ball: Ball, dt: Fixed, steps: nat)
    ensures
        ball.after_substeps(dt, steps).mass == ball.mass,
        ball.after_substeps(dt, steps).radius == ball.radius,
        ball.after_substeps(dt, steps).vel == ball.vel,
    decreases steps,
{
    if steps > 0 {
        lemma_substeps_keep_shape(ball, dt, (steps - 1) as nat);
    }
}

/// The first part of a tick changes neither the mass nor the radius of a
/// ball.
pub proof fn lemma_motion_keeps_wf(ball: Ball, config: Config, width: Fixed)
    ensures
        after_motion(ball, config, width).mass == ball.mass,
        after_motion(ball, config, width).radius == ball.radius,
{
    lemma_substeps_keep_shape(
        ball.after_velocity(config.gravity),
        config.dt,
        config.iterations as nat,
    );
}

/// With fewer than two balls the pairwise pass moves nothing: a tick is
/// then the first part alone.
pub proof fn lemma_lonely_tick(balls: Seq<Ball>, config: Config, width: Fixed)
    requires
        balls.len() <= 1,
    ensures
        after_tick(balls, config, width) == moved(balls, config, width),
{
    let m = moved(balls, config, width);
    lemma_lonely_pass_is_empty(m, config);
    assert(after_tick(balls, config, width) =~= m);
}

/// A ball at rest stays where it is through any number of moves.
pub proof fn lemma_resting_ball_stays(ball: Ball, dt: Fixed, steps: nat)
    requires
        ball.vel == Vec2::zero(),
    ensures
        ball.after_substeps(dt, steps) == ball,
    decreases steps,
{
    if steps > 0 {
        lemma_resting_ball_stays(ball, dt, (steps - 1) as nat);
        assert(0 * dt@ == 0) by (nonlinear_arith);
        assert(ball.vel.scale(dt) == Vec2::zero());
    }
}

/// In a world without gravity, a tick does to a single ball at rest what
/// the wall constraint does, and a second tick then changes nothing. Where
/// the walls are at least two radii apart, the ball lies within them after
/// the first tick.
pub proof fn lemma_resting_tick_settles(ball: Ball, config: Config, width: Fixed)
    requires
        ball.vel == Vec2::zero(),
        config.gravity == Vec2::zero(),
        within_wall_limit(ball.pos.x),
        within_wall_limit(ball.pos.y),
        within_wall_limit(ball.radius),
        within_wall_limit(width),
    ensures
        after_tick(seq![ball], config, width) == seq![ball.after_walls(width)],
        after_tick(after_tick(seq![ball], config, width), config, width) == after_tick(
            seq![ball],
            config,
            width,
        ),
        ball.after_walls(width).pos.y@ - ball.radius@ >= 0,
        2 * ball.radius@ <= width@ ==> ball.after_walls(width).pos.x@ - ball.radius@ >= 0
            && ball.after_walls(width).pos.x@ + ball.radius@ <= width@,
{
    let settled = ball.after_walls(width);
    let once = after_tick(seq![ball], config, width);
    lemma_lonely_tick(seq![ball], config, width);
    lemma_resting_ball_stays(ball.after_velocity(config.gravity), config.dt, config.iterations as nat);
    assert(ball.after_velocity(config.gravity) == ball);
    assert(once =~= seq![settled]);
    lemma_walls_idempotent(ball, width);
    assert(settled.vel == Vec2::zero());
    lemma_lonely_tick(once, config, width);
    lemma_resting_ball_stays(
        settled.after_velocity(config.gravity),
        config.dt,
        config.iterations as nat,
    );
    assert(settled.after_velocity(config.gravity) == settled);
    assert(after_tick(once, config, width) =~= seq![settled]);
}

} // verus!
