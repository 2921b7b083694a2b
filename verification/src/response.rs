//! The pairwise pass over all balls: every ordered pair of distinct balls
//! is tested for overlap, and what the overlaps call for is summed up per
//! ball, to be applied only when the pass is over.

use vstd::prelude::*;
use crate::ball::Ball;
use crate::collision::{contact, impulses, spec_contact, spec_impulses};
use crate::broad_phase::{chain_pass, radii_fit, range_pass};
use crate::config::{Config, Strategy};
use crate::vec2::Vec2;

verus! {

/// What a pass has summed up, one entry for each ball.
pub struct Buffers {
    /// The displacement that each ball is to receive.
    pub displacements: Seq<Vec2>,
    /// The change of velocity that each ball is to receive.
    pub velocities: Seq<Vec2>,
}

/// Buffers of `n` zero entries.
pub open spec fn empty_buffers(n: nat) -> Buffers {
    Buffers {
        displacements: Seq::new(n, |k: int| Vec2::zero()),
        velocities: Seq::new(n, |k: int| Vec2::zero()),
    }
}

/// The overlap of ball `i` with ball `j`, none for a ball with itself.
pub open spec fn pair_contact(balls: Seq<Ball>, config: Config, i: int, j: int) -> Option<
    crate::collision::Contact,
> {
    if i == j {
        None
    } else {
        spec_contact(balls[i].pos, balls[i].radius, balls[j].pos, balls[j].radius, config.epsilon)
    }
}

/// `acc` after the pair of ball `i` and ball `j` has been visited: where
/// the two overlap, ball `i` receives the first and ball `j` the second of
/// the corrections and of the changes of velocity.
pub open spec fn visit_pair(balls: Seq<Ball>, config: Config, acc: Buffers, i: int, j: int) -> Buffers {
    match pair_contact(balls, config, i, j) {
        None => acc,
        Some(found) => {
            let moves = found.corrections(config.correction);
            let changes = spec_impulses(
                found,
                balls[i].vel,
                balls[i].mass,
                balls[j].vel,
                balls[j].mass,
                config.elasticity,
                config.damping,
            );
            let d = acc.displacements.update(i, acc.displacements[i].plus(moves.0));
            let v = acc.velocities.update(i, acc.velocities[i].plus(changes.0));
            Buffers {
                displacements: d.update(j, d[j].plus(moves.1)),
                velocities: v.update(j, v[j].plus(changes.1)),
            }
        },
    }
}

/// `acc` after ball `i` has been paired with the balls `0` to `j - 1`.
pub open spec fn visit_row(balls: Seq<Ball>, config: Config, acc: Buffers, i: int, j: nat) -> Buffers
    decreases j,
{
    if j == 0 {
        acc
    } else {
        visit_pair(balls, config, visit_row(balls, config, acc, i, (j - 1) as nat), i, j - 1)
    }
}

/// The buffers after each of the balls `0` to `i - 1` has been paired with
/// every ball.
pub open spec fn visit_rows(balls: Seq<Ball>, config: Config, i: nat) -> Buffers
    decreases i,
{
    if i == 0 {
        empty_buffers(balls.len())
    } else {
        visit_row(balls, config, visit_rows(balls, config, (i - 1) as nat), i - 1, balls.len())
    }
}

/// The buffers after the whole pass.
pub open spec fn spec_responses(balls: Seq<Ball>, config: Config) -> Buffers {
    visit_rows(balls, config, balls.len())
}

/// Visits the pair of ball `i` and ball `j`.
pub fn visit(
    balls: &Vec<Ball>,
    config: &Config,
    displacements: &mut Vec<Vec2>,
    velocities: &mut Vec<Vec2>,
    i: usize,
    j: usize,
)
    requires
        config.wf(),
        i < balls.len(),
        j < balls.len(),
        balls@[i as int].wf(),
        balls@[j as int].wf(),
        old(displacements).len() == balls.len(),
        old(velocities).len() == balls.len(),
    ensures
        final(displacements).len() == balls.len(),
        final(velocities).len() == balls.len(),
        (Buffers { displacements: final(displacements)@, velocities: final(velocities)@ })
            == visit_pair(
            balls@,
            *config,
            Buffers { displacements: old(displacements)@, velocities: old(velocities)@ },
            i as int,
            j as int,
        ),
{
    if i != j {
        let a: Ball = balls[i];
        let b: Ball = balls[j];
        match contact(a.pos, a.radius, b.pos, b.radius, config.epsilon) {
            Some(found) => {
                let moves = found.corrections(config.correction);
                let changes = impulses(
                    found,
                    a.vel,
                    a.mass,
                    b.vel,
                    b.mass,
                    config.elasticity,
                    config.damping,
                );
                let first: Vec2 = displacements[i].plus(moves.0);
                displacements.set(i, first);
                let second: Vec2 = displacements[j].plus(moves.1);
                displacements.set(j, second);
                let third: Vec2 = velocities[i].plus(changes.0);
                velocities.set(i, third);
                let fourth: Vec2 = velocities[j].plus(changes.1);
                velocities.set(j, fourth);
            },
            None => {},
        }
    }
}

/// Buffers of one zero entry for each of `n` balls.
pub fn zero_buffers(n: usize) -> (out: (Vec<Vec2>, Vec<Vec2>))
    ensures
        (Buffers { displacements: out.0@, velocities: out.1@ }) == empty_buffers(n as nat),
        out.0.len() == n,
        out.1.len() == n,
{
    let mut displacements: Vec<Vec2> = Vec::new();
    let mut velocities: Vec<Vec2> = Vec::new();
    let mut k: usize = 0;
    while k < n
        invariant
            k <= n,
            displacements@ == Seq::new(k as nat, |q: int| Vec2::zero()),
            velocities@ == Seq::new(k as nat, |q: int| Vec2::zero()),
        decreases n - k,
    {
        displacements.push(Vec2::zero());
        velocities.push(Vec2::zero());
        k += 1;
    }
    (displacements, velocities)
}

/// The pairwise pass, made in the way that the configuration names: the
/// displacement and the change of velocity that each ball is to receive.
/// Where the neighbour radius is smaller than the sum of two radii, the
/// indexes could miss an overlap, and every pair is tested.
pub fn responses(balls: &Vec<Ball>, config: &Config) -> (out: (Vec<Vec2>, Vec<Vec2>))
    requires
        config.wf(),
        forall|k: int| 0 <= k < balls.len() ==> (#[trigger] balls@[k]).wf(),
    ensures
        out.0@ == spec_responses(balls@, *config).displacements,
        out.1@ == spec_responses(balls@, *config).velocities,
        out.0.len() == balls.len(),
        out.1.len() == balls.len(),
{
    match config.strategy {
        Strategy::Exhaustive => exhaustive_pass(balls, config),
        Strategy::AxisRange => {
            if radii_fit(balls, config.neighbor_radius) {
                range_pass(balls, config)
            } else {
                exhaustive_pass(balls, config)
            }
        },
        Strategy::ChainIntersection => {
            if radii_fit(balls, config.neighbor_radius) {
                chain_pass(balls, config)
            } else {
                exhaustive_pass(balls, config)
            }
        },
    }
}

/// The pass over all ordered pairs of distinct balls.
pub fn exhaustive_pass(balls: &Vec<Ball>, config: &Config) -> (out: (Vec<Vec2>, Vec<Vec2>))
    requires
        config.wf(),
        forall|k: int| 0 <= k < balls.len() ==> (#[trigger] balls@[k]).wf(),
    ensures
        out.0@ == spec_responses(balls@, *config).displacements,
        out.1@ == spec_responses(balls@, *config).velocities,
        out.0.len() == balls.len(),
        out.1.len() == balls.len(),
{
    let n: usize = balls.len();
    let buffers = zero_buffers(n);
    let mut displacements = buffers.0;
    let mut velocities = buffers.1;
    let mut i: usize = 0;
    while i < n
        invariant
            i <= n,
            n == balls.len(),
            config.wf(),
            forall|k: int| 0 <= k < balls.len() ==> (#[trigger] balls@[k]).wf(),
            displacements.len() == n,
            velocities.len() == n,
            (Buffers { displacements: displacements@, velocities: velocities@ }) == visit_rows(
                balls@,
                *config,
                i as nat,
            ),
        decreases n - i,
    {
        let mut j: usize = 0;
        while j < n
            invariant
                i < n,
                j <= n,
                n == balls.len(),
                config.wf(),
                forall|k: int| 0 <= k < balls.len() ==> (#[trigger] balls@[k]).wf(),
                displacements.len() == n,
                velocities.len() == n,
                (Buffers { displacements: displacements@, velocities: velocities@ }) == visit_row(
                    balls@,
                    *config,
                    visit_rows(balls@, *config, i as nat),
                    i as int,
                    j as nat,
                ),
            decreases n - j,
        {
            visit(balls, config, &mut displacements, &mut velocities, i, j);
            j += 1;
        }
        i += 1;
    }
    (displacements, velocities)
}

/// With fewer than two balls the pass finds no pair and leaves every entry
/// zero.
pub proof fn lemma_lonely_pass_is_empty(balls: Seq<Ball>, config: Config)
    requires
        balls.len() <= 1,
    ensures
        spec_responses(balls, config) == empty_buffers(balls.len()),
{
    if balls.len() == 1 {
        let start = visit_rows(balls, config, 0);
        assert(start == empty_buffers(1));
        assert(visit_row(balls, config, start, 0, 0) == start);
        assert(pair_contact(balls, config, 0, 0).is_none());
        assert(visit_row(balls, config, start, 0, 1) == visit_pair(
            balls,
            config,
            visit_row(balls, config, start, 0, 0),
            0,
            0,
        ));
        assert(visit_rows(balls, config, 1) == visit_row(balls, config, start, 0, 1));
    }
}

} // verus!
