//! The response to two overlapping circles: how deep they overlap and along
//! which direction, how far each is moved apart, and how their velocities
//! change.

use vstd::prelude::*;
use crate::fixed::{abs_diff, Fixed, ONE_RAW};
use crate::vec2::Vec2;

verus! {

/// An overlap of two circles.
#[derive(Clone, Copy, Debug, PartialEq, Eq, Structural)]
pub struct Contact {
    /// The direction from the second centre to the first: their difference
    /// divided by the guarded distance, so of length at most one.
    pub normal: Vec2,
    /// How deep the circles overlap; positive.
    pub penetration: Fixed,
}

/// The overlap of the circle at `pos_a` with the circle at `pos_b`: the
/// distance of the centres plus `epsilon` is taken from the sum of the radii;
/// where that leaves nothing, the circles do not overlap.
pub open spec fn spec_contact(
    pos_a: Vec2,
    radius_a: Fixed,
    pos_b: Vec2,
    radius_b: Fixed,
    epsilon: Fixed,
) -> Option<Contact> {
    let delta = pos_a.minus(pos_b);
    let distance = delta.length().plus(epsilon);
    let penetration = radius_a.plus(radius_b).minus(distance);
    if penetration@ > 0 {
        Some(Contact { normal: delta.div(distance), penetration })
    } else {
        None
    }
}

/// The velocities along the normal after a collision of masses `m1`, `m2`
/// that approach with `v1`, `v2` along it, with restitution `e`:
/// `(m1 v1 + m2 v2 - m2 (v1 - v2) e) / (m1 + m2)` for the first and
/// `(m1 v1 + m2 v2 - m1 (v2 - v1) e) / (m1 + m2)` for the second.
pub open spec fn spec_rebound(m1: Fixed, v1: Fixed, m2: Fixed, v2: Fixed, e: Fixed) -> (
    Fixed,
    Fixed,
) {
    let momentum = m1.times(v1).plus(m2.times(v2));
    let total = m1.plus(m2);
    let first = m2.times(v1.minus(v2)).times(e);
    let second = m1.times(v2.minus(v1)).times(e);
    (momentum.minus(first).over(total), momentum.minus(second).over(total))
}

/// The changes of velocity of the two bodies of a contact: along the normal,
/// by the damped difference between the rebound and the approach.
pub open spec fn spec_impulses(
    contact: Contact,
    vel_a: Vec2,
    mass_a: Fixed,
    vel_b: Vec2,
    mass_b: Fixed,
    elasticity: Fixed,
    damping: Fixed,
) -> (Vec2, Vec2) {
    let v1 = vel_a.dot(contact.normal);
    let v2 = vel_b.dot(contact.normal);
    let after = spec_rebound(mass_a, v1, mass_b, v2, elasticity);
    (
        contact.normal.scale(after.0.minus(v1)).scale(damping),
        contact.normal.scale(after.1.minus(v2)).scale(damping),
    )
}

impl Contact {
    pub open spec fn spec_corrections(self, share: Fixed) -> (Vec2, Vec2) {
        let first = self.normal.scale(self.penetration).scale(share);
        (first, first.neg())
    }

    /// The displacements of the two bodies: the first along the normal by
    /// `share` of the penetration, the second by the opposite.
    #[verifier::when_used_as_spec(spec_corrections)]
    pub fn corrections(self, share: Fixed) -> (moves: (Vec2, Vec2))
        ensures
            moves == self.spec_corrections(share),
            moves.0 == self.normal.scale(self.penetration).scale(share),
            moves.1 == moves.0.neg(),
    {
        let first = self.normal.scale(self.penetration).scale(share);
        (first, first.neg())
    }
}

/// The overlap of two circles, if they overlap.
pub fn contact(pos_a: Vec2, radius_a: Fixed, pos_b: Vec2, radius_b: Fixed, epsilon: Fixed) -> (c:
    Option<Contact>)
    requires
        epsilon@ > 0,
    ensures
        c == spec_contact(pos_a, radius_a, pos_b, radius_b, epsilon),
        c matches Some(found) ==> found.penetration@ > 0,
{
    let delta = pos_a.minus(pos_b);
    let distance = delta.length().plus(epsilon);
    let penetration = radius_a.plus(radius_b).minus(distance);
    if penetration.raw > 0 {
        Some(Contact { normal: delta.div(distance), penetration })
    } else {
        None
    }
}

/// The velocities along the normal after a collision.
pub fn rebound(m1: Fixed, v1: Fixed, m2: Fixed, v2: Fixed, e: Fixed) -> (after: (Fixed, Fixed))
    requires
        m1@ > 0,
        m2@ > 0,
    ensures
        after == spec_rebound(m1, v1, m2, v2, e),
{
    let momentum = m1.times(v1).plus(m2.times(v2));
    let total = m1.plus(m2);
    let first = m2.times(v1.minus(v2)).times(e);
    let second = m1.times(v2.minus(v1)).times(e);
    (momentum.minus(first).over(total), momentum.minus(second).over(total))
}

/// The changes of velocity of the two bodies of a contact.
pub fn impulses(
    contact: Contact,
    vel_a: Vec2,
    mass_a: Fixed,
    vel_b: Vec2,
    mass_b: Fixed,
    elasticity: Fixed,
    damping: Fixed,
) -> (changes: (Vec2, Vec2))
    requires
        mass_a@ > 0,
        mass_b@ > 0,
    ensures
        changes == spec_impulses(contact, vel_a, mass_a, vel_b, mass_b, elasticity, damping),
{
    let v1 = vel_a.dot(contact.normal);
    let v2 = vel_b.dot(contact.normal);
    let after = rebound(mass_a, v1, mass_b, v2, elasticity);
    (
        contact.normal.scale(after.0.minus(v1)).scale(damping),
        contact.normal.scale(after.1.minus(v2)).scale(damping),
    )
}

/// Two circles overlap only where their centres are nearer to each other on
/// each axis than the sum of their radii.
pub proof fn lemma_contact_needs_nearness(
    pos_a: Vec2,
    radius_a: Fixed,
    pos_b: Vec2,
    radius_b: Fixed,
    epsilon: Fixed,
)
    requires
        epsilon@ > 0,
        spec_contact(pos_a, radius_a, pos_b, radius_b, epsilon).is_some(),
    ensures
        abs_diff(pos_a.x@, pos_b.x@) < radius_a.plus(radius_b)@,
        abs_diff(pos_a.y@, pos_b.y@) < radius_a.plus(radius_b)@,
{
    let delta = pos_a.minus(pos_b);
    crate::sqrt::lemma_floor_sqrt_of_squares(delta.x@, delta.y@);
}

/// Without restitution the two bodies leave with the same velocity along
/// the normal.
pub proof fn lemma_inelastic_rebound_is_shared(m1: Fixed, v1: Fixed, m2: Fixed, v2: Fixed)
    ensures
        spec_rebound(m1, v1, m2, v2, Fixed::of(0)).0 == spec_rebound(
            m1,
            v1,
            m2,
            v2,
            Fixed::of(0),
        ).1,
{
    let zero = Fixed::of(0);
    let a = m2.times(v1.minus(v2));
    let b = m1.times(v2.minus(v1));
    assert(a@ * 0 == 0 && b@ * 0 == 0) by (nonlinear_arith);
    assert(a.times(zero) == zero);
    assert(b.times(zero) == zero);
}

/// The largest magnitude of a velocity for which the rebound of two unit
/// masses never reaches the ends of the number range.
pub const REBOUND_LIMIT: i64 = 0x1000_0000_0000_0000;

/// With full restitution two bodies of mass one exchange their velocities
/// along the normal.
pub proof fn lemma_elastic_unit_masses_swap(v1: Fixed, v2: Fixed)
    requires
        -REBOUND_LIMIT <= v1@ <= REBOUND_LIMIT,
        -REBOUND_LIMIT <= v2@ <= REBOUND_LIMIT,
    ensures
        spec_rebound(Fixed::of(ONE_RAW as int), v1, Fixed::of(ONE_RAW as int), v2, Fixed::of(
            ONE_RAW as int,
        )) == (v2, v1),
{
    let one = Fixed::of(ONE_RAW as int);
    assert forall|v: Fixed| (#[trigger] one.times(v)) == v && v.times(one) == v by {
        lemma_times_one(v);
    }
    let momentum = one.times(v1).plus(one.times(v2));
    let total = one.plus(one);
    assert(momentum@ == v1@ + v2@);
    assert(total@ == 2 * ONE_RAW);
    let first = one.times(v1.minus(v2)).times(one);
    let second = one.times(v2.minus(v1)).times(one);
    assert(first@ == v1@ - v2@);
    assert(second@ == v2@ - v1@);
    lemma_double_over_two(v2);
    lemma_double_over_two(v1);
}

/// Multiplying by one changes nothing.
pub proof fn lemma_times_one(v: Fixed)
    ensures
        Fixed::of(ONE_RAW as int).times(v) == v,
        v.times(Fixed::of(ONE_RAW as int)) == v,
{
    let x = v@;
    assert(0x1_0000_0000 * x == x * 0x1_0000_0000);
    assert((x * 0x1_0000_0000) / 0x1_0000_0000 == x);
    assert(((-x) * 0x1_0000_0000) / 0x1_0000_0000 == -x);
    assert(-(x * 0x1_0000_0000) == (-x) * 0x1_0000_0000);
}

/// Twice a number divided by two is that number.
proof fn lemma_double_over_two(v: Fixed)
    requires
        -REBOUND_LIMIT <= v@ <= REBOUND_LIMIT,
    ensures
        Fixed::of(2 * v@).over(Fixed::of(2 * ONE_RAW)) == v,
{
    let x = v@;
    let n = (2 * x) * 0x1_0000_0000;
    assert(n == x * 0x2_0000_0000);
    assert((x * 0x2_0000_0000) / 0x2_0000_0000 == x);
    assert(((-x) * 0x2_0000_0000) / 0x2_0000_0000 == -x);
    assert(-(x * 0x2_0000_0000) == (-x) * 0x2_0000_0000);
}

} // verus!
