//! Vectors in the plane with fixed-point components.

use vstd::prelude::*;
use crate::fixed::{clamp, Fixed, MAX_RAW};
use crate::sqrt::{floor_sqrt, isqrt};

verus! {

/// Raw value of the length of the vector with raw components `x` and `y`:
/// the integer square root of the sum of squares, clamped.
pub open spec fn length_raw(x: int, y: int) -> int {
    clamp(floor_sqrt(x * x + y * y))
}

/// A vector in the plane.
#[derive(Clone, Copy, Debug, PartialEq, Eq, Structural)]
pub struct Vec2 {
    pub x: Fixed,
    pub y: Fixed,
}

fn magnitude(raw: i64) -> (m: u128)
    ensures
        m == if raw >= 0 { raw as int } else { -(raw as int) },
        m * m == raw * raw,
        m <= 0x8000_0000_0000_0000,
{
    let wide: i128 = raw as i128;
    let m: u128 = if wide >= 0 {
        wide as u128
    } else {
        (-wide) as u128
    };
    assert(m * m == raw * raw) by (nonlinear_arith)
        requires
            m == raw || m == -raw,
    ;
    m
}

impl Vec2 {
    pub open spec fn spec_plus(self, other: Vec2) -> Vec2 {
        Vec2 { x: self.x.plus(other.x), y: self.y.plus(other.y) }
    }

    pub open spec fn spec_minus(self, other: Vec2) -> Vec2 {
        Vec2 { x: self.x.minus(other.x), y: self.y.minus(other.y) }
    }

    pub open spec fn spec_neg(self) -> Vec2 {
        Vec2 { x: self.x.neg(), y: self.y.neg() }
    }

    pub open spec fn spec_scale(self, factor: Fixed) -> Vec2 {
        Vec2 { x: self.x.times(factor), y: self.y.times(factor) }
    }

    pub open spec fn spec_div(self, divisor: Fixed) -> Vec2 {
        Vec2 { x: self.x.over(divisor), y: self.y.over(divisor) }
    }

    pub open spec fn spec_dot(self, other: Vec2) -> Fixed {
        self.x.times(other.x).plus(self.y.times(other.y))
    }

    pub open spec fn spec_length(self) -> Fixed {
        Fixed::of(length_raw(self.x@, self.y@))
    }

    /// The zero vector.
    pub open spec fn spec_zero() -> Vec2 {
        Vec2 { x: Fixed::of(0), y: Fixed::of(0) }
    }

    /// The vector with the given components.
    pub fn new(x: Fixed, y: Fixed) -> (r: Vec2)
        ensures
            r == (Vec2 { x, y }),
    {
        Vec2 { x, y }
    }

    /// The zero vector.
    #[verifier::when_used_as_spec(spec_zero)]
    pub fn zero() -> (r: Vec2)
        ensures
            r == Vec2::spec_zero(),
    {
        Vec2 { x: Fixed::zero(), y: Fixed::zero() }
    }

    /// The sum, component by component.
    #[verifier::when_used_as_spec(spec_plus)]
    pub fn plus(self, other: Vec2) -> (r: Vec2)
        ensures
            r == self.spec_plus(other),
    {
        Vec2 { x: self.x.plus(other.x), y: self.y.plus(other.y) }
    }

    /// The difference, component by component.
    #[verifier::when_used_as_spec(spec_minus)]
    pub fn minus(self, other: Vec2) -> (r: Vec2)
        ensures
            r == self.spec_minus(other),
    {
        Vec2 { x: self.x.minus(other.x), y: self.y.minus(other.y) }
    }

    /// The opposite vector.
    #[verifier::when_used_as_spec(spec_neg)]
    pub fn neg(self) -> (r: Vec2)
        ensures
            r == self.spec_neg(),
    {
        Vec2 { x: self.x.neg(), y: self.y.neg() }
    }

    /// Each component multiplied by `factor`.
    #[verifier::when_used_as_spec(spec_scale)]
    pub fn scale(self, factor: Fixed) -> (r: Vec2)
        ensures
            r == self.spec_scale(factor),
    {
        Vec2 { x: self.x.times(factor), y: self.y.times(factor) }
    }

    /// Each component divided by `divisor`.
    #[verifier::when_used_as_spec(spec_div)]
    pub fn div(self, divisor: Fixed) -> (r: Vec2)
        requires
            divisor@ != 0,
        ensures
            r == self.spec_div(divisor),
    {
        Vec2 { x: self.x.over(divisor), y: self.y.over(divisor) }
    }

    /// The dot product: the clamped sum of the two component products.
    #[verifier::when_used_as_spec(spec_dot)]
    pub fn dot(self, other: Vec2) -> (r: Fixed)
        ensures
            r == self.spec_dot(other),
    {
        self.x.times(other.x).plus(self.y.times(other.y))
    }

    /// The Euclidean length, rounded down to a raw unit and clamped.
    #[verifier::when_used_as_spec(spec_length)]
    pub fn length(self) -> (r: Fixed)
        ensures
            r == self.spec_length(),
            r@ == length_raw(self.x@, self.y@),
            r@ >= 0,
    {
        let mx: u128 = magnitude(self.x.raw);
        let my: u128 = magnitude(self.y.raw);
        proof {
            crate::sqrt::lemma_square_monotonic(mx as int, 0x8000_0000_0000_0000);
            crate::sqrt::lemma_square_monotonic(my as int, 0x8000_0000_0000_0000);
            assert(0x8000_0000_0000_0000int * 0x8000_0000_0000_0000int
                == 0x4000_0000_0000_0000_0000_0000_0000_0000int) by (nonlinear_arith);
        }
        let squares: u128 = mx * mx + my * my;
        let root: u64 = isqrt(squares);
        if root > MAX_RAW as u64 {
            Fixed { raw: MAX_RAW }
        } else {
            Fixed { raw: root as i64 }
        }
    }
}

} // verus!
