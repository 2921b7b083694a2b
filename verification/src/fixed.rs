//! Signed fixed-point scalars with 32 fractional bits and saturating arithmetic.
//!
//! A [`Fixed`] stores the integer `raw`; the number it stands for is
//! `raw / 2^32`. Every operation is total: a result that does not fit is
//! clamped to the nearest representable value, and quotients are rounded
//! toward zero.

use vstd::prelude::*;

verus! {

/// The raw value of the number one.
pub const ONE_RAW: i64 = 0x1_0000_0000;

/// The largest raw value.
pub const MAX_RAW: i64 = 0x7fff_ffff_ffff_ffff;

/// The smallest raw value.
pub const MIN_RAW: i64 = -0x8000_0000_0000_0000;

/// `v` moved to the nearest value in the raw range.
pub open spec fn clamp(v: int) -> int {
    if v < MIN_RAW {
        MIN_RAW as int
    } else if v > MAX_RAW {
        MAX_RAW as int
    } else {
        v
    }
}

/// The quotient of `n` by `d`, rounded toward zero (`d` is not zero).
pub open spec fn trunc_div(n: int, d: int) -> int {
    if n >= 0 {
        n / d
    } else {
        -((-n) / d)
    }
}

/// The distance between two integers.
pub open spec fn abs_diff(a: int, b: int) -> int {
    if a >= b {
        a - b
    } else {
        b - a
    }
}

/// Raw value of a saturating sum.
pub open spec fn sat_add(a: int, b: int) -> int {
    clamp(a + b)
}

/// Raw value of a saturating difference.
pub open spec fn sat_sub(a: int, b: int) -> int {
    clamp(a - b)
}

/// Raw value of a saturating negation.
pub open spec fn sat_neg(a: int) -> int {
    clamp(-a)
}

/// Raw value of a saturating absolute value.
pub open spec fn sat_abs(a: int) -> int {
    if a >= 0 {
        a
    } else {
        clamp(-a)
    }
}

/// Raw value of a saturating fixed-point product.
pub open spec fn sat_mul(a: int, b: int) -> int {
    clamp(trunc_div(a * b, ONE_RAW as int))
}

/// Raw value of a saturating fixed-point quotient (`b` is not zero).
pub open spec fn sat_div(a: int, b: int) -> int {
    clamp(trunc_div(a * ONE_RAW, b))
}

/// A fixed-point number; it stands for `raw / 2^32`.
#[derive(Clone, Copy, Debug, PartialEq, Eq, Structural)]
pub struct Fixed {
    /// The number times 2^32.
    pub raw: i64,
}

impl View for Fixed {
    type V = int;

    open spec fn view(&self) -> int {
        self.raw as int
    }
}

/// The product of two raw values lies within the 128-bit range.
pub proof fn lemma_raw_product_bounds(a: int, b: int)
    requires
        MIN_RAW <= a <= MAX_RAW,
        MIN_RAW <= b <= MAX_RAW,
    ensures
        -0x4000_0000_0000_0000_0000_0000_0000_0000 <= a * b
            <= 0x4000_0000_0000_0000_0000_0000_0000_0000,
{
    assert(-0x4000_0000_0000_0000_0000_0000_0000_0000 <= a * b
        <= 0x4000_0000_0000_0000_0000_0000_0000_0000) by (nonlinear_arith)
        requires
            -0x8000_0000_0000_0000 <= a <= 0x8000_0000_0000_0000,
            -0x8000_0000_0000_0000 <= b <= 0x8000_0000_0000_0000,
    ;
}

/// A quotient rounded toward zero is no larger in magnitude than the dividend.
pub proof fn lemma_trunc_div_bounds(n: int, d: int)
    requires
        d != 0,
    ensures
        n >= 0 ==> -n <= n / d <= n,
        n < 0 ==> n <= (-n) / d <= -n,
        n >= 0 ==> -n <= trunc_div(n, d) <= n,
        n < 0 ==> n <= trunc_div(n, d) <= -n,
{
    if n >= 0 {
        assert(-n <= n / d <= n) by (nonlinear_arith)
            requires
                n >= 0,
                d != 0,
        ;
    } else {
        let m = -n;
        assert(-m <= m / d <= m) by (nonlinear_arith)
            requires
                m >= 0,
                d != 0,
        ;
    }
}

fn clamp_wide(v: i128) -> (r: i64)
    ensures
        r == clamp(v as int),
{
    if v < MIN_RAW as i128 {
        MIN_RAW
    } else if v > MAX_RAW as i128 {
        MAX_RAW
    } else {
        v as i64
    }
}

impl Fixed {
    /// The number with the given raw value.
    pub open spec fn of(raw: int) -> Fixed {
        Fixed { raw: raw as i64 }
    }

    pub open spec fn spec_plus(self, other: Fixed) -> Fixed {
        Fixed::of(sat_add(self@, other@))
    }

    pub open spec fn spec_minus(self, other: Fixed) -> Fixed {
        Fixed::of(sat_sub(self@, other@))
    }

    pub open spec fn spec_neg(self) -> Fixed {
        Fixed::of(sat_neg(self@))
    }

    pub open spec fn spec_abs(self) -> Fixed {
        Fixed::of(sat_abs(self@))
    }

    pub open spec fn spec_times(self, other: Fixed) -> Fixed {
        Fixed::of(sat_mul(self@, other@))
    }

    pub open spec fn spec_over(self, other: Fixed) -> Fixed {
        Fixed::of(sat_div(self@, other@))
    }

    /// The number with raw value `raw`.
    pub fn from_raw(raw: i64) -> (r: Fixed)
        ensures
            r@ == raw,
    {
        Fixed { raw }
    }

    /// The whole number `n`.
    pub fn from_int(n: i32) -> (r: Fixed)
        ensures
            r@ == n * ONE_RAW,
    {
        let wide: i64 = n as i64;
        Fixed { raw: wide * ONE_RAW }
    }

    /// Zero.
    pub fn zero() -> (r: Fixed)
        ensures
            r@ == 0,
    {
        Fixed { raw: 0 }
    }

    /// One.
    pub fn one() -> (r: Fixed)
        ensures
            r@ == ONE_RAW,
    {
        Fixed { raw: ONE_RAW }
    }

    /// The sum, clamped to the representable range.
    #[verifier::when_used_as_spec(spec_plus)]
    pub fn plus(self, other: Fixed) -> (r: Fixed)
        ensures
            r == self.spec_plus(other),
            r@ == sat_add(self@, other@),
    {
        let wide: i128 = self.raw as i128 + other.raw as i128;
        Fixed { raw: clamp_wide(wide) }
    }

    /// The difference, clamped to the representable range.
    #[verifier::when_used_as_spec(spec_minus)]
    pub fn minus(self, other: Fixed) -> (r: Fixed)
        ensures
            r == self.spec_minus(other),
            r@ == sat_sub(self@, other@),
    {
        let wide: i128 = self.raw as i128 - other.raw as i128;
        Fixed { raw: clamp_wide(wide) }
    }

    /// The negation; the smallest value negates to the largest.
    #[verifier::when_used_as_spec(spec_neg)]
    pub fn neg(self) -> (r: Fixed)
        ensures
            r == self.spec_neg(),
            r@ == sat_neg(self@),
    {
        let wide: i128 = -(self.raw as i128);
        Fixed { raw: clamp_wide(wide) }
    }

    /// The absolute value; that of the smallest value is the largest.
    #[verifier::when_used_as_spec(spec_abs)]
    pub fn abs(self) -> (r: Fixed)
        ensures
            r == self.spec_abs(),
            r@ == sat_abs(self@),
    {
        if self.raw >= 0 {
            self
        } else {
            self.neg()
        }
    }

    /// The product, rounded toward zero and clamped.
    #[verifier::when_used_as_spec(spec_times)]
    pub fn times(self, other: Fixed) -> (r: Fixed)
        ensures
            r == self.spec_times(other),
            r@ == sat_mul(self@, other@),
    {
        proof {
            lemma_raw_product_bounds(self@, other@);
        }
        let wide: i128 = (self.raw as i128) * (other.raw as i128);
        let quotient: i128 = wide / (ONE_RAW as i128);
        Fixed { raw: clamp_wide(quotient) }
    }

    /// The quotient, rounded toward zero and clamped.
    #[verifier::when_used_as_spec(spec_over)]
    pub fn over(self, other: Fixed) -> (r: Fixed)
        requires
            other@ != 0,
        ensures
            r == self.spec_over(other),
            r@ == sat_div(self@, other@),
    {
        proof {
            lemma_raw_product_bounds(self@, ONE_RAW as int);
        }
        let wide: i128 = (self.raw as i128) * (ONE_RAW as i128);
        proof {
            lemma_trunc_div_bounds(wide as int, other@);
        }
        let quotient: i128 = wide / (other.raw as i128);
        Fixed { raw: clamp_wide(quotient) }
    }

    /// Whether `self` and `other` differ by at most `radius`; the difference
    /// is taken exactly, without clamping.
    pub fn is_near(self, other: Fixed, radius: Fixed) -> (r: bool)
        ensures
            r == (abs_diff(self@, other@) <= radius@),
    {
        let d: i128 = self.raw as i128 - other.raw as i128;
        let m: i128 = if d < 0 {
            -d
        } else {
            d
        };
        m <= radius.raw as i128
    }

    /// Whether `self` is strictly below `other`.
    pub fn lt(self, other: Fixed) -> (r: bool)
        ensures
            r == (self@ < other@),
    {
        self.raw < other.raw
    }

    /// Whether `self` is at most `other`.
    pub fn le(self, other: Fixed) -> (r: bool)
        ensures
            r == (self@ <= other@),
    {
        self.raw <= other.raw
    }
}

} // verus!
