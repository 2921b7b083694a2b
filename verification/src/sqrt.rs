//! Integer square roots.

use vstd::prelude::*;

verus! {

/// Whether `r` is the largest integer whose square is at most `n`.
pub open spec fn is_floor_sqrt(n: int, r: int) -> bool {
    0 <= r && r * r <= n < (r + 1) * (r + 1)
}

/// The largest integer whose square is at most `n` (`n` is not negative).
pub open spec fn floor_sqrt(n: int) -> int {
    choose|r: int| is_floor_sqrt(n, r)
}

/// Squaring preserves the order of non-negative integers.
pub proof fn lemma_square_monotonic(a: int, b: int)
    requires
        0 <= a <= b,
    ensures
        a * a <= b * b,
{
    assert(a * a <= b * b) by (nonlinear_arith)
        requires
            0 <= a <= b,
    ;
}

/// A number has at most one integer square root.
pub proof fn lemma_floor_sqrt_unique(n: int, r1: int, r2: int)
    requires
        is_floor_sqrt(n, r1),
        is_floor_sqrt(n, r2),
    ensures
        r1 == r2,
{
    if r1 < r2 {
        lemma_square_monotonic(r1 + 1, r2);
    } else if r2 < r1 {
        lemma_square_monotonic(r2 + 1, r1);
    }
}

/// Every number that is not negative has an integer square root.
pub proof fn lemma_floor_sqrt_exists(n: int)
    requires
        n >= 0,
    ensures
        is_floor_sqrt(n, floor_sqrt(n)),
    decreases n,
{
    if n == 0 {
        assert(is_floor_sqrt(0, 0));
    } else {
        lemma_floor_sqrt_exists(n - 1);
        let r = floor_sqrt(n - 1);
        if (r + 1) * (r + 1) <= n {
            assert((r + 2) * (r + 2) > (r + 1) * (r + 1)) by (nonlinear_arith)
                requires
                    r >= 0,
            ;
            assert(is_floor_sqrt(n, r + 1));
        } else {
            assert(is_floor_sqrt(n, r));
        }
    }
}

/// The integer square root of a sum of two squares is at least the
/// magnitude of either number.
pub proof fn lemma_floor_sqrt_of_squares(x: int, y: int)
    ensures
        is_floor_sqrt(x * x + y * y, floor_sqrt(x * x + y * y)),
        x <= floor_sqrt(x * x + y * y),
        -x <= floor_sqrt(x * x + y * y),
        y <= floor_sqrt(x * x + y * y),
        -y <= floor_sqrt(x * x + y * y),
{
    assert(x * x >= 0 && y * y >= 0) by (nonlinear_arith);
    let sum = x * x + y * y;
    lemma_floor_sqrt_exists(sum);
    let r = floor_sqrt(sum);
    let mx = if x >= 0 { x } else { -x };
    let my = if y >= 0 { y } else { -y };
    assert(mx * mx == x * x && my * my == y * y) by (nonlinear_arith)
        requires
            mx == x || mx == -x,
            my == y || my == -y,
    ;
    if r < mx {
        lemma_square_monotonic(r + 1, mx);
    }
    if r < my {
        lemma_square_monotonic(r + 1, my);
    }
}

/// Any integer that passes `is_floor_sqrt` is the value of `floor_sqrt`.
pub proof fn lemma_floor_sqrt_is(n: int, r: int)
    requires
        is_floor_sqrt(n, r),
    ensures
        floor_sqrt(n) == r,
{
    lemma_floor_sqrt_unique(n, r, floor_sqrt(n));
}

/// The integer square root of `n`, found by bisection.
pub fn isqrt(n: u128) -> (r: u64)
    ensures
        is_floor_sqrt(n as int, r as int),
        r == floor_sqrt(n as int),
{
    let mut lo: u128 = 0;
    let mut hi: u128 = 0x1_0000_0000_0000_0000;
    assert(0 * 0 == 0 && 0x1_0000_0000_0000_0000int * 0x1_0000_0000_0000_0000int
        == 0x1_0000_0000_0000_0000_0000_0000_0000_0000int) by (nonlinear_arith);
    while hi - lo > 1
        invariant
            lo < hi <= 0x1_0000_0000_0000_0000,
            lo * lo <= n < hi * hi,
        decreases hi - lo,
    {
        let mid: u128 = lo + (hi - lo) / 2;
        proof {
            lemma_square_monotonic(mid as int, 0xffff_ffff_ffff_ffff);
            assert(0xffff_ffff_ffff_ffffint * 0xffff_ffff_ffff_ffffint
                == 0xffff_ffff_ffff_fffe_0000_0000_0000_0001int) by (nonlinear_arith);
        }
        if mid * mid <= n {
            lo = mid;
        } else {
            hi = mid;
        }
    }
    proof {
        lemma_floor_sqrt_is(n as int, lo as int);
    }
    lo as u64
}

} // verus!
