//! How far the response to a collision is from keeping the momentum.
//!
//! In exact arithmetic the two changes of velocity of a pair carry opposite
//! momenta. Here every product and quotient is rounded toward zero, so
//! the momenta are opposite only up to a bound, which this module proves.

use vstd::prelude::*;
use crate::ball::Ball;
use crate::collision::{spec_contact, spec_impulses, spec_rebound, Contact};
use crate::config::Config;
use crate::response::{
    empty_buffers, pair_contact, spec_responses, visit_pair, visit_row, visit_rows,
};
use crate::world::resolved;
use crate::vec2::Vec2;
use crate::fixed::{trunc_div, Fixed, ONE_RAW};

verus! {

/// What a quotient rounded toward zero leaves out is smaller than the
/// divisor.
pub proof fn lemma_trunc_error(n: int, d: int)
    requires
        d > 0,
    ensures
        -d < n - trunc_div(n, d) * d < d,
{
    if n >= 0 {
        assert(0 <= n - (n / d) * d < d) by (nonlinear_arith)
            requires
                n >= 0,
                d > 0,
        ;
    } else {
        let m = -n;
        assert(0 <= m - (m / d) * d < d) by (nonlinear_arith)
            requires
                m >= 0,
                d > 0,
        ;
        assert((-(m / d)) * d == -((m / d) * d)) by (nonlinear_arith);
    }
}

/// The products of the masses with the two losses of a rebound cancel up
/// to twice the total mass.
proof fn lemma_losses_cancel(m1: int, m2: int, d: int, e: int, b1: int, b2: int, f1: int, f2: int)
    requires
        m1 > 0,
        m2 > 0,
        0 <= e <= 0x1_0000_0000,
        -0x1_0000_0000 < b1 * 0x1_0000_0000 - m2 * d < 0x1_0000_0000,
        -0x1_0000_0000 < b2 * 0x1_0000_0000 + m1 * d < 0x1_0000_0000,
        -0x1_0000_0000 < f1 * 0x1_0000_0000 - b1 * e < 0x1_0000_0000,
        -0x1_0000_0000 < f2 * 0x1_0000_0000 - b2 * e < 0x1_0000_0000,
    ensures
        -2 * (m1 + m2) < m1 * f1 + m2 * f2 < 2 * (m1 + m2),
{
    let one = 0x1_0000_0000int;
    let sq = 0x1_0000_0000_0000_0000int;
    let md2 = m2 * d;
    let md1 = m1 * d;
    let gb1 = b1 * one - md2;
    let gb2 = b2 * one + md1;
    let gf1 = f1 * one - b1 * e;
    let gf2 = f2 * one - b2 * e;
    let r1 = e * gb1 + one * gf1;
    let r2 = e * gb2 + one * gf2;
    // sq * f1 == e * md2 + r1
    assert(e * gb1 == one * (b1 * e) - e * md2) by (nonlinear_arith)
        requires
            gb1 == b1 * one - md2,
            one == 0x1_0000_0000,
    ;
    assert(sq * f1 == e * md2 + r1);
    // sq * f2 == r2 - e * md1
    assert(e * gb2 == one * (b2 * e) + e * md1) by (nonlinear_arith)
        requires
            gb2 == b2 * one + md1,
            one == 0x1_0000_0000,
    ;
    assert(sq * f2 == r2 - e * md1);
    assert(-2 * sq < r1 < 2 * sq) by (nonlinear_arith)
        requires
            r1 == e * gb1 + one * gf1,
            one == 0x1_0000_0000,
            sq == 0x1_0000_0000_0000_0000,
            0 <= e <= one,
            -one < gb1 < one,
            -one < gf1 < one,
    ;
    assert(-2 * sq < r2 < 2 * sq) by (nonlinear_arith)
        requires
            r2 == e * gb2 + one * gf2,
            one == 0x1_0000_0000,
            sq == 0x1_0000_0000_0000_0000,
            0 <= e <= one,
            -one < gb2 < one,
            -one < gf2 < one,
    ;
    // the two products of three cancel
    let x = e * md2;
    let y = e * md1;
    assert(m1 * x == m2 * y) by {
        assert(m1 * (e * (m2 * d)) == m2 * (e * (m1 * d))) by (nonlinear_arith);
    }
    let sum = m1 * f1 + m2 * f2;
    assert(m1 * (sq * f1) == m1 * x + m1 * r1) by (nonlinear_arith)
        requires
            sq * f1 == x + r1,
    ;
    assert(m2 * (sq * f2) == m2 * r2 - m2 * y) by (nonlinear_arith)
        requires
            sq * f2 == r2 - y,
    ;
    assert(m1 * (sq * f1) == sq * (m1 * f1)) by (nonlinear_arith);
    assert(m2 * (sq * f2) == sq * (m2 * f2)) by (nonlinear_arith);
    assert(sq * sum == m1 * r1 + m2 * r2);
    assert(-2 * (m1 + m2) < sum < 2 * (m1 + m2)) by (nonlinear_arith)
        requires
            sq > 0,
            m1 > 0,
            m2 > 0,
            sq * sum == m1 * r1 + m2 * r2,
            -2 * sq < r1 < 2 * sq,
            -2 * sq < r2 < 2 * sq,
    ;
}

/// The momentum after a rebound, put together from what each rounding
/// leaves out, is within four units and the total mass of the momentum
/// before.
proof fn lemma_momentum_from_errors(
    m1: int,
    m2: int,
    p: int,
    s: int,
    f1: int,
    f2: int,
    q1: int,
    q2: int,
)
    requires
        m1 > 0,
        m2 > 0,
        -0x2_0000_0000 < s * 0x1_0000_0000 - p < 0x2_0000_0000,
        -2 * (m1 + m2) < m1 * f1 + m2 * f2 < 2 * (m1 + m2),
        -(m1 + m2) < (s - f1) * 0x1_0000_0000 - q1 * (m1 + m2) < m1 + m2,
        -(m1 + m2) < (s - f2) * 0x1_0000_0000 - q2 * (m1 + m2) < m1 + m2,
    ensures
        -(0x4_0000_0000 + m1 + m2) < m1 * q1 + m2 * q2 - p < 0x4_0000_0000 + m1 + m2,
{
    let one = 0x1_0000_0000int;
    let t = m1 + m2;
    let alpha = s * one - p;
    let loss = m1 * f1 + m2 * f2;
    let rho1 = (s - f1) * one - q1 * t;
    let rho2 = (s - f2) * one - q2 * t;
    let change = m1 * q1 + m2 * q2 - p;
    let rest = m1 * rho1 + m2 * rho2;
    assert(m1 * (q1 * t) == one * (m1 * s) - one * (m1 * f1) - m1 * rho1) by (nonlinear_arith)
        requires
            q1 * t == (s - f1) * one - rho1,
            one == 0x1_0000_0000,
    ;
    assert(m2 * (q2 * t) == one * (m2 * s) - one * (m2 * f2) - m2 * rho2) by (nonlinear_arith)
        requires
            q2 * t == (s - f2) * one - rho2,
            one == 0x1_0000_0000,
    ;
    assert(m1 * (q1 * t) == (m1 * q1) * t) by (nonlinear_arith);
    assert(m2 * (q2 * t) == (m2 * q2) * t) by (nonlinear_arith);
    assert(m1 * s + m2 * s == t * s) by (nonlinear_arith)
        requires
            t == m1 + m2,
    ;
    assert(t * (s * one) == t * p + t * alpha) by (nonlinear_arith)
        requires
            s * one == p + alpha,
    ;
    assert(t * (s * one) == one * (t * s)) by (nonlinear_arith)
        requires
            one == 0x1_0000_0000,
    ;
    assert(change * t == (m1 * q1) * t + (m2 * q2) * t - p * t) by (nonlinear_arith)
        requires
            change == m1 * q1 + m2 * q2 - p,
    ;
    assert(p * t == t * p) by (nonlinear_arith);
    assert(change * t == t * alpha - one * loss - rest);
    assert(-(2 * one) * t < t * alpha < (2 * one) * t) by (nonlinear_arith)
        requires
            t > 0,
            -2 * one < alpha < 2 * one,
    ;
    assert(-(t * t) < rest < t * t) by (nonlinear_arith)
        requires
            rest == m1 * rho1 + m2 * rho2,
            t == m1 + m2,
            m1 > 0,
            m2 > 0,
            -t < rho1 < t,
            -t < rho2 < t,
    ;
    assert(-(4 * one + t) * t < change * t < (4 * one + t) * t) by (nonlinear_arith)
        requires
            one == 0x1_0000_0000,
            t > 0,
            change * t == t * alpha - one * loss - rest,
            -(2 * one) * t < t * alpha < (2 * one) * t,
            -2 * t < loss < 2 * t,
            -(t * t) < rest < t * t,
    ;
    assert(-(4 * one + t) < change < 4 * one + t) by (nonlinear_arith)
        requires
            t > 0,
            -(4 * one + t) * t < change * t < (4 * one + t) * t,
    ;
}

/// The largest mass, and the largest magnitude of a velocity, for which the
/// rebound never reaches the ends of the number range.
pub const MOMENTUM_LIMIT: i64 = 0x4000_0000_0000;

/// A bound on the velocities along the normal after a rebound of masses
/// and velocities within `MOMENTUM_LIMIT`.
pub const REBOUND_REACH: i64 = 0xc004_0000_0001;

/// A bound on the components of a change of velocity that a collision of
/// masses and velocities within the limits calls for.
pub const CHANGE_REACH: i64 = 0x1_0004_0000_0001;

/// Whether both components of `change` are below `CHANGE_REACH` in
/// magnitude.
pub open spec fn within_change_reach(change: Vec2) -> bool {
    &&& -CHANGE_REACH < change.x@ < CHANGE_REACH
    &&& -CHANGE_REACH < change.y@ < CHANGE_REACH
}

/// The largest magnitude of a component of a velocity for which the
/// velocity along a normal stays within `MOMENTUM_LIMIT`.
pub const VELOCITY_LIMIT: i64 = 0x2000_0000_0000;

/// The product of `a`, at most `bound` in magnitude, with `b` between zero
/// and `other`: what its quotient by one leaves out, and how large it can
/// be.
proof fn lemma_product_quotient(a: int, b: int, bound: int, other: int)
    requires
        -bound <= a <= bound,
        0 <= b <= other,
        0 <= bound,
    ensures
        -0x1_0000_0000 < a * b - trunc_div(a * b, 0x1_0000_0000) * 0x1_0000_0000 < 0x1_0000_0000,
        -(bound * other) <= a * b <= bound * other,
        -(bound * b) <= a * b <= bound * b,
        a >= 0 ==> -(a * other) <= a * b <= a * other,
        a < 0 ==> a * other <= a * b <= -(a * other),
{
    lemma_trunc_error(a * b, 0x1_0000_0000);
    assert(-(bound * other) <= a * b <= bound * other) by (nonlinear_arith)
        requires
            -bound <= a <= bound,
            0 <= b <= other,
            0 <= bound,
    ;
    assert(-(bound * b) <= a * b <= bound * b) by (nonlinear_arith)
        requires
            -bound <= a <= bound,
            0 <= b,
    ;
    assert(a >= 0 ==> -(a * other) <= a * b <= a * other) by (nonlinear_arith)
        requires
            0 <= b <= other,
    ;
    assert(a < 0 ==> a * other <= a * b <= -(a * other)) by (nonlinear_arith)
        requires
            0 <= b <= other,
    ;
}

/// A rebound keeps the momentum up to what its roundings leave out: the
/// sum of the products of mass and velocity along the normal changes by
/// less than four units and the total mass, counting each product in units
/// of 2^-64.
pub proof fn lemma_rebound_keeps_momentum(m1: Fixed, v1: Fixed, m2: Fixed, v2: Fixed, e: Fixed)
    requires
        0 < m1@ <= MOMENTUM_LIMIT,
        0 < m2@ <= MOMENTUM_LIMIT,
        -MOMENTUM_LIMIT <= v1@ <= MOMENTUM_LIMIT,
        -MOMENTUM_LIMIT <= v2@ <= MOMENTUM_LIMIT,
        0 <= e@ <= ONE_RAW,
    ensures
        ({
            let after = spec_rebound(m1, v1, m2, v2, e);
            let change = m1@ * after.0@ + m2@ * after.1@ - (m1@ * v1@ + m2@ * v2@);
            &&& -(4 * ONE_RAW + m1@ + m2@) < change < 4 * ONE_RAW + m1@ + m2@
            &&& -REBOUND_REACH < after.0@ < REBOUND_REACH
            &&& -REBOUND_REACH < after.1@ < REBOUND_REACH
        }),
{
    let one = 0x1_0000_0000int;
    let lim = 0x4000_0000_0000int;
    assert(ONE_RAW == 0x1_0000_0000 && MOMENTUM_LIMIT == 0x4000_0000_0000);
    assert(REBOUND_REACH == 0xc004_0000_0001);
    let x1 = m1@;
    let x2 = m2@;
    let t = x1 + x2;
    let d = v1@ - v2@;
    // the momentum before, rounded
    lemma_product_quotient(v1@, x1, lim, lim);
    lemma_product_quotient(v2@, x2, lim, lim);
    assert(v1@ * x1 == x1 * v1@ && v2@ * x2 == x2 * v2@) by (nonlinear_arith);
    let a1 = trunc_div(x1 * v1@, one);
    let a2 = trunc_div(x2 * v2@, one);
    assert(m1.times(v1)@ == a1);
    assert(m2.times(v2)@ == a2);
    let momentum = m1.times(v1).plus(m2.times(v2));
    let s = a1 + a2;
    assert(momentum@ == s);
    let total = m1.plus(m2);
    assert(total@ == t);
    // the two losses
    lemma_product_quotient(d, x2, 2 * lim, lim);
    lemma_product_quotient(-d, x1, 2 * lim, lim);
    assert(d * x2 == x2 * d && (-d) * x1 == x1 * (-d) && x1 * (-d) == -(x1 * d))
        by (nonlinear_arith);
    let b1 = trunc_div(x2 * d, one);
    let b2 = trunc_div(x1 * (-d), one);
    assert(v1.minus(v2)@ == d);
    assert(v2.minus(v1)@ == -d);
    assert(m2.times(v1.minus(v2))@ == b1);
    assert(m1.times(v2.minus(v1))@ == b2);
    let wide = 0x2000_0000_0000_0000int;
    assert(-wide <= b1 <= wide && -wide <= b2 <= wide);
    lemma_product_quotient(b1, e@, wide, one);
    lemma_product_quotient(b2, e@, wide, one);
    let f1 = trunc_div(b1 * e@, one);
    let f2 = trunc_div(b2 * e@, one);
    let first = m2.times(v1.minus(v2)).times(e);
    let second = m1.times(v2.minus(v1)).times(e);
    assert(first@ == f1);
    assert(second@ == f2);
    lemma_losses_cancel(x1, x2, d, e@, b1, b2, f1, f2);
    // the two quotients by the total mass
    let n1 = s - f1;
    let n2 = s - f2;
    assert(momentum.minus(first)@ == n1);
    assert(momentum.minus(second)@ == n2);
    lemma_trunc_error(n1 * one, t);
    lemma_trunc_error(n2 * one, t);
    let q1 = trunc_div(n1 * one, t);
    let q2 = trunc_div(n2 * one, t);
    let reach = 3 * lim + 4 * one + 1;
    assert(-(3 * lim * t + 4 * one) < n1 * one < 3 * lim * t + 4 * one);
    assert(-(3 * lim * t + 4 * one) < n2 * one < 3 * lim * t + 4 * one);
    assert(-reach < q1 < reach) by (nonlinear_arith)
        requires
            t >= 2,
            reach == 3 * lim + 4 * one + 1,
            one > 0,
            lim > 0,
            -t < n1 * one - q1 * t < t,
            -(3 * lim * t + 4 * one) < n1 * one < 3 * lim * t + 4 * one,
    ;
    assert(-reach < q2 < reach) by (nonlinear_arith)
        requires
            t >= 2,
            reach == 3 * lim + 4 * one + 1,
            one > 0,
            lim > 0,
            -t < n2 * one - q2 * t < t,
            -(3 * lim * t + 4 * one) < n2 * one < 3 * lim * t + 4 * one,
    ;
    let after = spec_rebound(m1, v1, m2, v2, e);
    assert(after.0@ == q1);
    assert(after.1@ == q2);
    lemma_momentum_from_errors(x1, x2, x1 * v1@ + x2 * v2@, s, f1, f2, q1, q2);
}

/// Scaling the two changes of velocity of a pair by a component of the
/// normal and by the damping keeps their momenta opposite, up to what the
/// two roundings of each leave out.
proof fn lemma_scaled_pair(
    m1: int,
    m2: int,
    w1: int,
    w2: int,
    n: int,
    k: int,
    a1: int,
    a2: int,
    f1: int,
    f2: int,
    g: int,
)
    requires
        m1 > 0,
        m2 > 0,
        -0x1_0000_0000 <= n <= 0x1_0000_0000,
        0 <= k <= 0x1_0000_0000,
        -g < m1 * w1 + m2 * w2 < g,
        -0x1_0000_0000 < a1 * 0x1_0000_0000 - n * w1 < 0x1_0000_0000,
        -0x1_0000_0000 < a2 * 0x1_0000_0000 - n * w2 < 0x1_0000_0000,
        -0x1_0000_0000 < f1 * 0x1_0000_0000 - a1 * k < 0x1_0000_0000,
        -0x1_0000_0000 < f2 * 0x1_0000_0000 - a2 * k < 0x1_0000_0000,
    ensures
        -(g + 2 * (m1 + m2)) < m1 * f1 + m2 * f2 < g + 2 * (m1 + m2),
{
    let one = 0x1_0000_0000int;
    let sq = 0x1_0000_0000_0000_0000int;
    let nw1 = n * w1;
    let nw2 = n * w2;
    let g1 = a1 * one - nw1;
    let g2 = a2 * one - nw2;
    let h1 = f1 * one - a1 * k;
    let h2 = f2 * one - a2 * k;
    let r1 = k * g1 + one * h1;
    let r2 = k * g2 + one * h2;
    assert(k * g1 == one * (a1 * k) - k * nw1) by (nonlinear_arith)
        requires
            g1 == a1 * one - nw1,
            one == 0x1_0000_0000,
    ;
    assert(k * g2 == one * (a2 * k) - k * nw2) by (nonlinear_arith)
        requires
            g2 == a2 * one - nw2,
            one == 0x1_0000_0000,
    ;
    assert(sq * f1 == k * nw1 + r1);
    assert(sq * f2 == k * nw2 + r2);
    assert(-2 * sq < r1 < 2 * sq) by (nonlinear_arith)
        requires
            r1 == k * g1 + one * h1,
            one == 0x1_0000_0000,
            sq == 0x1_0000_0000_0000_0000,
            0 <= k <= one,
            -one < g1 < one,
            -one < h1 < one,
    ;
    assert(-2 * sq < r2 < 2 * sq) by (nonlinear_arith)
        requires
            r2 == k * g2 + one * h2,
            one == 0x1_0000_0000,
            sq == 0x1_0000_0000_0000_0000,
            0 <= k <= one,
            -one < g2 < one,
            -one < h2 < one,
    ;
    let u = k * n;
    let w = m1 * w1 + m2 * w2;
    assert(k * nw1 == u * w1) by {
        assert(k * (n * w1) == (k * n) * w1) by (nonlinear_arith);
    }
    assert(k * nw2 == u * w2) by {
        assert(k * (n * w2) == (k * n) * w2) by (nonlinear_arith);
    }
    assert(m1 * (u * w1) == u * (m1 * w1)) by (nonlinear_arith);
    assert(m2 * (u * w2) == u * (m2 * w2)) by (nonlinear_arith);
    assert(u * (m1 * w1) + u * (m2 * w2) == u * w) by (nonlinear_arith)
        requires
            w == m1 * w1 + m2 * w2,
    ;
    let sum = m1 * f1 + m2 * f2;
    assert(m1 * (sq * f1) == m1 * (u * w1) + m1 * r1) by (nonlinear_arith)
        requires
            sq * f1 == u * w1 + r1,
    ;
    assert(m2 * (sq * f2) == m2 * (u * w2) + m2 * r2) by (nonlinear_arith)
        requires
            sq * f2 == u * w2 + r2,
    ;
    assert(m1 * (sq * f1) == sq * (m1 * f1)) by (nonlinear_arith);
    assert(m2 * (sq * f2) == sq * (m2 * f2)) by (nonlinear_arith);
    assert(sq * sum == u * w + m1 * r1 + m2 * r2);
    assert(-sq <= u <= sq) by (nonlinear_arith)
        requires
            u == k * n,
            sq == 0x1_0000_0000_0000_0000,
            0 <= k <= 0x1_0000_0000,
            -0x1_0000_0000 <= n <= 0x1_0000_0000,
    ;
    let mag = if w >= 0 {
        w
    } else {
        -w
    };
    assert(-(sq * mag) <= u * w <= sq * mag) by (nonlinear_arith)
        requires
            -sq <= u <= sq,
            mag >= 0,
            mag == w || mag == -w,
    ;
    assert(sq * mag < sq * g) by (nonlinear_arith)
        requires
            sq > 0,
            mag < g,
    ;
    let t = m1 + m2;
    assert(-(2 * sq) * t < m1 * r1 + m2 * r2 < (2 * sq) * t) by (nonlinear_arith)
        requires
            t == m1 + m2,
            m1 > 0,
            m2 > 0,
            -2 * sq < r1 < 2 * sq,
            -2 * sq < r2 < 2 * sq,
    ;
    assert(-(g + 2 * t) < sum < g + 2 * t) by (nonlinear_arith)
        requires
            sq == 0x1_0000_0000_0000_0000,
            sq * sum == u * w + m1 * r1 + m2 * r2,
            -(sq * g) < u * w < sq * g,
            -(2 * sq) * t < m1 * r1 + m2 * r2 < (2 * sq) * t,
    ;
}

/// The product of `a` with `n`, which is at most one in magnitude: what
/// its quotient by one leaves out, and that the quotient is no larger in
/// magnitude than `a`.
proof fn lemma_scale_quotient(a: int, n: int)
    requires
        -0x1_0000_0000 <= n <= 0x1_0000_0000,
    ensures
        -0x1_0000_0000 < a * n - trunc_div(a * n, 0x1_0000_0000) * 0x1_0000_0000 < 0x1_0000_0000,
        a >= 0 ==> -a <= trunc_div(a * n, 0x1_0000_0000) <= a,
        a < 0 ==> a <= trunc_div(a * n, 0x1_0000_0000) <= -a,
        a * n == n * a,
{
    lemma_trunc_error(a * n, 0x1_0000_0000);
    assert(a >= 0 ==> -(a * 0x1_0000_0000) <= a * n <= a * 0x1_0000_0000) by (nonlinear_arith)
        requires
            -0x1_0000_0000 <= n <= 0x1_0000_0000,
    ;
    assert(a < 0 ==> a * 0x1_0000_0000 <= a * n <= -(a * 0x1_0000_0000)) by (nonlinear_arith)
        requires
            -0x1_0000_0000 <= n <= 0x1_0000_0000,
    ;
    assert(a * n == n * a) by (nonlinear_arith);
}

/// The velocity along a normal whose components are at most one in
/// magnitude stays within `MOMENTUM_LIMIT` where the components of the
/// velocity are within `VELOCITY_LIMIT`.
proof fn lemma_dot_within(vel: Vec2, n: Vec2)
    requires
        -VELOCITY_LIMIT <= vel.x@ <= VELOCITY_LIMIT,
        -VELOCITY_LIMIT <= vel.y@ <= VELOCITY_LIMIT,
        -ONE_RAW <= n.x@ <= ONE_RAW,
        -ONE_RAW <= n.y@ <= ONE_RAW,
    ensures
        -MOMENTUM_LIMIT <= vel.dot(n)@ <= MOMENTUM_LIMIT,
{
    assert(ONE_RAW == 0x1_0000_0000 && MOMENTUM_LIMIT == 0x4000_0000_0000 && VELOCITY_LIMIT
        == 0x2000_0000_0000);
    lemma_scale_quotient(vel.x@, n.x@);
    lemma_scale_quotient(vel.y@, n.y@);
    assert(vel.x.times(n.x)@ == trunc_div(vel.x@ * n.x@, 0x1_0000_0000));
    assert(vel.y.times(n.y)@ == trunc_div(vel.y@ * n.y@, 0x1_0000_0000));
}

/// One component of the two changes of velocity of a pair: the changes
/// along the normal, scaled by that component of the normal and by the
/// damping, carry opposite momenta up to what the roundings leave out.
proof fn lemma_component_keeps_momentum(
    m1: int,
    m2: int,
    w1: Fixed,
    w2: Fixed,
    n: Fixed,
    k: Fixed,
    g: int,
)
    requires
        m1 > 0,
        m2 > 0,
        -0x7fff_ffff_ffff_ffff <= w1@,
        -0x7fff_ffff_ffff_ffff <= w2@,
        -ONE_RAW <= n@ <= ONE_RAW,
        0 <= k@ <= ONE_RAW,
        -g < m1 * w1@ + m2 * w2@ < g,
    ensures
        -(g + 2 * (m1 + m2)) < m1 * n.times(w1).times(k)@ + m2 * n.times(w2).times(k)@ < g + 2 * (
        m1 + m2),
        w1@ >= 0 ==> -w1@ <= n.times(w1).times(k)@ <= w1@,
        w1@ < 0 ==> w1@ <= n.times(w1).times(k)@ <= -w1@,
        w2@ >= 0 ==> -w2@ <= n.times(w2).times(k)@ <= w2@,
        w2@ < 0 ==> w2@ <= n.times(w2).times(k)@ <= -w2@,
{
    let one = 0x1_0000_0000int;
    assert(ONE_RAW == 0x1_0000_0000);
    lemma_scale_quotient(w1@, n@);
    lemma_scale_quotient(w2@, n@);
    let a1 = trunc_div(n@ * w1@, one);
    let a2 = trunc_div(n@ * w2@, one);
    assert(n.times(w1)@ == a1);
    assert(n.times(w2)@ == a2);
    lemma_product_quotient(a1, k@, 0x1_0000_0000_0000_0000, one);
    lemma_product_quotient(a2, k@, 0x1_0000_0000_0000_0000, one);
    let f1 = trunc_div(a1 * k@, one);
    let f2 = trunc_div(a2 * k@, one);
    assert(n.times(w1).times(k)@ == f1);
    assert(n.times(w2).times(k)@ == f2);
    lemma_scaled_pair(m1, m2, w1@, w2@, n@, k@, a1, a2, f1, f2, g);
}

/// The two changes of velocity of a pair carry opposite momenta, up to what
/// the roundings leave out: on each axis the sum of the products of mass
/// and change is less than four units and three times the total mass,
/// counting each product in units of 2^-64.
pub proof fn lemma_impulses_keep_momentum(
    contact: Contact,
    vel_a: Vec2,
    mass_a: Fixed,
    vel_b: Vec2,
    mass_b: Fixed,
    elasticity: Fixed,
    damping: Fixed,
)
    requires
        0 < mass_a@ <= MOMENTUM_LIMIT,
        0 < mass_b@ <= MOMENTUM_LIMIT,
        -VELOCITY_LIMIT <= vel_a.x@ <= VELOCITY_LIMIT,
        -VELOCITY_LIMIT <= vel_a.y@ <= VELOCITY_LIMIT,
        -VELOCITY_LIMIT <= vel_b.x@ <= VELOCITY_LIMIT,
        -VELOCITY_LIMIT <= vel_b.y@ <= VELOCITY_LIMIT,
        -ONE_RAW <= contact.normal.x@ <= ONE_RAW,
        -ONE_RAW <= contact.normal.y@ <= ONE_RAW,
        0 <= elasticity@ <= ONE_RAW,
        0 <= damping@ <= ONE_RAW,
    ensures
        ({
            let changes = spec_impulses(
                contact,
                vel_a,
                mass_a,
                vel_b,
                mass_b,
                elasticity,
                damping,
            );
            let bound = 4 * ONE_RAW + 3 * (mass_a@ + mass_b@);
            &&& -bound < mass_a@ * changes.0.x@ + mass_b@ * changes.1.x@ < bound
            &&& -bound < mass_a@ * changes.0.y@ + mass_b@ * changes.1.y@ < bound
            &&& within_change_reach(changes.0)
            &&& within_change_reach(changes.1)
        }),
{
    assert(ONE_RAW == 0x1_0000_0000 && MOMENTUM_LIMIT == 0x4000_0000_0000 && REBOUND_REACH
        == 0xc004_0000_0001 && CHANGE_REACH == 0x1_0004_0000_0001);
    let n = contact.normal;
    let m1 = mass_a@;
    let m2 = mass_b@;
    let v1 = vel_a.dot(n);
    let v2 = vel_b.dot(n);
    lemma_dot_within(vel_a, n);
    lemma_dot_within(vel_b, n);
    lemma_rebound_keeps_momentum(mass_a, v1, mass_b, v2, elasticity);
    let after = spec_rebound(mass_a, v1, mass_b, v2, elasticity);
    let w1 = after.0.minus(v1);
    let w2 = after.1.minus(v2);
    assert(w1@ == after.0@ - v1@);
    assert(w2@ == after.1@ - v2@);
    assert(m1 * w1@ + m2 * w2@ == m1 * after.0@ + m2 * after.1@ - (m1 * v1@ + m2 * v2@))
        by (nonlinear_arith)
        requires
            w1@ == after.0@ - v1@,
            w2@ == after.1@ - v2@,
    ;
    let g = 4 * 0x1_0000_0000int + m1 + m2;
    lemma_component_keeps_momentum(m1, m2, w1, w2, n.x, damping, g);
    lemma_component_keeps_momentum(m1, m2, w1, w2, n.y, damping, g);
}

/// A quotient rounded toward zero of a number times one by a divisor
/// larger than the number in magnitude is at most one in magnitude.
proof fn lemma_short_quotient(x: int, dist: int)
    requires
        dist > 0,
        -dist < x < dist,
    ensures
        -0x1_0000_0000 <= trunc_div(x * 0x1_0000_0000, dist) <= 0x1_0000_0000,
{
    let q = trunc_div(x * 0x1_0000_0000, dist);
    lemma_trunc_error(x * 0x1_0000_0000, dist);
    assert(-0x1_0000_0000 <= q <= 0x1_0000_0000) by (nonlinear_arith)
        requires
            dist > 0,
            -dist < x < dist,
            -dist < x * 0x1_0000_0000 - q * dist < dist,
    ;
}

/// The components of the normal of a contact are at most one in magnitude.
pub proof fn lemma_contact_normal_is_short(
    pos_a: Vec2,
    radius_a: Fixed,
    pos_b: Vec2,
    radius_b: Fixed,
    epsilon: Fixed,
)
    requires
        epsilon@ > 0,
        spec_contact(pos_a, radius_a, pos_b, radius_b, epsilon).is_some(),
    ensures
        ({
            let normal = spec_contact(pos_a, radius_a, pos_b, radius_b, epsilon).unwrap().normal;
            &&& -ONE_RAW <= normal.x@ <= ONE_RAW
            &&& -ONE_RAW <= normal.y@ <= ONE_RAW
        }),
{
    assert(ONE_RAW == 0x1_0000_0000);
    let delta = pos_a.minus(pos_b);
    let distance = delta.length().plus(epsilon);
    crate::sqrt::lemma_floor_sqrt_of_squares(delta.x@, delta.y@);
    lemma_short_quotient(delta.x@, distance@);
    lemma_short_quotient(delta.y@, distance@);
}

/// The two changes of velocity that an overlap of two bodies calls for
/// carry opposite momenta, up to what the roundings leave out: on each axis
/// the sum of the products of mass and change is less than four units and
/// three times the total mass, counting each product in units of 2^-64.
pub proof fn lemma_overlap_keeps_momentum(
    a: Ball,
    b: Ball,
    epsilon: Fixed,
    elasticity: Fixed,
    damping: Fixed,
)
    requires
        epsilon@ > 0,
        0 < a.mass@ <= MOMENTUM_LIMIT,
        0 < b.mass@ <= MOMENTUM_LIMIT,
        -VELOCITY_LIMIT <= a.vel.x@ <= VELOCITY_LIMIT,
        -VELOCITY_LIMIT <= a.vel.y@ <= VELOCITY_LIMIT,
        -VELOCITY_LIMIT <= b.vel.x@ <= VELOCITY_LIMIT,
        -VELOCITY_LIMIT <= b.vel.y@ <= VELOCITY_LIMIT,
        0 <= elasticity@ <= ONE_RAW,
        0 <= damping@ <= ONE_RAW,
        spec_contact(a.pos, a.radius, b.pos, b.radius, epsilon).is_some(),
    ensures
        ({
            let found = spec_contact(a.pos, a.radius, b.pos, b.radius, epsilon).unwrap();
            let changes = spec_impulses(found, a.vel, a.mass, b.vel, b.mass, elasticity, damping);
            let bound = 4 * ONE_RAW + 3 * (a.mass@ + b.mass@);
            &&& -bound < a.mass@ * changes.0.x@ + b.mass@ * changes.1.x@ < bound
            &&& -bound < a.mass@ * changes.0.y@ + b.mass@ * changes.1.y@ < bound
            &&& within_change_reach(changes.0)
            &&& within_change_reach(changes.1)
        }),
{
    lemma_contact_normal_is_short(a.pos, a.radius, b.pos, b.radius, epsilon);
    let found = spec_contact(a.pos, a.radius, b.pos, b.radius, epsilon).unwrap();
    lemma_impulses_keep_momentum(found, a.vel, a.mass, b.vel, b.mass, elasticity, damping);
}

/// The changes of velocity that the pair of ball `i` and ball `j` calls
/// for: none where the two do not overlap.
pub open spec fn pair_changes(balls: Seq<Ball>, config: Config, i: int, j: int) -> (Vec2, Vec2) {
    match pair_contact(balls, config, i, j) {
        None => (Vec2::zero(), Vec2::zero()),
        Some(found) => spec_impulses(
            found,
            balls[i].vel,
            balls[i].mass,
            balls[j].vel,
            balls[j].mass,
            config.elasticity,
            config.damping,
        ),
    }
}

/// In a pass over two balls each receives what the pair calls for in the
/// one order and then in the other.
pub proof fn lemma_two_ball_pass(a: Ball, b: Ball, config: Config)
    ensures
        ({
            let balls = seq![a, b];
            let sums = spec_responses(balls, config).velocities;
            let forth = pair_changes(balls, config, 0, 1);
            let back = pair_changes(balls, config, 1, 0);
            &&& sums.len() == 2
            &&& sums[0] == forth.0.plus(back.1)
            &&& sums[1] == forth.1.plus(back.0)
        }),
{
    let balls = seq![a, b];
    reveal_with_fuel(visit_row, 3);
    reveal_with_fuel(visit_rows, 3);
    let start = empty_buffers(2);
    assert(visit_rows(balls, config, 0) == start);
    assert(pair_contact(balls, config, 0, 0).is_none());
    assert(pair_contact(balls, config, 1, 1).is_none());
    let first = visit_row(balls, config, start, 0, 2);
    assert(first == visit_pair(balls, config, start, 0, 1));
    assert(visit_rows(balls, config, 1) == first);
    let second = visit_row(balls, config, first, 1, 2);
    assert(second == visit_pair(balls, config, first, 1, 0));
    assert(visit_rows(balls, config, 2) == second);
    let forth = pair_changes(balls, config, 0, 1);
    let back = pair_changes(balls, config, 1, 0);
    assert(first.velocities =~= seq![forth.0, forth.1]);
    assert(second.velocities =~= seq![forth.0.plus(back.1), forth.1.plus(back.0)]);
}

/// The second part of a tick of two balls keeps the sum of the products of
/// mass and velocity up to what the roundings leave out: on each axis it
/// changes by less than twice four units and three times the total mass,
/// counting each product in units of 2^-64.
pub proof fn lemma_two_balls_keep_momentum(a: Ball, b: Ball, config: Config)
    requires
        config.wf(),
        0 <= config.damping@ <= ONE_RAW,
        0 < a.mass@ <= MOMENTUM_LIMIT,
        0 < b.mass@ <= MOMENTUM_LIMIT,
        -VELOCITY_LIMIT <= a.vel.x@ <= VELOCITY_LIMIT,
        -VELOCITY_LIMIT <= a.vel.y@ <= VELOCITY_LIMIT,
        -VELOCITY_LIMIT <= b.vel.x@ <= VELOCITY_LIMIT,
        -VELOCITY_LIMIT <= b.vel.y@ <= VELOCITY_LIMIT,
    ensures
        ({
            let after = resolved(seq![a, b], config);
            let bound = 2 * (4 * ONE_RAW + 3 * (a.mass@ + b.mass@));
            &&& after.len() == 2
            &&& after[0].mass == a.mass
            &&& after[1].mass == b.mass
            &&& -bound < a.mass@ * after[0].vel.x@ + b.mass@ * after[1].vel.x@ - (a.mass@
                * a.vel.x@ + b.mass@ * b.vel.x@) < bound
            &&& -bound < a.mass@ * after[0].vel.y@ + b.mass@ * after[1].vel.y@ - (a.mass@
                * a.vel.y@ + b.mass@ * b.vel.y@) < bound
        }),
{
    assert(ONE_RAW == 0x1_0000_0000 && VELOCITY_LIMIT == 0x2000_0000_0000 && CHANGE_REACH
        == 0x1_0004_0000_0001);
    let balls = seq![a, b];
    lemma_two_ball_pass(a, b, config);
    let forth = pair_changes(balls, config, 0, 1);
    let back = pair_changes(balls, config, 1, 0);
    if pair_contact(balls, config, 0, 1).is_some() {
        lemma_overlap_keeps_momentum(a, b, config.epsilon, config.elasticity, config.damping);
    }
    if pair_contact(balls, config, 1, 0).is_some() {
        lemma_overlap_keeps_momentum(b, a, config.epsilon, config.elasticity, config.damping);
    }
    assert(within_change_reach(forth.0) && within_change_reach(forth.1));
    assert(within_change_reach(back.0) && within_change_reach(back.1));
    let after = resolved(balls, config);
    lemma_sum_of_changes(a.mass@, b.mass@, a.vel.x@, b.vel.x@, forth.0.x@, forth.1.x@, back.0.x@,
        back.1.x@);
    lemma_sum_of_changes(a.mass@, b.mass@, a.vel.y@, b.vel.y@, forth.0.y@, forth.1.y@, back.0.y@,
        back.1.y@);
    assert(after[0].vel.x@ == a.vel.x@ + forth.0.x@ + back.1.x@);
    assert(after[1].vel.x@ == b.vel.x@ + forth.1.x@ + back.0.x@);
    assert(after[0].vel.y@ == a.vel.y@ + forth.0.y@ + back.1.y@);
    assert(after[1].vel.y@ == b.vel.y@ + forth.1.y@ + back.0.y@);
}

/// The momentum of two bodies after each has received two changes, less
/// the momentum before, is the momentum of the changes.
proof fn lemma_sum_of_changes(
    m1: int,
    m2: int,
    v1: int,
    v2: int,
    f1: int,
    f2: int,
    b2: int,
    b1: int,
)
    ensures
        m1 * (v1 + f1 + b1) + m2 * (v2 + f2 + b2) - (m1 * v1 + m2 * v2) == (m1 * f1 + m2 * f2) + (
        m2 * b2 + m1 * b1),
{
    assert(m1 * (v1 + f1 + b1) == m1 * v1 + m1 * f1 + m1 * b1) by (nonlinear_arith);
    assert(m2 * (v2 + f2 + b2) == m2 * v2 + m2 * f2 + m2 * b2) by (nonlinear_arith);
}

} // verus!
