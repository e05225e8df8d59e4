//! Percentages of pane widths, rounded the way double-precision arithmetic
//! rounds them.
//!
//! A share is divided, multiplied by one hundred and rounded to a whole
//! number. Each of the first two steps gives the nearest number with a
//! significand of fifty-three bits, ties going to the even one; the last step
//! rounds halves up.

use vstd::prelude::*;

verus! {

/// The bound from which on a significand has fifty-three bits.
pub const SIGNIFICAND: u128 = 0x10_0000_0000_0000;

/// The whole number nearest to `x / b`, the even one where two are equally
/// near.
pub open spec fn nearest_even(x: nat, b: nat) -> nat
    recommends
        b > 0,
{
    let q = x / b;
    let r = x % b;
    if 2 * r > b || (2 * r == b && q % 2 == 1) {
        q + 1
    } else {
        q
    }
}

/// `x` doubled, and `e` counted up, until `x / b` has a significand of
/// fifty-three bits.
pub open spec fn scaled(x: nat, b: nat, e: nat) -> (nat, nat)
    decreases
            (if b * SIGNIFICAND > x {
                b * SIGNIFICAND - x
            } else {
                0
            }),
{
    if x == 0 || x >= b * SIGNIFICAND {
        (x, e)
    } else {
        scaled(2 * x, b, e + 1)
    }
}

/// Two to the power of `e`.
pub open spec fn two_to(e: nat) -> nat
    decreases e,
{
    if e == 0 {
        1
    } else {
        2 * two_to((e - 1) as nat)
    }
}

/// The share `a / b` as a percentage: a double-precision quotient, a
/// double-precision product with one hundred, and the nearest whole number,
/// halves up. Nothing divided by nothing counts as zero.
pub open spec fn percent(a: nat, b: nat) -> nat {
    if a == 0 || b == 0 {
        0
    } else {
        let (x, e) = scaled(a, b, 0);
        let quotient = nearest_even(x, b);
        let product = quotient * 100;
        let step: nat = if product < 128 * SIGNIFICAND {
            64
        } else {
            128
        };
        let rounded = nearest_even(product, step) * step;
        (2 * rounded + two_to(e)) / (2 * two_to(e))
    }
}

/// `n`, moved to the nearest end of `10..=90` where it lies outside.
pub open spec fn clamp_pct(n: nat) -> u32 {
    if n < 10 {
        10
    } else if n > 90 {
        90
    } else {
        n as u32
    }
}

fn nearest_even_of(x: u128, b: u128) -> (r: u128)
    requires
        0 < b < 0x1_0000_0000_0000_0000,
        x < 0x100_0000_0000_0000_0000_0000_0000_0000,
    ensures
        r == nearest_even(x as nat, b as nat),
        r <= x / b + 1,
{
    let q: u128 = x / b;
    let rest: u128 = x % b;
    if 2 * rest > b || (2 * rest == b && q % 2 == 1) {
        assert(q <= x) by (nonlinear_arith)
            requires
                q == x / b,
                b > 0,
        ;
        q + 1
    } else {
        q
    }
}

/// The share `a` of `b` as a percentage.
pub fn percent_of(a: u32, b: u32) -> (r: u64)
    requires
        a <= b,
    ensures
        r == percent(a as nat, b as nat),
{
    if a == 0 || b == 0 {
        return 0;
    }
    let bound: u128 = b as u128 * SIGNIFICAND;
    let mut x: u128 = a as u128;
    let mut power: u128 = 1;
    let ghost mut e: nat = 0;
    assert(bound <= 0xFFFF_FFFF * SIGNIFICAND) by (nonlinear_arith)
        requires
            bound == b as u128 * SIGNIFICAND,
            b <= 0xFFFF_FFFF,
    ;
    while x < bound
        invariant
            0 < a <= b,
            bound == b * SIGNIFICAND,
            bound <= 0xFFFF_FFFF * SIGNIFICAND,
            0 < x < 2 * bound || x == a,
            0 < x <= 2 * bound,
            x == a * power,
            power == two_to(e),
            power >= 1,
            power <= x,
            scaled(a as nat, b as nat, 0) == scaled(x as nat, b as nat, e),
        decreases
                (if bound > x {
                    bound - x
                } else {
                    0
                }),
    {
        assert(2 * (a * power) == a * (2 * power)) by (nonlinear_arith);
        x = 2 * x;
        power = 2 * power;
        proof {
            e = e + 1;
        }
        assert(power <= x) by (nonlinear_arith)
            requires
                x == a * power,
                a > 0,
        ;
    }
    let quotient: u128 = nearest_even_of(x, b as u128);
    assert(x / (b as u128) <= 2 * SIGNIFICAND) by (nonlinear_arith)
        requires
            x <= 2 * (b * SIGNIFICAND),
            b > 0,
    ;
    let product: u128 = quotient * 100;
    let step: u128 = if product < 128 * SIGNIFICAND {
        64
    } else {
        128
    };
    let whole: u128 = nearest_even_of(product, step);
    assert(product / step <= product) by (nonlinear_arith)
        requires
            step >= 1,
    ;
    let rounded: u128 = whole * step;
    assert(SIGNIFICAND <= x / (b as u128)) by (nonlinear_arith)
        requires
            x >= b * SIGNIFICAND,
            b > 0,
    ;
    let result: u128 = (2 * rounded + power) / (2 * power);
    proof {
        lemma_small(rounded as nat, power as nat);
    }
    result as u64
}

proof fn lemma_small(rounded: nat, power: nat)
    requires
        power >= 1,
        rounded <= 0x4000_0000_0000_0000,
    ensures
        (2 * rounded + power) / (2 * power) <= 0xFFFF_FFFF_FFFF_FFFF,
{
    assert((2 * rounded + power) / (2 * power) <= rounded + 1) by (nonlinear_arith)
        requires
            power >= 1,
    ;
}

/// Moves a percentage into `10..=90`.
pub fn clamped(n: u64) -> (r: u32)
    ensures
        r == clamp_pct(n as nat),
{
    if n < 10 {
        10
    } else if n > 90 {
        90
    } else {
        n as u32
    }
}

// ---------------------------------------------------------------------------
// Laws

proof fn lemma_scaled(x: nat, b: nat, e: nat)
    requires
        x > 0,
        b > 0,
    ensures
        ({
            let (y, f) = scaled(x, b, e);
            &&& f >= e
            &&& y == x * two_to((f - e) as nat)
            &&& y >= b * SIGNIFICAND
        }),
    decreases
            (if b * SIGNIFICAND > x {
                b * SIGNIFICAND - x
            } else {
                0
            }),
{
    if x >= b * SIGNIFICAND {
        assert(scaled(x, b, e) == (x, e));
        assert(x * two_to(0) == x) by (nonlinear_arith)
            requires
                two_to(0) == 1,
        ;
    } else {
        assert(scaled(x, b, e) == scaled(2 * x, b, e + 1));
        lemma_scaled(2 * x, b, e + 1);
        let (y, f) = scaled(2 * x, b, e + 1);
        let n = (f - e - 1) as nat;
        assert(two_to(n + 1) == 2 * two_to(n));
        assert((2 * x) * two_to(n) == x * (2 * two_to(n))) by (nonlinear_arith);
    }
}

proof fn lemma_nearest(x: nat, b: nat)
    requires
        b > 0,
    ensures
        2 * (nearest_even(x, b) * b) <= 2 * x + b,
        2 * x <= 2 * (nearest_even(x, b) * b) + b,
{
    let q = x / b;
    let r = x % b;
    assert(x == q * b + r && r < b) by {
        vstd::arithmetic::div_mod::lemma_fundamental_div_mod(x as int, b as int);
        assert(b * (x / b) == (x / b) * b) by (nonlinear_arith);
    }
    assert((q + 1) * b == q * b + b) by (nonlinear_arith);
}

/// A share as a percentage is the whole number nearest to it: one percent off
/// by half at most.
pub proof fn law_percent_is_the_nearest(a: nat, b: nat)
    requires
        0 < a <= b <= u32::MAX,
    ensures
        2 * (percent(a, b) * b) <= 200 * a + b,
        200 * a <= 2 * (percent(a, b) * b) + b,
        percent(a, b) <= 100,
{
    let (x, e) = scaled(a, b, 0);
    lemma_scaled(a, b, 0);
    let t = two_to(e);
    let q = nearest_even(x, b);
    lemma_nearest(x, b);
    let product = q * 100;
    let step: nat = if product < 128 * SIGNIFICAND {
        64
    } else {
        128
    };
    let whole = nearest_even(product, step);
    lemma_nearest(product, step);
    let rounded = whole * step;
    let p = percent(a, b);
    assert(x == a * t);
    assert(t >= SIGNIFICAND) by (nonlinear_arith)
        requires
            a * t >= b * SIGNIFICAND,
            0 < a <= b,
    ;
    assert(p == (2 * rounded + t) / (2 * t));
    assert(2 * (p * t) <= 2 * rounded + t && 2 * rounded + t < 2 * (p * t) + 2 * t) by {
        vstd::arithmetic::div_mod::lemma_fundamental_div_mod(
            (2 * rounded + t) as int,
            (2 * t) as int,
        );
        assert((2 * t) * p == 2 * (p * t)) by (nonlinear_arith);
    }
    // The two roundings are off by half a step at most.
    let off = p * t - rounded;
    let miss = rounded - product;
    let gap = q * b - x;
    assert(-t <= 2 * off <= t);
    assert(-128 <= 2 * miss <= 128);
    assert(-b <= 2 * gap <= b);
    assert(p * t * b - 100 * (a * t) == off * b + miss * b + 100 * gap) by (nonlinear_arith)
        requires
            off == p * t - rounded,
            miss == rounded - product,
            product == q * 100,
            gap == q * b - x,
            x == a * t,
    ;
    let d = p * b - 100 * a;
    assert(p * t * b - 100 * (a * t) == d * t) by (nonlinear_arith)
        requires
            d == p * b - 100 * a,
    ;
    assert(2 * (off * b) <= t * b && -(t * b) <= 2 * (off * b)) by (nonlinear_arith)
        requires
            -t <= 2 * off <= t,
            b > 0,
    ;
    assert(2 * (miss * b) <= 128 * b && -(128 * b) <= 2 * (miss * b)) by (nonlinear_arith)
        requires
            -128 <= 2 * miss <= 128,
            b > 0,
    ;
    assert(2 * (d * t) <= t * b + 228 * b);
    assert(-(t * b + 228 * b) <= 2 * (d * t));
    assert(228 * b < t);
    assert(2 * d <= b) by (nonlinear_arith)
        requires
            2 * (d * t) <= t * b + 228 * b,
            228 * b < t,
            t > 0,
    ;
    assert(-b <= 2 * d) by (nonlinear_arith)
        requires
            -(t * b + 228 * b) <= 2 * (d * t),
            228 * b < t,
            t > 0,
    ;
    assert(p <= 100) by (nonlinear_arith)
        requires
            2 * (p * b - 100 * a) <= b,
            a <= b,
            b > 0,
    ;
}

/// A share between a tenth and nine tenths is not moved when percentages are
/// kept in `10..=90`.
pub proof fn law_ordinary_shares_are_not_clamped(a: nat, b: nat)
    requires
        0 < a <= b <= u32::MAX,
        b <= 10 * a,
        10 * a <= 9 * b,
    ensures
        clamp_pct(percent(a, b)) == percent(a, b),
{
    law_percent_is_the_nearest(a, b);
    let p = percent(a, b);
    assert(p >= 10) by (nonlinear_arith)
        requires
            200 * a <= 2 * (p * b) + b,
            b <= 10 * a,
            b > 0,
    ;
    assert(p <= 90) by (nonlinear_arith)
        requires
            2 * (p * b) <= 200 * a + b,
            10 * a <= 9 * b,
            b > 0,
    ;
}

} // verus!
