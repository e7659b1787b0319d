//! Integer geometry: square roots, distances and linear interpolation on the
//! fixed-point coordinate grid.
//!
//! All positions are held in `Coord` units (micrometers), so every geometric
//! computation here is exact integer arithmetic; rounding happens only where
//! a quotient is taken, and each such rounding is pinned down by the
//! contracts below.

use vstd::arithmetic::div_mod::{
    lemma_div_is_ordered, lemma_div_multiples_vanish, lemma_fundamental_div_mod,
};
use vstd::arithmetic::mul::{lemma_mul_inequality, lemma_mul_strict_inequality};
use vstd::prelude::*;

verus! {

/// `r` is the integer square root of `n` rounded down.
pub open spec fn is_sqrt(n: int, r: int) -> bool {
    &&& 0 <= r
    &&& r * r <= n
    &&& n < (r + 1) * (r + 1)
}

/// The integer square root of `n`, rounded down, as a total function.
pub open spec fn sqrt_floor(n: nat) -> nat
    decreases n,
{
    if n == 0 {
        0
    } else {
        let p = sqrt_floor((n - 1) as nat);
        if (p + 1) * (p + 1) <= n {
            p + 1
        } else {
            p
        }
    }
}

/// `sqrt_floor` satisfies the square-root bracket it is named after.
pub proof fn lemma_sqrt_floor_is_sqrt(n: nat)
    ensures
        is_sqrt(n as int, sqrt_floor(n) as int),
    decreases n,
{
    if n == 0 {
    } else {
        lemma_sqrt_floor_is_sqrt((n - 1) as nat);
        let p = sqrt_floor((n - 1) as nat) as int;
        assert((p + 1) * (p + 1) < (p + 2) * (p + 2)) by (nonlinear_arith)
            requires 0 <= p;
    }
}

/// Two values inside the square-root bracket of the same `n` are equal.
pub proof fn lemma_sqrt_unique(n: int, r1: int, r2: int)
    requires
        is_sqrt(n, r1),
        is_sqrt(n, r2),
    ensures
        r1 == r2,
{
    if r1 < r2 {
        lemma_mul_inequality(r1 + 1, r2, r2);
        lemma_mul_inequality(r1 + 1, r2, r1 + 1);
    }
    if r2 < r1 {
        lemma_mul_inequality(r2 + 1, r1, r1);
        lemma_mul_inequality(r2 + 1, r1, r2 + 1);
    }
}

/// Integer square root of a 64-bit number, rounded down.
pub fn isqrt64(n: u64) -> (r: u64)
    ensures
        r == sqrt_floor(n as nat),
        is_sqrt(n as int, r as int),
{
    let mut lo: u64 = 0;
    let mut hi: u64 = 0xffff_ffff;
    while lo < hi
        invariant
            lo <= hi <= 0xffff_ffff,
            (lo as int) * (lo as int) <= n as int,
            (n as int) < (hi as int + 1) * (hi as int + 1),
        decreases hi - lo,
    {
        let mid: u64 = lo + (hi - lo + 1) / 2;
        assert(lo < mid <= hi);
        assert((mid as int) * (mid as int) <= 0xffff_ffff * 0xffff_ffff) by (nonlinear_arith)
            requires mid <= 0xffff_ffffu64;
        if mid * mid <= n {
            lo = mid;
        } else {
            hi = mid - 1;
        }
    }
    proof {
        lemma_sqrt_floor_is_sqrt(n as nat);
        lemma_sqrt_unique(n as int, lo as int, sqrt_floor(n as nat) as int);
    }
    lo
}

/// The quotient `(d * e) / dur` rounded toward zero: the exact offset along
/// one axis after `e` of the `dur` time units that a total displacement of
/// `d` takes.
pub open spec fn interp(d: int, e: int, dur: int) -> int
    recommends
        dur > 0,
        0 <= e,
{
    if d >= 0 {
        (d * e) / dur
    } else {
        -(((-d) * e) / dur)
    }
}

/// For a non-negative magnitude, the partial offset never exceeds the total
/// displacement.
proof fn lemma_muldiv_le(m: int, e: int, dur: int)
    requires
        0 <= m,
        0 <= e <= dur,
        1 <= dur,
    ensures
        0 <= (m * e) / dur <= m,
{
    lemma_mul_inequality(e, dur, m);
    assert(m * e == e * m) by (nonlinear_arith);
    assert(m * dur == dur * m) by (nonlinear_arith);
    lemma_div_is_ordered(m * e, m * dur, dur);
    lemma_div_multiples_vanish(m, dur);
    assert(0 <= m * e) by (nonlinear_arith)
        requires 0 <= m && 0 <= e;
    lemma_div_is_ordered(0, m * e, dur);
}

/// The interpolated offset lies between zero and the total displacement.
pub proof fn lemma_interp_bounds(d: int, e: int, dur: int)
    requires
        0 <= e <= dur,
        1 <= dur,
    ensures
        d >= 0 ==> 0 <= interp(d, e, dur) <= d,
        d < 0 ==> d <= interp(d, e, dur) <= 0,
{
    if d >= 0 {
        lemma_muldiv_le(d, e, dur);
    } else {
        lemma_muldiv_le(-d, e, dur);
    }
}

/// At the end of the duration the interpolation reaches the displacement
/// exactly.
pub proof fn lemma_interp_full(d: int, dur: int)
    requires
        1 <= dur,
    ensures
        interp(d, dur, dur) == d,
{
    if d >= 0 {
        lemma_div_multiples_vanish(d, dur);
    } else {
        lemma_div_multiples_vanish(-d, dur);
    }
}

/// The interpolated offset is proportional to elapsed time, to within one
/// coordinate unit: `interp(d, e, dur) * dur` differs from `d * e` by less
/// than `dur`.
pub proof fn lemma_interp_proportional(d: int, e: int, dur: int)
    requires
        0 <= e <= dur,
        1 <= dur,
    ensures
        d >= 0 ==> d * e - dur < interp(d, e, dur) * dur <= d * e,
        d < 0 ==> d * e <= interp(d, e, dur) * dur < d * e + dur,
{
    if d >= 0 {
        let q = (d * e) / dur;
        let r = (d * e) % dur;
        lemma_fundamental_div_mod(d * e, dur);
        assert(0 <= d * e) by (nonlinear_arith)
            requires 0 <= d && 0 <= e;
        assert(q * dur == d * e - r) by (nonlinear_arith)
            requires d * e == dur * q + r;
    } else {
        let m = -d;
        let q = (m * e) / dur;
        let r = (m * e) % dur;
        lemma_fundamental_div_mod(m * e, dur);
        assert(0 <= m * e) by (nonlinear_arith)
            requires 0 <= m && 0 <= e;
        assert((-q) * dur == d * e + r) by (nonlinear_arith)
            requires m * e == dur * q + r && m == -d;
        assert(d * e <= (-q) * dur < d * e + dur);
        assert(interp(d, e, dur) == -q);
    }
}

/// Offset along one axis after `e` of `dur` time units of a movement whose
/// total displacement along that axis is `d`.
pub fn scaled_offset(d: i64, e: u64, dur: u64) -> (r: i64)
    requires
        1 <= dur,
        e <= dur,
        -0x2000_0000_0000_0000 <= d <= 0x2000_0000_0000_0000,
    ensures
        r == interp(d as int, e as int, dur as int),
        d >= 0 ==> 0 <= r <= d,
        d < 0 ==> d <= r < 0 || r == 0,
{
    proof {
        lemma_interp_bounds(d as int, e as int, dur as int);
    }
    if d >= 0 {
        assert((d as int) * (e as int) <= 0x2000_0000_0000_0000 * 0xffff_ffff_ffff_ffff)
            by (nonlinear_arith)
            requires 0 <= d <= 0x2000_0000_0000_0000i64, e <= 0xffff_ffff_ffff_ffffu64;
        let prod: u128 = (d as u128) * (e as u128);
        let q: u128 = prod / (dur as u128);
        proof {
            lemma_muldiv_le(d as int, e as int, dur as int);
        }
        q as i64
    } else {
        let mag: u128 = (-(d as i128)) as u128;
        assert((mag as int) * (e as int) <= 0x2000_0000_0000_0000 * 0xffff_ffff_ffff_ffff)
            by (nonlinear_arith)
            requires mag <= 0x2000_0000_0000_0000u128, e <= 0xffff_ffff_ffff_ffffu64;
        let prod: u128 = mag * (e as u128);
        let q: u128 = prod / (dur as u128);
        proof {
            lemma_muldiv_le(-(d as int), e as int, dur as int);
        }
        -(q as i64)
    }
}

/// The quotient `n / d` rounded up.
pub open spec fn div_ceil(n: int, d: int) -> int
    recommends
        d > 0,
{
    if n % d == 0 {
        n / d
    } else {
        n / d + 1
    }
}

/// Ceiling division of 64-bit numbers.
pub fn div_ceil64(n: u64, d: u64) -> (r: u64)
    requires
        1 <= d,
    ensures
        r == div_ceil(n as int, d as int),
        n > 0 ==> r >= 1,
        r as int * d as int >= n as int,
        n == 0 ==> r == 0,
        r <= n,
{
    let q = n / d;
    let m = n % d;
    proof {
        lemma_fundamental_div_mod(n as int, d as int);
        if n > 0 && m == 0 {
            assert(q >= 1) by {
                if q == 0 {
                    assert(n as int == d as int * 0 + 0);
                }
            };
        }
        assert(q as int * d as int + m as int == n as int) by (nonlinear_arith)
            requires n as int == d as int * q as int + m as int;
        if m != 0 {
            assert((q as int + 1) * d as int == q as int * d as int + d as int)
                by (nonlinear_arith);
        }
    }
    if m == 0 {
        q
    } else {
        proof {
            vstd::arithmetic::div_mod::lemma_div_is_ordered_by_denominator(n as int, 2, d as int);
            lemma_div_is_ordered(n as int, 0xffff_ffff_ffff_ffff, 2);
        }
        q + 1
    }
}

} // verus!
