//! Integer square root and fixed-point trigonometry on micro-degrees.
//!
//! Sine and cosine take an angle in micro-degrees and give micro-units.
//! The angle is reduced modulo a full turn, mapped into the first quadrant,
//! and evaluated there by a truncated Taylor series in nano-radians; at
//! multiples of a quarter turn the results are exact.

use vstd::prelude::*;
use vstd::arithmetic::div_mod::{
    lemma_div_is_ordered, lemma_div_is_ordered_by_denominator, lemma_div_nonincreasing,
    lemma_fundamental_div_mod, lemma_fundamental_div_mod_converse_div,
    lemma_fundamental_div_mod_converse_mod,
};

verus! {

/// `r` is the integer square root of `n`.
pub open spec fn is_isqrt(n: int, r: int) -> bool {
    0 <= r && r * r <= n && n < (r + 1) * (r + 1)
}

/// The integer square root.
pub open spec fn isqrt_s(n: int) -> int {
    choose|r: int| is_isqrt(n, r)
}

pub proof fn lemma_isqrt_unique(n: int, r: int)
    requires
        is_isqrt(n, r),
    ensures
        isqrt_s(n) == r,
{
    let r2 = choose|r2: int| is_isqrt(n, r2);
    assert(is_isqrt(n, r2));
    if r2 < r {
        assert((r2 + 1) * (r2 + 1) <= r * r) by (nonlinear_arith)
            requires
                0 <= r2 + 1 <= r,
        ;
        assert(false);
    }
    if r < r2 {
        assert((r + 1) * (r + 1) <= r2 * r2) by (nonlinear_arith)
            requires
                0 <= r + 1 <= r2,
        ;
        assert(false);
    }
}

/// Binary-search integer square root.
pub fn isqrt(n: u128) -> (r: u128)
    ensures
        is_isqrt(n as int, r as int),
        r as int == isqrt_s(n as int),
{
    let mut lo: u128 = 0;
    let mut hi: u128 = 0x1_0000_0000_0000_0000;
    proof {
        assert((0x1_0000_0000_0000_0000int) * (0x1_0000_0000_0000_0000int) > u128::MAX as int)
            by (nonlinear_arith);
    }
    while lo + 1 < hi
        invariant
            lo < hi <= 0x1_0000_0000_0000_0000,
            (lo as int) * (lo as int) <= n as int,
            (n as int) < (hi as int) * (hi as int),
        decreases hi - lo,
    {
        let mid: u128 = lo + (hi - lo) / 2;
        proof {
            assert(lo < mid < hi);
            assert((mid as int) * (mid as int) < (0x1_0000_0000_0000_0000int)
                * (0x1_0000_0000_0000_0000int)) by (nonlinear_arith)
                requires
                    0 <= (mid as int) < 0x1_0000_0000_0000_0000int,
            ;
        }
        let sq: u128 = mid * mid;
        if sq <= n {
            lo = mid;
        } else {
            hi = mid;
        }
    }
    proof {
        lemma_isqrt_unique(n as int, lo as int);
    }
    lo
}

/// Euclidean remainder of an angle by a full turn of micro-degrees.
pub open spec fn emod360(a: int) -> int {
    a % 360_000_000
}

/// Reduce an angle to `[0, 360)` degrees in micro-degrees.
pub fn deg_mod(a: i64) -> (r: u64)
    ensures
        r as int == emod360(a as int),
        r < 360_000_000,
{
    if a >= 0 {
        let r = (a as u64) % 360_000_000;
        r
    } else {
        let m: u64 = ((-(a as i128)) as u64) % 360_000_000;
        proof {
            let aa = a as int;
            let mm = m as int;
            lemma_fundamental_div_mod(-aa, 360_000_000);
            let q = (-aa) / 360_000_000;
            if mm == 0 {
                lemma_fundamental_div_mod_converse_mod(aa, 360_000_000, -q, 0);
            } else {
                assert(aa == (-q - 1) * 360_000_000 + (360_000_000 - mm)) by (nonlinear_arith)
                    requires
                        -aa == q * 360_000_000 + mm,
                ;
                lemma_fundamental_div_mod_converse_mod(aa, 360_000_000, -q - 1, 360_000_000 - mm);
            }
        }
        if m == 0 {
            0
        } else {
            360_000_000 - m
        }
    }
}

/// Truncated Taylor sine on `[0, 45]` degrees (micro-degrees in,
/// micro-units out).
pub open spec fn sp(r: int) -> int {
    let t = (r * 17_453_293) / 1_000_000;
    let t2 = (t * t) / 1_000_000_000;
    let t3 = (t2 * t) / 1_000_000_000;
    let t5 = (t3 * t2) / 1_000_000_000;
    let t7 = (t5 * t2) / 1_000_000_000;
    (t - t3 / 6 + t5 / 120 - t7 / 5040) / 1000
}

/// Truncated Taylor cosine on `[0, 45]` degrees (micro-degrees in,
/// micro-units out).
pub open spec fn cp(r: int) -> int {
    let t = (r * 17_453_293) / 1_000_000;
    let t2 = (t * t) / 1_000_000_000;
    let t4 = (t2 * t2) / 1_000_000_000;
    let t6 = (t4 * t2) / 1_000_000_000;
    let t8 = (t6 * t2) / 1_000_000_000;
    (1_000_000_000 - t2 / 2 + t4 / 24 - t6 / 720 + t8 / 40320) / 1000
}

/// Sine over one quadrant, switching to the cofunction past 45 degrees.
pub open spec fn sinq(r: int) -> int {
    if r <= 45_000_000 {
        sp(r)
    } else {
        cp(90_000_000 - r)
    }
}

/// Cosine over one quadrant, switching to the cofunction past 45 degrees.
pub open spec fn cosq(r: int) -> int {
    if r <= 45_000_000 {
        cp(r)
    } else {
        sp(90_000_000 - r)
    }
}

/// Sine of an angle in micro-degrees, in micro-units.
pub open spec fn sin_deg_s(a: int) -> int {
    let m = emod360(a);
    let q = m / 90_000_000;
    let r = m % 90_000_000;
    if q == 0 {
        sinq(r)
    } else if q == 1 {
        cosq(r)
    } else if q == 2 {
        -sinq(r)
    } else {
        -cosq(r)
    }
}

/// Cosine of an angle in micro-degrees, in micro-units.
pub open spec fn cos_deg_s(a: int) -> int {
    let m = emod360(a);
    let q = m / 90_000_000;
    let r = m % 90_000_000;
    if q == 0 {
        cosq(r)
    } else if q == 1 {
        -sinq(r)
    } else if q == 2 {
        -cosq(r)
    } else {
        sinq(r)
    }
}

/// The quadrant series at zero: sine zero, cosine one, exactly.
pub proof fn lemma_sp_cp_zero()
    ensures
        sp(0) == 0,
        cp(0) == 1_000_000,
{
    assert((0int * 17_453_293) / 1_000_000 == 0) by {
        lemma_fundamental_div_mod_converse_div(0, 1_000_000, 0, 0);
    }
    assert((0int * 0) / 1_000_000_000 == 0) by {
        lemma_fundamental_div_mod_converse_div(0, 1_000_000_000, 0, 0);
    }
    assert(0int / 6 == 0 && 0int / 120 == 0 && 0int / 5040 == 0 && 0int / 1000 == 0 && 0int / 2
        == 0 && 0int / 24 == 0 && 0int / 720 == 0 && 0int / 40320 == 0) by {
        lemma_fundamental_div_mod_converse_div(0, 6, 0, 0);
        lemma_fundamental_div_mod_converse_div(0, 120, 0, 0);
        lemma_fundamental_div_mod_converse_div(0, 5040, 0, 0);
        lemma_fundamental_div_mod_converse_div(0, 1000, 0, 0);
        lemma_fundamental_div_mod_converse_div(0, 2, 0, 0);
        lemma_fundamental_div_mod_converse_div(0, 24, 0, 0);
        lemma_fundamental_div_mod_converse_div(0, 720, 0, 0);
        lemma_fundamental_div_mod_converse_div(0, 40320, 0, 0);
    }
    assert(1_000_000_000int / 1000 == 1_000_000) by {
        lemma_fundamental_div_mod_converse_div(1_000_000_000, 1000, 1_000_000, 0);
    }
}

/// The truncated Taylor sine over `[0, 45]` degrees.
fn sp_exec(r: u64) -> (s: i64)
    requires
        r <= 45_000_000,
    ensures
        s as int == sp(r as int),
        0 <= s <= 1_600_000,
{
    proof {
        assert((r as int) * 17_453_293 <= 45_000_000int * 17_453_293) by (nonlinear_arith)
            requires
                0 <= r as int <= 45_000_000,
        ;
        assert(0 <= (r as int) * 17_453_293) by (nonlinear_arith)
            requires
                0 <= r as int,
        ;
    }
    let prod: u64 = r * 17_453_293;
    let t: u64 = prod / 1_000_000;
    proof {
        lemma_div_is_ordered(prod as int, 785_398_185_000_000, 1_000_000);
        assert(785_398_185_000_000int / 1_000_000 == 785_398_185) by {
            lemma_fundamental_div_mod_converse_div(785_398_185_000_000, 1_000_000, 785_398_185, 0);
        }
        assert(t <= 785_398_185);
        assert((t as int) * (t as int) <= 785_398_185int * 785_398_185) by (nonlinear_arith)
            requires
                0 <= t as int <= 785_398_185,
        ;
    }
    let tt: u64 = t * t;
    let t2: u64 = tt / 1_000_000_000;
    proof {
        lemma_div_is_ordered(tt as int, 785_398_185int * 785_398_185, 1_000_000_000);
        assert((785_398_185int * 785_398_185) / 1_000_000_000 <= 620_000_000) by (nonlinear_arith);
        assert(t2 <= 620_000_000);
        assert((t2 as int) * (t as int) <= 1_000_000_000int * (t as int)) by (nonlinear_arith)
            requires
                0 <= t2 as int <= 1_000_000_000,
                0 <= t as int,
        ;
    }
    let t3: u64 = (t2 * t) / 1_000_000_000;
    proof {
        lemma_div_is_ordered((t2 as int) * (t as int), 1_000_000_000int * (t as int), 1_000_000_000);
        assert((1_000_000_000int * (t as int)) / 1_000_000_000 == t as int) by {
            lemma_fundamental_div_mod_converse_div(
                1_000_000_000int * (t as int),
                1_000_000_000,
                t as int,
                0,
            );
        }
        assert(t3 <= t);
        assert((t3 as int) * (t2 as int) <= (t3 as int) * 1_000_000_000) by (nonlinear_arith)
            requires
                0 <= t3 as int,
                0 <= t2 as int <= 1_000_000_000,
        ;
    }
    let t5: u64 = (t3 * t2) / 1_000_000_000;
    proof {
        lemma_div_is_ordered(
            (t3 as int) * (t2 as int),
            (t3 as int) * 1_000_000_000,
            1_000_000_000,
        );
        assert(((t3 as int) * 1_000_000_000) / 1_000_000_000 == t3 as int) by {
            lemma_fundamental_div_mod_converse_div(
                (t3 as int) * 1_000_000_000,
                1_000_000_000,
                t3 as int,
                0,
            );
        }
        assert(t5 <= t3);
        assert((t5 as int) * (t2 as int) <= (t5 as int) * 1_000_000_000) by (nonlinear_arith)
            requires
                0 <= t5 as int,
                0 <= t2 as int <= 1_000_000_000,
        ;
    }
    let t7: u64 = (t5 * t2) / 1_000_000_000;
    proof {
        lemma_div_is_ordered(
            (t5 as int) * (t2 as int),
            (t5 as int) * 1_000_000_000,
            1_000_000_000,
        );
        assert(((t5 as int) * 1_000_000_000) / 1_000_000_000 == t5 as int) by {
            lemma_fundamental_div_mod_converse_div(
                (t5 as int) * 1_000_000_000,
                1_000_000_000,
                t5 as int,
                0,
            );
        }
        assert(t7 <= t5);
    }
    let pos: u64 = t + t5 / 120;
    let neg: u64 = t3 / 6 + t7 / 5040;
    proof {
        lemma_div_nonincreasing(t3 as int, 6);
        lemma_div_is_ordered(t7 as int, t5 as int, 5040);
        lemma_div_is_ordered_by_denominator(t5 as int, 120, 5040);
        assert(neg <= pos);
        assert(pos as int - neg as int == (t as int) - (t3 as int) / 6 + (t5 as int) / 120 - (
        t7 as int) / 5040);
    }
    let s_nano: u64 = pos - neg;
    let s: u64 = s_nano / 1000;
    proof {
        lemma_div_nonincreasing(t5 as int, 120);
        assert(s_nano <= 1_600_000_000);
        lemma_div_is_ordered(s_nano as int, 1_600_000_000, 1000);
        assert(1_600_000_000int / 1000 == 1_600_000) by {
            lemma_fundamental_div_mod_converse_div(1_600_000_000, 1000, 1_600_000, 0);
        }
    }
    s as i64
}

/// The truncated Taylor cosine over `[0, 45]` degrees.
fn cp_exec(r: u64) -> (c: i64)
    requires
        r <= 45_000_000,
    ensures
        c as int == cp(r as int),
        0 <= c <= 1_600_000,
{
    proof {
        assert((r as int) * 17_453_293 <= 45_000_000int * 17_453_293) by (nonlinear_arith)
            requires
                0 <= r as int <= 45_000_000,
        ;
        assert(0 <= (r as int) * 17_453_293) by (nonlinear_arith)
            requires
                0 <= r as int,
        ;
    }
    let prod: u64 = r * 17_453_293;
    let t: u64 = prod / 1_000_000;
    proof {
        lemma_div_is_ordered(prod as int, 785_398_185_000_000, 1_000_000);
        assert(785_398_185_000_000int / 1_000_000 == 785_398_185) by {
            lemma_fundamental_div_mod_converse_div(785_398_185_000_000, 1_000_000, 785_398_185, 0);
        }
        assert(t <= 785_398_185);
        assert((t as int) * (t as int) <= 785_398_185int * 785_398_185) by (nonlinear_arith)
            requires
                0 <= t as int <= 785_398_185,
        ;
    }
    let tt: u64 = t * t;
    let t2: u64 = tt / 1_000_000_000;
    proof {
        lemma_div_is_ordered(tt as int, 785_398_185int * 785_398_185, 1_000_000_000);
        assert((785_398_185int * 785_398_185) / 1_000_000_000 <= 620_000_000) by (nonlinear_arith);
        assert(t2 <= 620_000_000);
        assert((t2 as int) * (t2 as int) <= (t2 as int) * 1_000_000_000) by (nonlinear_arith)
            requires
                0 <= t2 as int <= 1_000_000_000,
        ;
    }
    let t4: u64 = (t2 * t2) / 1_000_000_000;
    proof {
        lemma_div_is_ordered(
            (t2 as int) * (t2 as int),
            (t2 as int) * 1_000_000_000,
            1_000_000_000,
        );
        assert(((t2 as int) * 1_000_000_000) / 1_000_000_000 == t2 as int) by {
            lemma_fundamental_div_mod_converse_div(
                (t2 as int) * 1_000_000_000,
                1_000_000_000,
                t2 as int,
                0,
            );
        }
        assert(t4 <= t2);
        assert((t4 as int) * (t2 as int) <= (t4 as int) * 1_000_000_000) by (nonlinear_arith)
            requires
                0 <= t4 as int,
                0 <= t2 as int <= 1_000_000_000,
        ;
    }
    let t6: u64 = (t4 * t2) / 1_000_000_000;
    proof {
        lemma_div_is_ordered(
            (t4 as int) * (t2 as int),
            (t4 as int) * 1_000_000_000,
            1_000_000_000,
        );
        assert(((t4 as int) * 1_000_000_000) / 1_000_000_000 == t4 as int) by {
            lemma_fundamental_div_mod_converse_div(
                (t4 as int) * 1_000_000_000,
                1_000_000_000,
                t4 as int,
                0,
            );
        }
        assert(t6 <= t4);
        assert((t6 as int) * (t2 as int) <= (t6 as int) * 1_000_000_000) by (nonlinear_arith)
            requires
                0 <= t6 as int,
                0 <= t2 as int <= 1_000_000_000,
        ;
    }
    let t8: u64 = (t6 * t2) / 1_000_000_000;
    proof {
        lemma_div_is_ordered(
            (t6 as int) * (t2 as int),
            (t6 as int) * 1_000_000_000,
            1_000_000_000,
        );
        assert(((t6 as int) * 1_000_000_000) / 1_000_000_000 == t6 as int) by {
            lemma_fundamental_div_mod_converse_div(
                (t6 as int) * 1_000_000_000,
                1_000_000_000,
                t6 as int,
                0,
            );
        }
        assert(t8 <= t6);
    }
    let pos: u64 = 1_000_000_000 + t4 / 24 + t8 / 40320;
    let neg: u64 = t2 / 2 + t6 / 720;
    proof {
        lemma_div_nonincreasing(t2 as int, 2);
        lemma_div_nonincreasing(t6 as int, 720);
        assert(neg <= 620_000_000int / 2 + 620_000_000int / 720) by {
            lemma_div_is_ordered(t2 as int, 620_000_000, 2);
            lemma_div_is_ordered(t6 as int, 620_000_000, 720);
        }
        assert(neg <= pos);
        assert(pos as int - neg as int == 1_000_000_000 - (t2 as int) / 2 + (t4 as int) / 24 - (
        t6 as int) / 720 + (t8 as int) / 40320);
    }
    let c_nano: u64 = pos - neg;
    let c: u64 = c_nano / 1000;
    proof {
        lemma_div_is_ordered(t4 as int, 620_000_000, 24);
        lemma_div_is_ordered(t8 as int, 620_000_000, 40320);
        assert(620_000_000int / 24 <= 25_833_334);
        assert(620_000_000int / 40320 <= 15_377);
        assert(c_nano <= 1_000_000_000 + 25_833_334 + 15_377);
        lemma_div_is_ordered(c_nano as int, 1_600_000_000, 1000);
        assert(1_600_000_000int / 1000 == 1_600_000) by {
            lemma_fundamental_div_mod_converse_div(1_600_000_000, 1000, 1_600_000, 0);
        }
    }
    c as i64
}

/// Compute sine and cosine of an angle in micro-degrees, in micro-units.
pub fn sin_cos_deg(a: i64) -> (r: (i64, i64))
    ensures
        r.0 as int == sin_deg_s(a as int),
        r.1 as int == cos_deg_s(a as int),
        -1_600_000 <= r.0 <= 1_600_000,
        -1_600_000 <= r.1 <= 1_600_000,
{
    let m = deg_mod(a);
    let q = m / 90_000_000;
    let rr = m % 90_000_000;
    let (s_abs, c_abs) = if rr <= 45_000_000 {
        (sp_exec(rr), cp_exec(rr))
    } else {
        let co = 90_000_000 - rr;
        (cp_exec(co), sp_exec(co))
    };
    proof {
        assert(s_abs as int == sinq(rr as int));
        assert(c_abs as int == cosq(rr as int));
    }
    if q == 0 {
        (s_abs, c_abs)
    } else if q == 1 {
        (c_abs, -s_abs)
    } else if q == 2 {
        (-s_abs, -c_abs)
    } else {
        (-c_abs, s_abs)
    }
}

} // verus!
