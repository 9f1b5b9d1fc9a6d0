//! Fixed-point scalars in micro-units.
//!
//! A scalar value is an `i64` counting millionths: the value `1.5` is stored
//! as `1_500_000`. Every operation saturates at `FX_MAX` micro-units in
//! magnitude, so a well-formed scalar always satisfies [`fx_ok`] and no
//! arithmetic here can overflow or panic.

use vstd::prelude::*;

verus! {

/// Micro-units per whole unit.
pub const SCALE: i64 = 1_000_000;

/// Largest magnitude a scalar may take, in micro-units (one billion units).
pub const FX_MAX: i64 = 1_000_000_000_000_000;

/// A well-formed scalar: within the saturation bounds.
pub open spec fn fx_ok(a: int) -> bool {
    -(FX_MAX as int) <= a <= FX_MAX as int
}

/// Clamp a mathematical value into the scalar range.
pub open spec fn sat(v: int) -> int {
    if v > FX_MAX as int {
        FX_MAX as int
    } else if v < -(FX_MAX as int) {
        -(FX_MAX as int)
    } else {
        v
    }
}

/// Division truncated toward zero, for a positive divisor.
pub open spec fn tdiv(a: int, b: int) -> int
    recommends
        b > 0,
{
    if a >= 0 {
        a / b
    } else {
        -((-a) / b)
    }
}

/// Saturating addition of two scalars.
pub open spec fn fx_add_s(a: int, b: int) -> int {
    sat(a + b)
}

/// Saturating product of two scalars: the exact product rescaled to
/// micro-units, truncated toward zero.
pub open spec fn fx_mul_s(a: int, b: int) -> int {
    sat(tdiv(a * b, SCALE as int))
}

/// Quantization of a scalar to four decimal digits: micro-units divided by
/// one hundred, truncated toward zero.
pub open spec fn quant_s(a: int) -> int {
    tdiv(a, 100)
}

pub fn fx_add(a: i64, b: i64) -> (r: i64)
    requires
        fx_ok(a as int),
        fx_ok(b as int),
    ensures
        r as int == fx_add_s(a as int, b as int),
        fx_ok(r as int),
{
    let s: i64 = a + b;
    if s > FX_MAX {
        FX_MAX
    } else if s < -FX_MAX {
        -FX_MAX
    } else {
        s
    }
}

pub fn fx_neg(a: i64) -> (r: i64)
    requires
        fx_ok(a as int),
    ensures
        r as int == -(a as int),
        fx_ok(r as int),
{
    -a
}

pub fn fx_mul(a: i64, b: i64) -> (r: i64)
    requires
        fx_ok(a as int),
        fx_ok(b as int),
    ensures
        r as int == fx_mul_s(a as int, b as int),
        fx_ok(r as int),
{
    proof {
        assert((a as int) * (b as int) <= (FX_MAX as int) * (FX_MAX as int)
            && -((FX_MAX as int) * (FX_MAX as int)) <= (a as int) * (b as int)) by (nonlinear_arith)
            requires
                fx_ok(a as int),
                fx_ok(b as int),
        ;
    }
    let p: i128 = (a as i128) * (b as i128);
    if p >= 0 {
        let m: u128 = p as u128;
        let q: u128 = m / (SCALE as u128);
        let qc: i64 = if q > FX_MAX as u128 {
            FX_MAX
        } else {
            q as i64
        };
        qc
    } else {
        let m: u128 = (-p) as u128;
        let q: u128 = m / (SCALE as u128);
        let qc: i64 = if q > FX_MAX as u128 {
            FX_MAX
        } else {
            q as i64
        };
        -qc
    }
}

/// Scale a component of a vector by micro-units and divide by the vector's
/// length, truncating toward zero; for normalizing an axis.
pub fn fx_scale_div(a: i64, b: i64) -> (r: i64)
    requires
        b > 0,
        -b <= a <= b,
    ensures
        r as int == tdiv(a as int * SCALE as int, b as int),
        -SCALE <= r <= SCALE,
{
    proof {
        assert(a as int * SCALE as int <= b as int * SCALE as int && -(b as int * SCALE as int)
            <= a as int * SCALE as int) by (nonlinear_arith)
            requires
                -(b as int) <= a as int <= b as int,
                b > 0,
        ;
    }
    if a >= 0 {
        let m: u128 = (a as u128) * (SCALE as u128);
        let q: u128 = m / (b as u128);
        proof {
            vstd::arithmetic::div_mod::lemma_div_is_ordered(
                m as int,
                b as int * SCALE as int,
                b as int,
            );
            assert((b as int * SCALE as int) / (b as int) == SCALE as int) by {
                vstd::arithmetic::div_mod::lemma_fundamental_div_mod_converse_div(
                    b as int * SCALE as int,
                    b as int,
                    SCALE as int,
                    0,
                );
            }
        }
        q as i64
    } else {
        let m: u128 = ((-(a as i128)) as u128) * (SCALE as u128);
        let q: u128 = m / (b as u128);
        proof {
            vstd::arithmetic::div_mod::lemma_div_is_ordered(
                m as int,
                b as int * SCALE as int,
                b as int,
            );
            assert((b as int * SCALE as int) / (b as int) == SCALE as int) by {
                vstd::arithmetic::div_mod::lemma_fundamental_div_mod_converse_div(
                    b as int * SCALE as int,
                    b as int,
                    SCALE as int,
                    0,
                );
            }
            assert(-(a as int * SCALE as int) == (-(a as int)) * SCALE as int) by (nonlinear_arith);
        }
        -(q as i64)
    }
}

/// Quantize a scalar to four decimal digits (micro-units over one hundred,
/// truncated toward zero), for building vertex deduplication keys.
pub fn quant(a: i64) -> (r: i64)
    ensures
        r as int == quant_s(a as int),
{
    if a >= 0 {
        let q: u64 = (a as u64) / 100;
        q as i64
    } else {
        let m: u64 = (-(a as i128)) as u64;
        let q: u64 = m / 100;
        -(q as i64)
    }
}

} // verus!
