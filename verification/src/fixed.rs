//! Signed 64-bit fixed-point scalars with 32 fractional bits.
//!
//! A scalar value `r` is stored as the integer `round_toward_zero(r * 2^32)`.
//! All solver arithmetic is defined over this representation so that every
//! operation has an exact integer meaning: addition and subtraction saturate
//! at the representable range, products and quotients round toward zero.

use vstd::prelude::*;
use vstd::arithmetic::div_mod::lemma_fundamental_div_mod;
use vstd::arithmetic::div_mod::lemma_fundamental_div_mod_converse_div;
use vstd::arithmetic::div_mod::lemma_fundamental_div_mod_converse_mod;
use vstd::arithmetic::div_mod::lemma_div_multiples_vanish;

verus! {

/// The fixed-point representation of 1.0: one whole unit, `2^32`.
pub const ONE: i64 = 0x1_0000_0000;

/// The fixed-point representation of 0.5.
pub const HALF: i64 = 0x8000_0000;

/// The fixed-point representation of 0.25.
pub const QUARTER: i64 = 0x4000_0000;

/// The fixed-point representation of 4.0.
pub const FOUR: i64 = 0x4_0000_0000;

/// Saturate a mathematical integer into the `i64` range.
pub open spec fn clip(x: int) -> int {
    if x > i64::MAX {
        i64::MAX as int
    } else if x < i64::MIN {
        i64::MIN as int
    } else {
        x
    }
}

/// Absolute value of a mathematical integer.
pub open spec fn absi(x: int) -> int {
    if x < 0 {
        -x
    } else {
        x
    }
}

/// Quotient rounded toward zero (the rounding used by all scalar products
/// and quotients). `b` must not be 0.
pub open spec fn tdiv(a: int, b: int) -> int {
    let q = absi(a) / absi(b);
    if (a < 0) <==> (b < 0) {
        q
    } else {
        -q
    }
}

/// Saturating fixed-point addition.
pub open spec fn fix_add(a: int, b: int) -> int {
    clip(a + b)
}

/// Saturating fixed-point subtraction.
pub open spec fn fix_sub(a: int, b: int) -> int {
    clip(a - b)
}

/// Fixed-point product: the full integer product, scaled back down by one
/// unit, rounding toward zero, then saturated.
pub open spec fn fix_mul(a: int, b: int) -> int {
    clip(tdiv(a * b, ONE as int))
}

/// Fixed-point quotient, rounding toward zero, saturated. A zero divisor
/// yields 0: the solver accepts arbitrary coefficients and propagates
/// degenerate values silently rather than failing.
pub open spec fn fix_div(a: int, b: int) -> int {
    if b == 0 {
        0
    } else {
        clip(tdiv(a * (ONE as int), b))
    }
}

/// Narrow an `i128` back into `i64`, saturating.
fn clamp128(x: i128) -> (r: i64)
    ensures
        r == clip(x as int),
{
    if x > i64::MAX as i128 {
        i64::MAX
    } else if x < i64::MIN as i128 {
        i64::MIN
    } else {
        x as i64
    }
}

/// Truncating division of an `i128` by a positive divisor.
fn tdiv128(n: i128, d: i128) -> (r: i128)
    requires
        d > 0,
        n > i128::MIN,
    ensures
        r == tdiv(n as int, d as int),
        absi(r as int) <= absi(n as int),
{
    if n >= 0 {
        let q: u128 = (n as u128) / (d as u128);
        assert(q == (n as int) / (d as int));
        assert((n as int) / (d as int) <= (n as int)) by (nonlinear_arith)
            requires
                n >= 0,
                d > 0,
        ;
        q as i128
    } else {
        let m: u128 = (-n) as u128;
        let q: u128 = m / (d as u128);
        assert(q == (m as int) / (d as int));
        assert((m as int) / (d as int) <= (m as int)) by (nonlinear_arith)
            requires
                (m as int) >= 0,
                d > 0,
        ;
        -(q as i128)
    }
}

/// Saturating fixed-point addition.
pub fn fadd(a: i64, b: i64) -> (r: i64)
    ensures
        r == fix_add(a as int, b as int),
{
    clamp128(a as i128 + b as i128)
}

/// Saturating fixed-point subtraction.
pub fn fsub(a: i64, b: i64) -> (r: i64)
    ensures
        r == fix_sub(a as int, b as int),
{
    clamp128(a as i128 - b as i128)
}

/// Fixed-point product.
pub fn fmul(a: i64, b: i64) -> (r: i64)
    ensures
        r == fix_mul(a as int, b as int),
{
    proof {
        assert((a as int) * (b as int) <= 0x4000_0000_0000_0000_0000_0000_0000_0000) by (nonlinear_arith)
            requires
                -0x8000_0000_0000_0000 <= (a as int) && (a as int) <= 0x7fff_ffff_ffff_ffff,
                -0x8000_0000_0000_0000 <= (b as int) && (b as int) <= 0x7fff_ffff_ffff_ffff,
        ;
        assert((a as int) * (b as int) >= -0x4000_0000_0000_0000_0000_0000_0000_0000) by (nonlinear_arith)
            requires
                -0x8000_0000_0000_0000 <= (a as int) && (a as int) <= 0x7fff_ffff_ffff_ffff,
                -0x8000_0000_0000_0000 <= (b as int) && (b as int) <= 0x7fff_ffff_ffff_ffff,
        ;
    }
    let p: i128 = (a as i128) * (b as i128);
    clamp128(tdiv128(p, ONE as i128))
}

/// Fixed-point quotient. A zero divisor yields 0.
pub fn fdiv(a: i64, b: i64) -> (r: i64)
    ensures
        r == fix_div(a as int, b as int),
{
    if b == 0 {
        0
    } else {
        proof {
            assert((a as int) * (ONE as int) <= 0x8000_0000_0000_0000_0000_0000) by (nonlinear_arith)
                requires
                    (a as int) <= 0x7fff_ffff_ffff_ffff,
                    ONE == 0x1_0000_0000,
            ;
            assert((a as int) * (ONE as int) >= -0x8000_0000_0000_0000_0000_0000) by (nonlinear_arith)
                requires
                    (a as int) >= -0x8000_0000_0000_0000,
                    ONE == 0x1_0000_0000,
            ;
        }
        let n: i128 = (a as i128) * (ONE as i128);
        if b > 0 {
            clamp128(tdiv128(n, b as i128))
        } else {
            let q: i128 = tdiv128(n, -(b as i128));
            proof {
                lemma_tdiv_neg_divisor(n as int, b as int);
            }
            clamp128(-q)
        }
    }
}

/// Flipping the sign of the divisor flips the sign of a truncating quotient.
proof fn lemma_tdiv_neg_divisor(a: int, b: int)
    requires
        b < 0,
    ensures
        tdiv(a, b) == -tdiv(a, -b),
{
    assert(absi(b) == absi(-b));
}

/// Embed a small integer as a fixed-point scalar, exactly.
pub fn from_int(n: i64) -> (r: i64)
    requires
        -0x8000_0000 <= n <= 0x7fff_ffff,
    ensures
        r == n * (ONE as int),
{
    n * ONE
}

/// Split a fixed-point scalar into its floor (a plain integer) and its
/// fractional part (a fixed-point scalar in `[0, 1)`), so that
/// `s == r.0 * ONE + r.1`. The floor rounds toward negative infinity.
pub fn floor_fix(s: i64) -> (r: (i64, i64))
    ensures
        r.0 == s as int / (ONE as int),
        r.1 == s as int % (ONE as int),
        s == r.0 * (ONE as int) + r.1,
        0 <= r.1 < ONE,
{
    if s >= 0 {
        let q: u64 = (s as u64) / (ONE as u64);
        let f: u64 = (s as u64) % (ONE as u64);
        proof {
            lemma_fundamental_div_mod(s as int, ONE as int);
        }
        (q as i64, f as i64)
    } else {
        let m: u64 = (-(s as i128)) as u64;
        let qm: u64 = m / (ONE as u64);
        let rm: u64 = m % (ONE as u64);
        proof {
            lemma_fundamental_div_mod(m as int, ONE as int);
        }
        if rm == 0 {
            let q: i64 = -(qm as i64);
            proof {
                assert(s as int == q * (ONE as int) + 0);
                lemma_fundamental_div_mod_converse_div(s as int, ONE as int, q as int, 0);
                lemma_fundamental_div_mod_converse_mod(s as int, ONE as int, q as int, 0);
            }
            (q, 0)
        } else {
            let q: i64 = -(qm as i64) - 1;
            let f: i64 = (ONE as u64 - rm) as i64;
            proof {
                assert(s as int == q * (ONE as int) + f);
                lemma_fundamental_div_mod_converse_div(s as int, ONE as int, q as int, f as int);
                lemma_fundamental_div_mod_converse_mod(s as int, ONE as int, q as int, f as int);
            }
            (q, f)
        }
    }
}

/// Convert a whole-seconds/nanoseconds pair (as a `std::time::Duration`
/// decomposes) into a fixed-point scalar of seconds, saturating.
pub fn seconds_to_fix(secs: u64, nanos: u32) -> (r: i64)
    requires
        nanos < 1_000_000_000,
    ensures
        r == clip(secs * (ONE as int) + tdiv(nanos * (ONE as int), 1_000_000_000)),
{
    proof {
        assert((nanos as int) * (ONE as int) < 0x4000_0000_0000_0000) by (nonlinear_arith)
            requires
                0 <= (nanos as int) && (nanos as int) < 1_000_000_000,
        ;
    }
    let frac: u64 = ((nanos as u64) * (ONE as u64)) / 1_000_000_000;
    if secs >= 0x8000_0000 {
        proof {
            assert((secs as int) * (ONE as int) >= 0x8000_0000_0000_0000) by (nonlinear_arith)
                requires
                    (secs as int) >= 0x8000_0000,
            ;
        }
        i64::MAX
    } else {
        proof {
            assert((secs as int) * (ONE as int) <= 0x7fff_ffff * (ONE as int)) by (nonlinear_arith)
                requires
                    0 <= (secs as int) && (secs as int) <= 0x7fff_ffff,
            ;
        }
        (secs as i64) * ONE + (frac as i64)
    }
}

/// Adding zero is the identity (on representable values).
pub proof fn lemma_fix_add_zero(a: i64)
    ensures
        fix_add(a as int, 0) == a,
{
}

/// Subtracting zero is the identity (on representable values).
pub proof fn lemma_fix_sub_zero(a: i64)
    ensures
        fix_sub(a as int, 0) == a,
{
}

/// A zero factor annihilates a fixed-point product, whatever the other
/// factor is.
pub proof fn lemma_fix_mul_zero(b: int)
    ensures
        fix_mul(0, b) == 0,
        fix_mul(b, 0) == 0,
{
    assert(0 * b == 0) by (nonlinear_arith);
    assert(b * 0 == 0) by (nonlinear_arith);
}

/// Multiplying a representable value by 1.0 is the identity.
pub proof fn lemma_fix_mul_one(b: i64)
    ensures
        fix_mul(ONE as int, b as int) == b,
{
    let c = ONE as int;
    if b >= 0 {
        assert(c * (b as int) == absi(c * b)) by (nonlinear_arith)
            requires
                b >= 0,
                c > 0,
        ;
        lemma_div_multiples_vanish(b as int, c);
        assert(absi(c * b) / absi(c) == b);
    } else {
        assert(absi(c * (b as int)) == c * (-(b as int))) by (nonlinear_arith)
            requires
                b < 0,
                c > 0,
        ;
        lemma_div_multiples_vanish(-(b as int), c);
        assert(absi(c * b) / absi(c) == -(b as int));
    }
}

/// Dividing a representable value by 1.0 is the identity.
pub proof fn lemma_fix_div_one(a: i64)
    ensures
        fix_div(a as int, ONE as int) == a,
{
    let c = ONE as int;
    if a >= 0 {
        assert((a as int) * c == c * (a as int)) by (nonlinear_arith);
        assert(absi((a as int) * c) == c * (a as int)) by (nonlinear_arith)
            requires
                a >= 0,
                c > 0,
        ;
        lemma_div_multiples_vanish(a as int, c);
    } else {
        assert(absi((a as int) * c) == c * (-(a as int))) by (nonlinear_arith)
            requires
                a < 0,
                c > 0,
        ;
        lemma_div_multiples_vanish(-(a as int), c);
    }
}

/// A zero numerator yields a zero quotient, whatever the divisor is.
pub proof fn lemma_fix_div_zero(b: int)
    ensures
        fix_div(0, b) == 0,
{
    if b != 0 {
        assert(0 * (ONE as int) == 0) by (nonlinear_arith);
    }
}

} // verus!
