//! Fixed-point scalar arithmetic.
//!
//! Coordinates, colors and ray parameters are carried as `i64` values scaled
//! by [`SCALE`]: the raw value `n` stands for the real number `n / SCALE`.
//! Multiplication and division therefore rescale by `SCALE` and truncate
//! toward zero, and the square root is the truncated square root of the
//! rescaled radicand.

use vstd::arithmetic::div_mod::lemma_fundamental_div_mod_converse;
use vstd::prelude::*;

verus! {

/// Scale factor of the fixed-point scalars: one unit is `SCALE` raw steps,
/// so raw values carry six decimal places.
pub const SCALE: i64 = 1000000;

/// The absolute value of `a`, as a mathematical integer.
pub open spec fn iabs(a: int) -> int {
    if a >= 0 {
        a
    } else {
        -a
    }
}

/// Division of `a` by `b` truncated toward zero, the rounding that the
/// machine division of signed integers performs.
pub open spec fn tdiv(a: int, b: int) -> int {
    if (a >= 0) == (b >= 0) {
        iabs(a) / iabs(b)
    } else {
        -(iabs(a) / iabs(b))
    }
}

/// The product of fixed-point scalars `a` and `b`: rescaled by `SCALE` and
/// truncated toward zero.
pub open spec fn fmul_spec(a: int, b: int) -> int {
    tdiv(a * b, SCALE as int)
}

/// The quotient of fixed-point scalars `a` and `b`: rescaled by `SCALE` and
/// truncated toward zero.
pub open spec fn fdiv_spec(a: int, b: int) -> int {
    tdiv(a * SCALE, b)
}

/// `r` is the square root of `x`, truncated to an integer.
pub open spec fn is_isqrt(x: int, r: int) -> bool {
    &&& r >= 0
    &&& r * r <= x
    &&& x < (r + 1) * (r + 1)
}

/// The truncated square root of `x`, built up one step at a time.
#[verifier::opaque]
pub open spec fn sqrt_spec(x: int) -> int
    decreases x,
{
    if x <= 0 {
        0
    } else {
        let r = sqrt_spec(x - 1);
        if (r + 1) * (r + 1) <= x {
            r + 1
        } else {
            r
        }
    }
}

/// `sqrt_spec` is the truncated square root of its argument.
pub proof fn lemma_sqrt_props(x: int)
    requires
        x >= 0,
    ensures
        is_isqrt(x, sqrt_spec(x)),
    decreases x,
{
    reveal_with_fuel(sqrt_spec, 2);
    if x == 0 {
        assert(is_isqrt(0, 0));
    } else {
        lemma_sqrt_props(x - 1);
        let r = sqrt_spec(x - 1);
        if (r + 1) * (r + 1) <= x {
            assert(x == (r + 1) * (r + 1));
            assert((r + 1) * (r + 1) < (r + 2) * (r + 2)) by (nonlinear_arith)
                requires
                    r >= 0,
            ;
            assert(is_isqrt(x, r + 1));
        } else {
            assert(is_isqrt(x, r));
        }
    }
}

/// Any witness of `is_isqrt` is the value of `sqrt_spec`: truncated square
/// roots are unique.
pub proof fn lemma_sqrt_val(x: int, r: int)
    requires
        is_isqrt(x, r),
    ensures
        sqrt_spec(x) == r,
{
    lemma_sqrt_props(x);
    let s = sqrt_spec(x);
    if s < r {
        assert(false) by (nonlinear_arith)
            requires
                s >= 0,
                r >= 0,
                s < r,
                r * r <= x,
                x < (s + 1) * (s + 1),
        ;
    }
    if r < s {
        assert(false) by (nonlinear_arith)
            requires
                s >= 0,
                r >= 0,
                r < s,
                s * s <= x,
                x < (r + 1) * (r + 1),
        ;
    }
}

/// Division by a positive integer is monotone in the dividend.
pub proof fn lemma_div_mono(x: int, y: int, d: int)
    requires
        0 <= x <= y,
        d >= 1,
    ensures
        x / d <= y / d,
{
    assert(x / d <= y / d) by (nonlinear_arith)
        requires
            0 <= x <= y,
            d >= 1,
    ;
}

/// Truncated division is monotone in the dividend, for a positive divisor.
pub proof fn lemma_tdiv_mono(x: int, y: int, d: int)
    requires
        x <= y,
        d >= 1,
    ensures
        tdiv(x, d) <= tdiv(y, d),
{
    if x >= 0 {
        lemma_div_mono(x, y, d);
    } else if y >= 0 {
        lemma_div_le(-x, d);
        lemma_div_le(y, d);
    } else {
        lemma_div_mono(-y, -x, d);
    }
}

/// A fixed-point product of bounded factors is bounded by the rescaled
/// product of the bounds.
pub proof fn lemma_fmul_bound(a: int, b: int, bound_a: int, bound_b: int)
    requires
        iabs(a) <= bound_a,
        iabs(b) <= bound_b,
    ensures
        iabs(fmul_spec(a, b)) <= (bound_a * bound_b) / (SCALE as int),
        iabs(fmul_spec(a, b)) <= bound_a * bound_b,
{
    lemma_mul_le(a, b, bound_a, bound_b);
    lemma_abs_mul(a, b);
    assert(iabs(fmul_spec(a, b)) == iabs(a * b) / (SCALE as int));
    lemma_div_mono(iabs(a * b), bound_a * bound_b, SCALE as int);
    lemma_div_le(bound_a * bound_b, SCALE as int);
}

/// A fixed-point product of factors bounded by multiples of the scale is
/// bounded by the product of the multiples, rescaled.
pub proof fn lemma_fmul_bound_scaled(a: int, b: int, ka: int, kb: int)
    requires
        iabs(a) <= ka * SCALE,
        iabs(b) <= kb * SCALE,
        ka >= 0,
        kb >= 0,
    ensures
        iabs(fmul_spec(a, b)) <= (ka * kb) * SCALE,
{
    lemma_fmul_bound(a, b, ka * SCALE, kb * SCALE);
    assert((ka * SCALE) * (kb * SCALE) == SCALE * ((ka * kb) * SCALE)) by (nonlinear_arith);
    assert((ka * kb) * SCALE >= 0) by (nonlinear_arith)
        requires
            ka >= 0,
            kb >= 0,
            SCALE >= 0,
    ;
    lemma_scale_cancel((ka * kb) * SCALE);
}

/// Dividing a rescaled value by the scale gives the value back.
pub proof fn lemma_scale_cancel(b: int)
    requires
        b >= 0,
    ensures
        (SCALE * b) / (SCALE as int) == b,
{
    lemma_fundamental_div_mod_converse(SCALE * b, SCALE as int, b, 0);
}

/// Division of a nonnegative integer is antitone in a positive divisor.
pub proof fn lemma_div_antitone(x: int, d1: int, d2: int)
    requires
        x >= 0,
        0 < d1 <= d2,
    ensures
        x / d2 <= x / d1,
{
    assert(x / d2 <= x / d1) by (nonlinear_arith)
        requires
            x >= 0,
            0 < d1 <= d2,
    ;
}

/// The fixed-point square of any scalar is nonnegative.
pub proof fn lemma_fsq_nonneg(a: int)
    ensures
        fmul_spec(a, a) >= 0,
{
    assert(a * a >= 0) by (nonlinear_arith);
    lemma_div_le(iabs(a * a), SCALE as int);
}

/// The magnitudes of two factors multiply to the magnitude of the product.
pub proof fn lemma_abs_mul(a: int, b: int)
    ensures
        iabs(a * b) == iabs(a) * iabs(b),
{
    assert(iabs(a * b) == iabs(a) * iabs(b)) by (nonlinear_arith);
}

/// The sign of a product follows the signs of its factors.
pub proof fn lemma_mul_sign(a: int, b: int)
    ensures
        ((a < 0) != (b < 0)) ==> a * b <= 0,
        ((a < 0) == (b < 0)) ==> a * b >= 0,
        a * b != 0 ==> a != 0 && b != 0,
{
    assert(((a < 0) != (b < 0)) ==> a * b <= 0) by (nonlinear_arith);
    assert(((a < 0) == (b < 0)) ==> a * b >= 0) by (nonlinear_arith);
    assert(a * b != 0 ==> a != 0 && b != 0) by (nonlinear_arith);
}

/// A product of bounded factors is bounded by the product of the bounds.
pub proof fn lemma_mul_le(a: int, b: int, bound_a: int, bound_b: int)
    requires
        iabs(a) <= bound_a,
        iabs(b) <= bound_b,
    ensures
        iabs(a * b) <= bound_a * bound_b,
{
    assert(-(bound_a * bound_b) <= a * b <= bound_a * bound_b) by (nonlinear_arith)
        requires
            -bound_a <= a <= bound_a,
            -bound_b <= b <= bound_b,
    ;
}

/// Division of a nonnegative integer by a positive one is monotone in the
/// dividend and never grows past the dividend.
pub proof fn lemma_div_le(a: int, b: int)
    requires
        a >= 0,
        b >= 1,
    ensures
        0 <= a / b <= a,
{
    assert(0 <= a / b <= a) by (nonlinear_arith)
        requires
            a >= 0,
            b >= 1,
    ;
}

/// Truncated division shrinks magnitudes: `|tdiv(a, b)| <= |a|` for `b != 0`.
pub proof fn lemma_tdiv_le(a: int, b: int)
    requires
        b != 0,
    ensures
        iabs(tdiv(a, b)) <= iabs(a),
        tdiv(a, b) >= 0 <== a >= 0 && b > 0,
{
    lemma_div_le(iabs(a), iabs(b));
}

/// A nonnegative root bounded in square is bounded in magnitude.
pub proof fn lemma_root_lt(r: int, x: int, b: int)
    requires
        r >= 0,
        b >= 0,
        r * r <= x,
        x < b * b,
    ensures
        r < b,
{
    assert(r < b) by (nonlinear_arith)
        requires
            r >= 0,
            b >= 0,
            r * r <= x,
            x < b * b,
    ;
}

/// Two unsigned machine words always multiply without overflowing a
/// double-width word.
pub proof fn lemma_u64_mul_fits(x: int, y: int)
    requires
        0 <= x <= u64::MAX,
        0 <= y <= u64::MAX,
    ensures
        0 <= x * y <= u128::MAX,
{
    assert(0 <= x * y <= u128::MAX) by (nonlinear_arith)
        requires
            0 <= x <= u64::MAX,
            0 <= y <= u64::MAX,
    ;
}

/// The magnitude of `a`, lifted into an unsigned machine word.
fn abs64(a: i64) -> (r: u64)
    ensures
        r == iabs(a as int),
{
    if a >= 0 {
        a as u64
    } else {
        (-(a as i128)) as u64
    }
}

/// Reapplies a sign to a magnitude.
fn apply_sign(mag: u64, neg: bool) -> (r: i64)
    requires
        mag <= i64::MAX,
    ensures
        r == if neg {
            -(mag as int)
        } else {
            mag as int
        },
{
    if neg {
        -(mag as i64)
    } else {
        mag as i64
    }
}

/// The shared magnitude-and-sign step of `fmul` and `fdiv`: given the
/// magnitude quotient `q == iabs(n) / iabs(d)` of a truncated division
/// `tdiv(n, d)` whose magnitude fits an `i64`, rebuilds the signed result.
fn signed_quotient(q: u128, n: Ghost<int>, d: Ghost<int>, neg: bool) -> (r: i64)
    requires
        d@ != 0,
        q == iabs(n@) / iabs(d@),
        iabs(tdiv(n@, d@)) <= i64::MAX,
        neg ==> ((n@ < 0) != (d@ < 0)),
        ((n@ < 0) != (d@ < 0)) && q > 0 ==> neg,
    ensures
        r == tdiv(n@, d@),
{
    proof {
        lemma_div_le(iabs(n@), iabs(d@));
        assert(iabs(tdiv(n@, d@)) == iabs(n@) / iabs(d@));
    }
    let mag: u64 = q as u64;
    proof {
        if mag == 0 {
            assert(tdiv(n@, d@) == 0);
        }
    }
    apply_sign(mag, neg && mag > 0)
}

/// Fixed-point multiplication: `a * b / SCALE`, truncated toward zero.
pub fn fmul(a: i64, b: i64) -> (r: i64)
    requires
        iabs(fmul_spec(a as int, b as int)) <= i64::MAX,
    ensures
        r == fmul_spec(a as int, b as int),
{
    let ua: u64 = abs64(a);
    let ub: u64 = abs64(b);
    proof {
        lemma_abs_mul(a as int, b as int);
        lemma_mul_sign(a as int, b as int);
        lemma_u64_mul_fits(ua as int, ub as int);
    }
    let prod: u128 = (ua as u128) * (ub as u128);
    let q: u128 = prod / (SCALE as u128);
    proof {
        assert(prod == iabs(a as int * b as int));
        assert(q == iabs(a as int * b as int) / iabs(SCALE as int));
        if q > 0 {
            assert(iabs(a as int * b as int) > 0) by {
                lemma_div_le(iabs(a as int * b as int), iabs(SCALE as int));
            }
        }
    }
    signed_quotient(
        q,
        Ghost(a as int * b as int),
        Ghost(SCALE as int),
        (a < 0) != (b < 0) && q > 0,
    )
}

/// Fixed-point division: `a * SCALE / b`, truncated toward zero.
pub fn fdiv(a: i64, b: i64) -> (r: i64)
    requires
        b != 0,
        iabs(fdiv_spec(a as int, b as int)) <= i64::MAX,
    ensures
        r == fdiv_spec(a as int, b as int),
{
    let ua: u64 = abs64(a);
    let ub: u64 = abs64(b);
    proof {
        lemma_abs_mul(a as int, SCALE as int);
        lemma_mul_sign(a as int, SCALE as int);
        lemma_u64_mul_fits(ua as int, SCALE as int);
    }
    let num: u128 = (ua as u128) * (SCALE as u128);
    let q: u128 = num / (ub as u128);
    proof {
        assert(num == iabs(a as int * SCALE));
        assert(q == iabs(a as int * SCALE) / iabs(b as int));
        if q > 0 {
            assert(iabs(a as int * SCALE) > 0) by {
                lemma_div_le(iabs(a as int * SCALE), iabs(b as int));
            }
        }
        if a as int * SCALE < 0 {
            assert(a < 0);
        }
    }
    signed_quotient(q, Ghost(a as int * SCALE), Ghost(b as int), (a < 0) != (b < 0) && q > 0)
}

/// The magnitude of `a`, lifted into an unsigned double-width word.
fn abs128(a: i128) -> (r: u128)
    ensures
        r == iabs(a as int),
{
    if a >= 0 {
        a as u128
    } else {
        ((-1 - a) as u128) + 1
    }
}

/// Truncating division on double-width words, the semantics of machine
/// division of signed integers.
pub fn div_t(a: i128, b: i128) -> (r: i128)
    requires
        b != 0,
        iabs(tdiv(a as int, b as int)) <= i128::MAX,
    ensures
        r == tdiv(a as int, b as int),
{
    let ua: u128 = abs128(a);
    let ub: u128 = abs128(b);
    let q: u128 = ua / ub;
    proof {
        lemma_div_le(iabs(a as int), iabs(b as int));
        assert(iabs(tdiv(a as int, b as int)) == q);
    }
    if (a < 0) != (b < 0) && q > 0 {
        -(q as i128)
    } else {
        q as i128
    }
}

/// The square root of `x` truncated to an integer, by bisection.
pub fn isqrt(x: u128) -> (r: u128)
    ensures
        is_isqrt(x as int, r as int),
{
    let mut lo: u128 = 0;
    let mut hi: u128 = if x >= 0xffff_ffff_ffff_ffff {
        0x1_0000_0000_0000_0000
    } else {
        x + 1
    };
    proof {
        if x >= 0xffff_ffff_ffff_ffff {
            assert(x < hi * hi) by (nonlinear_arith)
                requires
                    hi == 0x1_0000_0000_0000_0000u128 as int,
                    x <= u128::MAX,
            ;
        } else {
            assert(x < hi * hi) by (nonlinear_arith)
                requires
                    hi == x + 1,
                    x >= 0,
            ;
        }
    }
    while lo + 1 < hi
        invariant
            lo < hi,
            hi <= 0x1_0000_0000_0000_0000,
            lo * lo <= x,
            x < hi * hi,
        decreases hi - lo,
    {
        let mid: u128 = lo + (hi - lo) / 2;
        proof {
            assert(mid * mid <= u128::MAX) by (nonlinear_arith)
                requires
                    mid < 0x1_0000_0000_0000_0000u128,
                    mid >= 0,
            ;
        }
        if mid * mid <= x {
            lo = mid;
        } else {
            hi = mid;
        }
    }
    lo
}

/// Fixed-point square root: the truncated square root of `x * SCALE`, so
/// that the result is again a fixed-point scalar.
pub fn fsqrt(x: i64) -> (r: i64)
    requires
        x >= 0,
    ensures
        is_isqrt(x as int * SCALE, r as int),
        r >= 0,
{
    proof {
        assert(x as int * SCALE <= i64::MAX as int * SCALE) by (nonlinear_arith)
            requires
                0 <= x <= i64::MAX,
                SCALE > 0,
        ;
    }
    let rad: u128 = (x as u128) * (SCALE as u128);
    let root: u128 = isqrt(rad);
    proof {
        lemma_root_lt(root as int, rad as int, 0x6000_0000_0000i64 as int);
    }
    root as i64
}

/// Clamps `x` into the closed interval `[min, max]`.
pub fn clamp(x: i64, min: i64, max: i64) -> (r: i64)
    requires
        min <= max,
    ensures
        r == if x > max {
            max
        } else if x < min {
            min
        } else {
            x
        },
{
    if x > max {
        return max;
    }
    if x < min {
        return min;
    }
    x
}

} // verus!
