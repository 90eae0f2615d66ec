//! Scaled-integer scalar arithmetic.
//!
//! A scalar `x: i64` stands for the real number `x / SCALE`.  Multiplication,
//! division and square root are defined with truncation toward zero, and the
//! executable helpers here compute them exactly (through 128-bit
//! intermediates), as their contracts state.

use vstd::prelude::*;
use vstd::arithmetic::div_mod::*;
use vstd::arithmetic::mul::*;

verus! {

/// Number of raw units in 1.0: a scalar `x` stands for the real number `x / SCALE`.
pub const SCALE: i64 = 65536;

/// Magnitude of an integer.
pub open spec fn absi(a: int) -> int {
    if a < 0 {
        -a
    } else {
        a
    }
}

/// Division rounding toward zero, the rounding every scaled-integer operation
/// of this crate uses (the plain spec-level `/` rounds toward minus infinity).
pub open spec fn tdiv(a: int, b: int) -> int
    recommends
        b != 0,
{
    if (a < 0) == (b < 0) {
        absi(a) / absi(b)
    } else {
        -(absi(a) / absi(b))
    }
}

/// Product of two scaled values, scaled back down.
pub open spec fn fmul(a: int, b: int) -> int {
    tdiv(a * b, SCALE as int)
}

/// Quotient of two scaled values as a scaled value.
pub open spec fn fdiv(a: int, b: int) -> int {
    tdiv(a * (SCALE as int), b)
}

/// Integer square root: the largest `r >= 0` with `r * r <= n` (0 for `n < 0`).
pub open spec fn isqrt(n: int) -> int
    decreases n,
{
    if n <= 0 {
        0
    } else if (isqrt(n - 1) + 1) * (isqrt(n - 1) + 1) <= n {
        isqrt(n - 1) + 1
    } else {
        isqrt(n - 1)
    }
}

/// Square root of a scaled value as a scaled value (rounded down).
pub open spec fn fsqrt(a: int) -> int {
    isqrt(a * (SCALE as int))
}

/// `isqrt` is the floor of the real square root.
pub proof fn lemma_isqrt_props(n: int)
    ensures
        isqrt(n) >= 0,
        n >= 0 ==> isqrt(n) * isqrt(n) <= n,
        n < (isqrt(n) + 1) * (isqrt(n) + 1),
    decreases n,
{
    if n <= 0 {
    } else {
        lemma_isqrt_props(n - 1);
        let r: int = isqrt(n - 1);
        if (r + 1) * (r + 1) <= n {
            assert((r + 1) * (r + 1) + 1 <= (r + 2) * (r + 2)) by (nonlinear_arith)
                requires
                    r >= 0;
        }
    }
}

/// Any `r` in the floor-square-root window of `n` is `isqrt(n)`.
pub proof fn lemma_isqrt_unique(n: int, r: int)
    requires
        0 <= r,
        r * r <= n,
        n < (r + 1) * (r + 1),
    ensures
        r == isqrt(n),
{
    lemma_isqrt_props(n);
    let q: int = isqrt(n);
    assert(q <= r) by (nonlinear_arith)
        requires
            q >= 0,
            r >= 0,
            q * q <= n,
            n < (r + 1) * (r + 1);
    assert(r <= q) by (nonlinear_arith)
        requires
            q >= 0,
            r >= 0,
            r * r <= n,
            n < (q + 1) * (q + 1);
}

/// `isqrt` does not decrease when its argument grows.
pub proof fn lemma_isqrt_ordered(m: int, n: int)
    requires
        m <= n,
    ensures
        isqrt(m) <= isqrt(n),
{
    if m <= 0 {
        lemma_isqrt_props(n);
    } else {
        lemma_isqrt_props(m);
        lemma_isqrt_props(n);
        let a: int = isqrt(m);
        let b: int = isqrt(n);
        assert(a <= b) by (nonlinear_arith)
            requires
                a >= 0,
                b >= 0,
                a * a <= m,
                m <= n,
                n < (b + 1) * (b + 1);
    }
}

/// Basic magnitude and sign facts about truncating division.
pub proof fn lemma_tdiv_abs(a: int, b: int)
    requires
        b != 0,
    ensures
        absi(tdiv(a, b)) == absi(a) / absi(b),
        absi(tdiv(a, b)) <= absi(a),
        a >= 0 && b > 0 ==> tdiv(a, b) == a / b && tdiv(a, b) >= 0,
        tdiv(-a, b) == -tdiv(a, b),
{
    lemma_div_pos_is_pos(absi(a), absi(b));
    lemma_div_nonincreasing(absi(a), absi(b));
}

/// A magnitude bound on the dividend carries over to a truncating quotient.
pub proof fn lemma_tdiv_bound(a: int, b: int, m: int)
    requires
        b >= 1,
        absi(a) <= m,
    ensures
        absi(tdiv(a, b)) <= m / b <= m,
{
    lemma_tdiv_abs(a, b);
    lemma_div_is_ordered(absi(a), m, b);
    lemma_div_nonincreasing(m, b);
}

/// Magnitude bounds on both factors bound the magnitude of the product.
pub proof fn lemma_mul_abs(a: int, b: int, x: int, y: int)
    requires
        absi(a) <= x,
        absi(b) <= y,
    ensures
        absi(a * b) <= x * y,
{
    assert(absi(a * b) <= x * y) by (nonlinear_arith)
        requires
            absi(a) <= x,
            absi(b) <= y;
}

/// Magnitude bounds on both factors bound a scaled product.
pub proof fn lemma_fmul_abs(a: int, b: int, x: int, y: int)
    requires
        absi(a) <= x,
        absi(b) <= y,
    ensures
        absi(fmul(a, b)) <= (x * y) / (SCALE as int) <= x * y,
{
    lemma_mul_abs(a, b, x, y);
    lemma_tdiv_bound(a * b, SCALE as int, x * y);
}

/// Scaling a nonnegative value by a factor in `[0, 1]` keeps it in `[0, value]`.
pub proof fn lemma_fmul_range01(a: int, b: int)
    requires
        0 <= a,
        0 <= b <= SCALE as int,
    ensures
        0 <= fmul(a, b) <= a,
{
    assert(a * b <= a * (SCALE as int)) by (nonlinear_arith)
        requires
            0 <= a,
            b <= SCALE as int;
    lemma_mul_nonnegative(a, b);
    lemma_tdiv_abs(a * b, SCALE as int);
    lemma_div_is_ordered(a * b, a * (SCALE as int), SCALE as int);
    lemma_div_multiples_vanish(a, SCALE as int);
}

/// Truncating division on 128-bit values.
pub fn tdiv128(a: i128, b: i128) -> (r: i128)
    requires
        b != 0,
        a != i128::MIN,
        b != i128::MIN,
    ensures
        r == tdiv(a as int, b as int),
{
    let ua: u128 = if a < 0 {
        (-a) as u128
    } else {
        a as u128
    };
    let ub: u128 = if b < 0 {
        (-b) as u128
    } else {
        b as u128
    };
    let q: u128 = ua / ub;
    proof {
        assert(ua == absi(a as int));
        assert(ub == absi(b as int));
        lemma_div_pos_is_pos(ua as int, ub as int);
        lemma_div_nonincreasing(ua as int, ub as int);
    }
    if (a < 0) != (b < 0) {
        -(q as i128)
    } else {
        q as i128
    }
}

/// Floor square root on 128-bit unsigned values, by binary search.
pub fn isqrt_u128(n: u128) -> (r: u128)
    ensures
        r == isqrt(n as int),
        (r as int) * (r as int) <= n as int,
        n < (r as int + 1) * (r as int + 1),
{
    let mut lo: u128 = 0;
    let mut hi: u128 = 0xFFFF_FFFF_FFFF_FFFF;
    proof {
        assert((0x1_0000_0000_0000_0000int) * (0x1_0000_0000_0000_0000int) > n as int)
            by (nonlinear_arith)
            requires
                n <= u128::MAX;
    }
    while lo < hi
        invariant
            lo <= hi,
            hi <= 0xFFFF_FFFF_FFFF_FFFF,
            (lo as int) * (lo as int) <= n as int,
            (n as int) < (hi as int + 1) * (hi as int + 1),
        decreases hi - lo,
    {
        let mid: u128 = lo + (hi - lo + 1) / 2;
        proof {
            assert((mid as int) * (mid as int) <= u128::MAX)
                by (nonlinear_arith)
                requires
                    mid <= 0xFFFF_FFFF_FFFF_FFFFu128;
        }
        if mid * mid <= n {
            lo = mid;
        } else {
            hi = mid - 1;
        }
    }
    proof {
        lemma_isqrt_unique(n as int, lo as int);
    }
    lo
}

/// Scaled product on `i64` scalars, exact per `fmul`.
pub fn fx_mul(a: i64, b: i64) -> (r: i64)
    requires
        -0x7FFF_FFFF_FFFF_FFFF <= fmul(a as int, b as int) <= 0x7FFF_FFFF_FFFF_FFFF,
    ensures
        r as int == fmul(a as int, b as int),
{
    proof {
        lemma_mul_abs(a as int, b as int, 0x8000_0000_0000_0000int, 0x8000_0000_0000_0000int);
    }
    let p: i128 = (a as i128) * (b as i128);
    let q: i128 = tdiv128(p, 65536);
    q as i64
}

/// Scaled quotient on `i64` scalars, exact per `fdiv`.
pub fn fx_div(a: i64, b: i64) -> (r: i64)
    requires
        b != 0,
        -0x7FFF_FFFF_FFFF_FFFF <= fdiv(a as int, b as int) <= 0x7FFF_FFFF_FFFF_FFFF,
    ensures
        r as int == fdiv(a as int, b as int),
{
    let p: i128 = (a as i128) * 65536;
    let q: i128 = tdiv128(p, b as i128);
    q as i64
}

/// Scaled square root on `i64` scalars, exact per `fsqrt`.
pub fn fx_sqrt(a: i64) -> (r: i64)
    requires
        0 <= a,
    ensures
        r as int == fsqrt(a as int),
        r >= 0,
{
    let n: u128 = (a as u128) * 65536;
    let s: u128 = isqrt_u128(n);
    proof {
        assert((s as int) < 0x100_0000_0000int) by (nonlinear_arith)
            requires
                s as int >= 0,
                (s as int) * (s as int) <= n as int,
                (n as int) < 0x1_0000_0000_0000_0000_0000int;
    }
    s as i64
}

/// Plain integer division on nonnegative `i64` values.
pub fn idiv64(a: i64, b: i64) -> (r: i64)
    requires
        0 <= a,
        1 <= b,
    ensures
        r == a as int / b as int,
{
    let q: u64 = (a as u64) / (b as u64);
    proof {
        lemma_div_pos_is_pos(a as int, b as int);
        lemma_div_nonincreasing(a as int, b as int);
    }
    q as i64
}


/// Scaling by 1.0 is exact: `fmul(SCALE, a) == a`.
pub proof fn lemma_fmul_by_one(a: int)
    ensures
        fmul(SCALE as int, a) == a,
{
    lemma_div_multiples_vanish(absi(a), 65536);
    assert(absi(65536 * a) == 65536 * absi(a)) by (nonlinear_arith);
}

/// The value fits in an `i64`.
pub open spec fn fits64(a: int) -> bool {
    i64::MIN <= a <= i64::MAX
}

/// The scaled product of `a` and `b` fits in an `i64`.
pub open spec fn fmul_fits(a: int, b: int) -> bool {
    -0x7FFF_FFFF_FFFF_FFFF <= fmul(a, b) <= 0x7FFF_FFFF_FFFF_FFFF
}

/// The scaled quotient of `a` by `b` fits in an `i64`.
pub open spec fn fdiv_fits(a: int, b: int) -> bool {
    -0x7FFF_FFFF_FFFF_FFFF <= fdiv(a, b) <= 0x7FFF_FFFF_FFFF_FFFF
}

} // verus!

