//! Colors: three channels meant to lie in `[0, 1]`, with accumulation,
//! attenuation, blending, and the gamma-corrected 8-bit conversion.
//!
//! Out-of-range channel values handed to [`Rgb::new`] are clamped: that is
//! this crate's one uniform policy for them.  The
//! plain [`Rgb::add`] does not clamp, so a color can accumulate sample sums
//! beyond 1 before being divided back down.

use vstd::prelude::*;
use crate::fixed::{
    SCALE, fmul, fdiv, isqrt, fits64, fmul_fits, fdiv_fits, fx_mul, fx_div, isqrt_u128,
};
use crate::vec3d::{Vec3d, V3, v3};

verus! {

/// Mathematical view of a color.
pub ghost struct C3 {
    pub r: int,
    pub g: int,
    pub b: int,
}

/// A channel clamped into the unit range.
pub open spec fn clamp01(x: int) -> int {
    if x < 0 {
        0
    } else if x > SCALE as int {
        SCALE as int
    } else {
        x
    }
}

/// The color built from three channel values, each clamped.
pub open spec fn newc(r: int, g: int, b: int) -> C3 {
    C3 { r: clamp01(r), g: clamp01(g), b: clamp01(b) }
}

/// Channel-wise sum (accumulation; not clamped).
pub open spec fn addc(a: C3, b: C3) -> C3 {
    C3 { r: a.r + b.r, g: a.g + b.g, b: a.b + b.b }
}

/// Every channel scaled by `k`, then clamped.
pub open spec fn mulc_scalar(a: C3, k: int) -> C3 {
    newc(fmul(a.r, k), fmul(a.g, k), fmul(a.b, k))
}

/// Every channel divided by `k`, then clamped.
pub open spec fn divc_scalar(a: C3, k: int) -> C3 {
    newc(fdiv(a.r, k), fdiv(a.g, k), fdiv(a.b, k))
}

/// Channel-wise attenuation by a vector, then clamped.
pub open spec fn mulc_vec(a: C3, v: V3) -> C3 {
    newc(fmul(a.r, v.x), fmul(a.g, v.y), fmul(a.b, v.z))
}

/// Linear interpolation: `a * (1 - ratio) + b * ratio`.
pub open spec fn blendc(a: C3, b: C3, ratio: int) -> C3 {
    addc(mulc_scalar(a, SCALE as int - ratio), mulc_scalar(b, ratio))
}

/// Every channel lies in the unit range.
pub open spec fn c3_in_range(c: C3) -> bool {
    0 <= c.r <= SCALE as int && 0 <= c.g <= SCALE as int && 0 <= c.b <= SCALE as int
}

/// One channel converted to 8 bits: the nearest integer to
/// `255 * sqrt(c / SCALE)`, clamped into `[0, 255]` (negative channels give 0,
/// channels above 1 saturate at 255).  260100 is `(2 * 255)^2`, so
/// `isqrt(c * 260100)` is `510 * sqrt(c)` rounded down and the final division
/// by 512 performs the rounding to nearest.
pub open spec fn rescale_spec(c: int) -> int {
    if c <= 0 {
        0
    } else {
        let q: int = (isqrt(c * 260100) + 256) / 512;
        if q > 255 {
            255
        } else {
            q
        }
    }
}

/// A color; channels are scaled scalars meant to lie in `[0, 1]`.
#[derive(Clone, Copy, PartialEq, Eq, Structural, Debug)]
pub struct Rgb {
    pub r: i64,
    pub g: i64,
    pub b: i64,
}

/// Mathematical view of an `Rgb`.
pub open spec fn c3(c: Rgb) -> C3 {
    C3 { r: c.r as int, g: c.g as int, b: c.b as int }
}

/// One channel clamped into the unit range.
fn clamp_channel(x: i64) -> (r: i64)
    ensures
        r as int == clamp01(x as int),
{
    if x < 0 {
        0
    } else if x > 65536 {
        65536
    } else {
        x
    }
}

/// One channel converted to 8 bits, exactly per `rescale_spec`.
pub fn rescale(c: i64) -> (r: u8)
    ensures
        r as int == rescale_spec(c as int),
{
    if c <= 0 {
        0
    } else {
        let n: u128 = (c as u128) * 260100;
        let s: u128 = isqrt_u128(n);
        proof {
            assert((s as int) < 0x400_0000_0000int) by (nonlinear_arith)
                requires
                    s as int >= 0,
                    (s as int) * (s as int) <= n as int,
                    (n as int) < 0x10_0000_0000_0000_0000_0000int;
        }
        let q: u128 = (s + 256) / 512;
        if q > 255 {
            255
        } else {
            q as u8
        }
    }
}

impl Rgb {
    /// Channels are clamped into the unit range (the crate's uniform policy
    /// for out-of-range channel values).
    pub fn new(r: i64, g: i64, b: i64) -> (c: Rgb)
        ensures
            c3(c) == newc(r as int, g as int, b as int),
            c3_in_range(c3(c)),
    {
        Rgb { r: clamp_channel(r), g: clamp_channel(g), b: clamp_channel(b) }
    }

    /// Plain channel-wise sum, for accumulating samples.
    pub fn add(self, rhs: Self) -> (c: Rgb)
        requires
            fits64(c3(self).r + c3(rhs).r),
            fits64(c3(self).g + c3(rhs).g),
            fits64(c3(self).b + c3(rhs).b),
        ensures
            c3(c) == addc(c3(self), c3(rhs)),
    {
        Rgb { r: self.r + rhs.r, g: self.g + rhs.g, b: self.b + rhs.b }
    }

    /// Multiplication by a scalar (clamped).
    pub fn mul_scalar(self, k: i64) -> (c: Rgb)
        requires
            fmul_fits(c3(self).r, k as int),
            fmul_fits(c3(self).g, k as int),
            fmul_fits(c3(self).b, k as int),
        ensures
            c3(c) == mulc_scalar(c3(self), k as int),
            c3_in_range(c3(c)),
    {
        Rgb::new(fx_mul(self.r, k), fx_mul(self.g, k), fx_mul(self.b, k))
    }

    /// Division by a scalar (clamped).
    pub fn div_scalar(self, k: i64) -> (c: Rgb)
        requires
            k != 0,
            fdiv_fits(c3(self).r, k as int),
            fdiv_fits(c3(self).g, k as int),
            fdiv_fits(c3(self).b, k as int),
        ensures
            c3(c) == divc_scalar(c3(self), k as int),
            c3_in_range(c3(c)),
    {
        Rgb::new(fx_div(self.r, k), fx_div(self.g, k), fx_div(self.b, k))
    }

    /// Channel-wise attenuation by a vector (clamped).
    pub fn mul_vec(self, rhs: Vec3d) -> (c: Rgb)
        requires
            fmul_fits(c3(self).r, v3(rhs).x),
            fmul_fits(c3(self).g, v3(rhs).y),
            fmul_fits(c3(self).b, v3(rhs).z),
        ensures
            c3(c) == mulc_vec(c3(self), v3(rhs)),
            c3_in_range(c3(c)),
    {
        Rgb::new(fx_mul(self.r, rhs.x()), fx_mul(self.g, rhs.y()), fx_mul(self.b, rhs.z()))
    }

    /// Linear interpolation toward `other` by `ratio`.
    pub fn blend(self, other: Rgb, ratio: i64) -> (c: Rgb)
        requires
            c3_in_range(c3(self)),
            c3_in_range(c3(other)),
            -0x2000_0000_0000 <= ratio as int <= 0x2000_0000_0000,
        ensures
            c3(c) == blendc(c3(self), c3(other), ratio as int),
    {
        proof {
            crate::fixed::lemma_fmul_abs(c3(self).r, SCALE as int - ratio as int, SCALE as int, 0x2000_0100_0000);
            crate::fixed::lemma_fmul_abs(c3(self).g, SCALE as int - ratio as int, SCALE as int, 0x2000_0100_0000);
            crate::fixed::lemma_fmul_abs(c3(self).b, SCALE as int - ratio as int, SCALE as int, 0x2000_0100_0000);
            crate::fixed::lemma_fmul_abs(c3(other).r, ratio as int, SCALE as int, 0x2000_0000_0000);
            crate::fixed::lemma_fmul_abs(c3(other).g, ratio as int, SCALE as int, 0x2000_0000_0000);
            crate::fixed::lemma_fmul_abs(c3(other).b, ratio as int, SCALE as int, 0x2000_0000_0000);
        }
        let inv: i64 = 65536 - ratio;
        self.mul_scalar(inv).add(other.mul_scalar(ratio))
    }

    /// The color as one 8-bit value per channel, gamma-corrected.
    pub fn as_color(self) -> (c: (u8, u8, u8))
        ensures
            c.0 as int == rescale_spec(c3(self).r),
            c.1 as int == rescale_spec(c3(self).g),
            c.2 as int == rescale_spec(c3(self).b),
    {
        (rescale(self.r), rescale(self.g), rescale(self.b))
    }
}

} // verus!
