//! 3-component vectors of scaled-integer scalars.
//!
//! A `Vec3d` serves as a point, a direction and an RGB triple alike.  The
//! ghost type [`V3`] is its unbounded mathematical counterpart; every
//! operation's contract states the exact resulting [`V3`].

use vstd::prelude::*;
use vstd::arithmetic::mul::lemma_mul_is_commutative;
use crate::fixed::{
    SCALE, absi, tdiv, fmul, fdiv, fsqrt, fits64, fmul_fits, fdiv_fits, fx_mul, fx_div, fx_sqrt,
    tdiv128, lemma_tdiv_abs, lemma_tdiv_bound, lemma_mul_abs, lemma_fmul_abs, lemma_fmul_range01,
    lemma_isqrt_unique, lemma_isqrt_ordered,
};
use crate::rng::random_unit_fraction;

verus! {

/// Mathematical (unbounded) view of a vector.
pub ghost struct V3 {
    pub x: int,
    pub y: int,
    pub z: int,
}

/// Component-wise sum.
pub open spec fn addv(a: V3, b: V3) -> V3 {
    V3 { x: a.x + b.x, y: a.y + b.y, z: a.z + b.z }
}

/// Component-wise difference.
pub open spec fn subv(a: V3, b: V3) -> V3 {
    V3 { x: a.x - b.x, y: a.y - b.y, z: a.z - b.z }
}

/// Component-wise negation.
pub open spec fn negv(a: V3) -> V3 {
    V3 { x: -a.x, y: -a.y, z: -a.z }
}

/// Component-wise scaled product.
pub open spec fn mulv(a: V3, b: V3) -> V3 {
    V3 { x: fmul(a.x, b.x), y: fmul(a.y, b.y), z: fmul(a.z, b.z) }
}

/// Component-wise scaled quotient.
pub open spec fn divvv(a: V3, b: V3) -> V3 {
    V3 { x: fdiv(a.x, b.x), y: fdiv(a.y, b.y), z: fdiv(a.z, b.z) }
}

/// Every component scaled by the scalar `k`.
pub open spec fn scalev(a: V3, k: int) -> V3 {
    V3 { x: fmul(a.x, k), y: fmul(a.y, k), z: fmul(a.z, k) }
}

/// Every component divided by the scalar `k`.
pub open spec fn divsv(a: V3, k: int) -> V3 {
    V3 { x: fdiv(a.x, k), y: fdiv(a.y, k), z: fdiv(a.z, k) }
}

/// The scalar `k` added to every component.
pub open spec fn addsv(a: V3, k: int) -> V3 {
    V3 { x: a.x + k, y: a.y + k, z: a.z + k }
}

/// Scaled dot product.
pub open spec fn dotv(a: V3, b: V3) -> int {
    tdiv(a.x * b.x + a.y * b.y + a.z * b.z, SCALE as int)
}

/// Cross product, with the components evaluated as the executable code does.
pub open spec fn crossv(a: V3, b: V3) -> V3 {
    V3 {
        x: fmul(a.y, b.z) - fmul(a.z, b.y),
        y: -(fmul(a.x, b.z) - fmul(a.z, b.x)),
        z: fmul(a.x, b.y) - fmul(a.y, b.x),
    }
}

/// Scaled squared length.
pub open spec fn lsqv(a: V3) -> int {
    dotv(a, a)
}

/// Scaled length (square root of the squared length, rounded down).
pub open spec fn lenv(a: V3) -> int {
    fsqrt(lsqv(a))
}

/// The vector divided by its own length.
pub open spec fn unitv(a: V3) -> V3 {
    divsv(a, lenv(a))
}

/// Every component has magnitude at most `m`.
pub open spec fn boundedv(a: V3, m: int) -> bool {
    absi(a.x) <= m && absi(a.y) <= m && absi(a.z) <= m
}

/// Every component fits in an `i64`.
pub open spec fn fitsv(a: V3) -> bool {
    fits64(a.x) && fits64(a.y) && fits64(a.z)
}

/// A squared length is never negative.
pub proof fn lemma_lsqv_nonneg(a: V3)
    ensures
        lsqv(a) >= 0,
{
    assert(a.x * a.x >= 0) by (nonlinear_arith);
    assert(a.y * a.y >= 0) by (nonlinear_arith);
    assert(a.z * a.z >= 0) by (nonlinear_arith);
    lemma_tdiv_abs(a.x * a.x + a.y * a.y + a.z * a.z, SCALE as int);
}

/// Component bounds give a bound on the squared length.
pub proof fn lemma_lsqv_abs(a: V3, m: int)
    requires
        boundedv(a, m),
        0 <= m,
    ensures
        0 <= lsqv(a) <= (m * m + m * m + m * m) / 65536,
{
    lemma_lsqv_nonneg(a);
    lemma_mul_abs(a.x, a.x, m, m);
    lemma_mul_abs(a.y, a.y, m, m);
    lemma_mul_abs(a.z, a.z, m, m);
    lemma_tdiv_bound(a.x * a.x + a.y * a.y + a.z * a.z, SCALE as int, m * m + m * m + m * m);
}

/// Component bounds on both vectors bound the dot product.
pub proof fn lemma_dotv_abs(a: V3, b: V3, ma: int, mb: int)
    requires
        boundedv(a, ma),
        boundedv(b, mb),
        0 <= ma,
        0 <= mb,
    ensures
        absi(dotv(a, b)) <= (ma * mb + ma * mb + ma * mb) / 65536,
{
    lemma_mul_abs(a.x, b.x, ma, mb);
    lemma_mul_abs(a.y, b.y, ma, mb);
    lemma_mul_abs(a.z, b.z, ma, mb);
    lemma_tdiv_bound(a.x * b.x + a.y * b.y + a.z * b.z, SCALE as int, ma * mb + ma * mb + ma * mb);
}

/// A vector of squared length at least 1 has length at least 256.
pub proof fn lemma_lenv_lower(a: V3)
    requires
        lsqv(a) >= 1,
    ensures
        lenv(a) >= 256,
{
    let n: int = lsqv(a);
    assert(n * 65536 >= 65536) by (nonlinear_arith)
        requires
            n >= 1;
    lemma_isqrt_unique(65536, 256);
    lemma_isqrt_ordered(65536, n * 65536);
}

/// Magnitude bound on the components of a unit vector, from the components of
/// the vector itself.
pub proof fn lemma_unitv_abs(a: V3)
    requires
        lsqv(a) >= 1,
    ensures
        absi(unitv(a).x) <= absi(a.x) * 65536,
        absi(unitv(a).y) <= absi(a.y) * 65536,
        absi(unitv(a).z) <= absi(a.z) * 65536,
{
    lemma_lenv_lower(a);
    assert(absi(a.x * 65536) == absi(a.x) * 65536) by (nonlinear_arith);
    assert(absi(a.y * 65536) == absi(a.y) * 65536) by (nonlinear_arith);
    assert(absi(a.z * 65536) == absi(a.z) * 65536) by (nonlinear_arith);
    lemma_tdiv_bound(a.x * 65536, lenv(a), absi(a.x) * 65536);
    lemma_tdiv_bound(a.y * 65536, lenv(a), absi(a.y) * 65536);
    lemma_tdiv_bound(a.z * 65536, lenv(a), absi(a.z) * 65536);
}

/// Mathematical view of an optional vector.
pub open spec fn opt_v3(o: Option<Vec3d>) -> Option<V3> {
    match o {
        Some(v) => Some(v3(v)),
        None => None,
    }
}

/// Scaling a positive value by a factor strictly below 1 lands strictly
/// below the value.
pub proof fn lemma_fmul_below_factor(a: int, d: int)
    requires
        0 <= a < SCALE as int,
        1 <= d,
    ensures
        fmul(a, d) < d,
{
    assert(a * d <= 65535 * d) by (nonlinear_arith)
        requires
            a <= 65535,
            0 <= d;
    lemma_tdiv_abs(a * d, SCALE as int);
    vstd::arithmetic::mul::lemma_mul_nonnegative(a, d);
    vstd::arithmetic::div_mod::lemma_div_is_ordered(a * d, 65535 * d, 65536);
    vstd::arithmetic::div_mod::lemma_multiply_divide_lt(65535 * d, 65536, d);
}

/// A 3-vector of scaled-integer scalars.
#[derive(Clone, Copy, PartialEq, Eq, Structural, Debug)]
pub struct Vec3d {
    pub x: i64,
    pub y: i64,
    pub z: i64,
}

/// Mathematical view of a `Vec3d`.
pub open spec fn v3(v: Vec3d) -> V3 {
    V3 { x: v.x as int, y: v.y as int, z: v.z as int }
}

impl Vec3d {
    pub fn new(x: i64, y: i64, z: i64) -> (r: Self)
        ensures
            v3(r) == (V3 { x: x as int, y: y as int, z: z as int }),
    {
        Vec3d { x, y, z }
    }

    pub fn x(self) -> (r: i64)
        ensures
            r as int == v3(self).x,
    {
        self.x
    }

    pub fn y(self) -> (r: i64)
        ensures
            r as int == v3(self).y,
    {
        self.y
    }

    pub fn z(self) -> (r: i64)
        ensures
            r as int == v3(self).z,
    {
        self.z
    }

    pub fn add(self, rhs: Self) -> (r: Self)
        requires
            fitsv(addv(v3(self), v3(rhs))),
        ensures
            v3(r) == addv(v3(self), v3(rhs)),
    {
        Vec3d { x: self.x + rhs.x, y: self.y + rhs.y, z: self.z + rhs.z }
    }

    pub fn sub(self, rhs: Self) -> (r: Self)
        requires
            fitsv(subv(v3(self), v3(rhs))),
        ensures
            v3(r) == subv(v3(self), v3(rhs)),
    {
        Vec3d { x: self.x - rhs.x, y: self.y - rhs.y, z: self.z - rhs.z }
    }

    pub fn neg(self) -> (r: Self)
        requires
            fitsv(negv(v3(self))),
        ensures
            v3(r) == negv(v3(self)),
    {
        Vec3d { x: -self.x, y: -self.y, z: -self.z }
    }

    /// Component-wise product.
    pub fn mul(self, rhs: Self) -> (r: Self)
        requires
            fmul_fits(v3(self).x, v3(rhs).x),
            fmul_fits(v3(self).y, v3(rhs).y),
            fmul_fits(v3(self).z, v3(rhs).z),
        ensures
            v3(r) == mulv(v3(self), v3(rhs)),
    {
        Vec3d { x: fx_mul(self.x, rhs.x), y: fx_mul(self.y, rhs.y), z: fx_mul(self.z, rhs.z) }
    }

    /// Component-wise quotient.
    pub fn div(self, rhs: Self) -> (r: Self)
        requires
            rhs.x != 0,
            rhs.y != 0,
            rhs.z != 0,
            fdiv_fits(v3(self).x, v3(rhs).x),
            fdiv_fits(v3(self).y, v3(rhs).y),
            fdiv_fits(v3(self).z, v3(rhs).z),
        ensures
            v3(r) == divvv(v3(self), v3(rhs)),
    {
        Vec3d { x: fx_div(self.x, rhs.x), y: fx_div(self.y, rhs.y), z: fx_div(self.z, rhs.z) }
    }

    /// Multiplication by a scalar.
    pub fn scale(self, k: i64) -> (r: Self)
        requires
            fmul_fits(v3(self).x, k as int),
            fmul_fits(v3(self).y, k as int),
            fmul_fits(v3(self).z, k as int),
        ensures
            v3(r) == scalev(v3(self), k as int),
    {
        Vec3d { x: fx_mul(self.x, k), y: fx_mul(self.y, k), z: fx_mul(self.z, k) }
    }

    /// Division by a scalar.
    pub fn div_scalar(self, k: i64) -> (r: Self)
        requires
            k != 0,
            fdiv_fits(v3(self).x, k as int),
            fdiv_fits(v3(self).y, k as int),
            fdiv_fits(v3(self).z, k as int),
        ensures
            v3(r) == divsv(v3(self), k as int),
    {
        Vec3d { x: fx_div(self.x, k), y: fx_div(self.y, k), z: fx_div(self.z, k) }
    }

    /// Addition of a scalar to every component.
    pub fn add_scalar(self, k: i64) -> (r: Self)
        requires
            fitsv(addsv(v3(self), k as int)),
        ensures
            v3(r) == addsv(v3(self), k as int),
    {
        Vec3d { x: self.x + k, y: self.y + k, z: self.z + k }
    }

    pub fn dot(self, other: Self) -> (r: i64)
        requires
            boundedv(v3(self), 0x2000_0000_0000_0000),
            boundedv(v3(other), 0x2000_0000_0000_0000),
            fits64(dotv(v3(self), v3(other))),
        ensures
            r as int == dotv(v3(self), v3(other)),
    {
        proof {
            lemma_mul_abs(self.x as int, other.x as int, 0x2000_0000_0000_0000, 0x2000_0000_0000_0000);
            lemma_mul_abs(self.y as int, other.y as int, 0x2000_0000_0000_0000, 0x2000_0000_0000_0000);
            lemma_mul_abs(self.z as int, other.z as int, 0x2000_0000_0000_0000, 0x2000_0000_0000_0000);
        }
        let p: i128 = (self.x as i128) * (other.x as i128) + (self.y as i128) * (other.y as i128)
            + (self.z as i128) * (other.z as i128);
        let q: i128 = tdiv128(p, 65536);
        proof {
            lemma_tdiv_abs(p as int, 65536);
        }
        q as i64
    }

    pub fn dot_with_self(self) -> (r: i64)
        requires
            boundedv(v3(self), 0x2000_0000_0000_0000),
            fits64(lsqv(v3(self))),
        ensures
            r as int == lsqv(v3(self)),
            r >= 0,
    {
        proof {
            lemma_lsqv_nonneg(v3(self));
        }
        self.dot(self)
    }

    /// Scaled squared length.
    pub fn length_squared(self) -> (r: i64)
        requires
            boundedv(v3(self), 0x2000_0000_0000_0000),
            fits64(lsqv(v3(self))),
        ensures
            r as int == lsqv(v3(self)),
            r >= 0,
    {
        self.dot_with_self()
    }

    /// Scaled length.
    pub fn length(self) -> (r: i64)
        requires
            boundedv(v3(self), 0x2000_0000_0000_0000),
            fits64(lsqv(v3(self))),
        ensures
            r as int == lenv(v3(self)),
            r >= 0,
    {
        let sq: i64 = self.length_squared();
        fx_sqrt(sq)
    }

    pub fn cross(self, other: Self) -> (r: Self)
        requires
            boundedv(v3(self), 0x40_0000_0000),
            boundedv(v3(other), 0x40_0000_0000),
        ensures
            v3(r) == crossv(v3(self), v3(other)),
    {
        proof {
            lemma_fmul_abs(self.y as int, other.z as int, 0x40_0000_0000, 0x40_0000_0000);
            lemma_fmul_abs(self.z as int, other.y as int, 0x40_0000_0000, 0x40_0000_0000);
            lemma_fmul_abs(self.x as int, other.z as int, 0x40_0000_0000, 0x40_0000_0000);
            lemma_fmul_abs(self.z as int, other.x as int, 0x40_0000_0000, 0x40_0000_0000);
            lemma_fmul_abs(self.x as int, other.y as int, 0x40_0000_0000, 0x40_0000_0000);
            lemma_fmul_abs(self.y as int, other.x as int, 0x40_0000_0000, 0x40_0000_0000);
        }
        let a: Vec3d = self;
        let b: Vec3d = other;
        Vec3d {
            x: fx_mul(a.y, b.z) - fx_mul(a.z, b.y),
            y: -(fx_mul(a.x, b.z) - fx_mul(a.z, b.x)),
            z: fx_mul(a.x, b.y) - fx_mul(a.y, b.x),
        }
    }

    /// The vector divided by its own length.
    pub fn unit_vector(self) -> (r: Self)
        requires
            boundedv(v3(self), 0x40_0000_0000),
            lsqv(v3(self)) >= 1,
        ensures
            v3(r) == unitv(v3(self)),
    {
        proof {
            lemma_lsqv_abs(v3(self), 0x40_0000_0000);
            lemma_lenv_lower(v3(self));
            lemma_unitv_abs(v3(self));
        }
        let len: i64 = self.length();
        self.div_scalar(len)
    }

    /// Rescales `self` to unit length in place, by dividing each component
    /// by the length, exactly as `unit_vector` does.
    pub fn make_unit_vector(&mut self)
        requires
            boundedv(v3(*old(self)), 0x40_0000_0000),
            lsqv(v3(*old(self))) >= 1,
        ensures
            v3(*final(self)) == unitv(v3(*old(self))),
    {
        proof {
            lemma_lsqv_abs(v3(*old(self)), 0x40_0000_0000);
            lemma_lenv_lower(v3(*old(self)));
            lemma_unitv_abs(v3(*old(self)));
        }
        let len: i64 = self.length();
        self.x = fx_div(self.x, len);
        self.y = fx_div(self.y, len);
        self.z = fx_div(self.z, len);
    }

    /// A vector with each component drawn uniformly from `[0, 1)`.
    pub fn random() -> (r: Self)
        ensures
            0 <= v3(r).x < SCALE as int,
            0 <= v3(r).y < SCALE as int,
            0 <= v3(r).z < SCALE as int,
    {
        Vec3d { x: random_unit_fraction(), y: random_unit_fraction(), z: random_unit_fraction() }
    }

    /// A vector with each component drawn from `[min, max)` (the degenerate
    /// range `min == max` gives `min`).
    pub fn random_range(min: i64, max: i64) -> (r: Self)
        requires
            min <= max,
            absi(min as int) <= 0x2000_0000_0000,
            absi(max as int) <= 0x2000_0000_0000,
        ensures
            (min as int) <= v3(r).x <= max as int,
            (min as int) <= v3(r).y <= max as int,
            (min as int) <= v3(r).z <= max as int,
            min < max ==> v3(r).x < max as int && v3(r).y < max as int && v3(r).z < max as int,
    {
        let rv: Vec3d = Self::random();
        let d: i64 = max - min;
        proof {
            lemma_mul_is_commutative(rv.x as int, d as int);
            lemma_mul_is_commutative(rv.y as int, d as int);
            lemma_mul_is_commutative(rv.z as int, d as int);
            lemma_fmul_range01(d as int, rv.x as int);
            lemma_fmul_range01(d as int, rv.y as int);
            lemma_fmul_range01(d as int, rv.z as int);
            if min < max {
                lemma_fmul_below_factor(rv.x as int, d as int);
                lemma_fmul_below_factor(rv.y as int, d as int);
                lemma_fmul_below_factor(rv.z as int, d as int);
            }
        }
        rv.scale(d).add_scalar(min)
    }

    /// A vector of squared length below 1, found by rejection sampling over
    /// the cube `[-1, 1]^3`.  The number of draws is capped (the cap is all
    /// but unreachable: each draw succeeds with probability about 0.52); when
    /// every draw has been rejected, the center of the sphere is returned.
    pub fn random_in_unit_sphere() -> (r: Self)
        ensures
            0 <= lsqv(v3(r)) < SCALE as int,
            boundedv(v3(r), SCALE as int),
    {
        let mut tries: u32 = 0;
        while tries < 64
            invariant
                tries <= 64,
            decreases 64 - tries,
        {
            let point: Vec3d = Self::random_range(-65536, 65536);
            proof {
                lemma_lsqv_abs(v3(point), 65536);
            }
            let sq: i64 = point.length_squared();
            if sq < 65536 {
                proof {
                    lemma_lsqv_nonneg(v3(point));
                }
                return point;
            }
            tries = tries + 1;
        }
        let origin: Vec3d = Vec3d { x: 0, y: 0, z: 0 };
        proof {
            lemma_lsqv_nonneg(v3(origin));
            lemma_tdiv_abs(0, SCALE as int);
        }
        origin
    }
}

} // verus!
