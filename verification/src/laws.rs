//! General laws of the library, stated and proved once for all values.

use vstd::prelude::*;
use vstd::arithmetic::div_mod::{
    lemma_fundamental_div_mod, lemma_div_is_ordered, lemma_div_multiples_vanish,
    lemma_div_pos_is_pos, lemma_mod_division_less_than_divisor,
};
use crate::fixed::{
    SCALE, absi, tdiv, fmul, fsqrt, isqrt, lemma_tdiv_abs, lemma_isqrt_props,
    lemma_isqrt_ordered, lemma_isqrt_unique,
};
use crate::vec3d::{V3, addv, subv, divsv, dotv, lsqv, lenv, unitv, lemma_lsqv_nonneg};
use crate::ray::R3;
use crate::geometry::{Sp3, sphere_hit, Hitable, hitable_hit, scan_hits, scene_hit};

verus! {

/// The dot product is commutative: `a.dot(b) == b.dot(a)`.
pub proof fn lemma_dot_commutative(a: V3, b: V3)
    ensures
        dotv(a, b) == dotv(b, a),
{
    assert(a.x * b.x == b.x * a.x) by (nonlinear_arith);
    assert(a.y * b.y == b.y * a.y) by (nonlinear_arith);
    assert(a.z * b.z == b.z * a.z) by (nonlinear_arith);
}

/// The squared length of any sum of two vectors is nonnegative.
pub proof fn lemma_sum_length_squared_nonneg(a: V3, b: V3)
    ensures
        lsqv(addv(a, b)) >= 0,
{
    lemma_lsqv_nonneg(addv(a, b));
}

/// Quotient difference by 65536: `x/65536 - (x-y)/65536` lies within
/// `[y/65536, y/65536 + 1]` for `y >= 0`.
proof fn lemma_div65536_diff(x: int, y: int)
    requires
        0 <= y,
    ensures
        y / 65536 <= x / 65536 - (x - y) / 65536 <= y / 65536 + 1,
{
    lemma_fundamental_div_mod(x, 65536);
    lemma_fundamental_div_mod(y, 65536);
    lemma_fundamental_div_mod(x - y, 65536);
}

/// A ray whose direction is perpendicular to its offset from the sphere's
/// center, starting strictly outside the sphere, misses it: the discriminant
/// of the hit quadratic cannot be positive.
pub proof fn lemma_perpendicular_ray_misses(s: Sp3, r: R3, t_min: int, t_max: int)
    requires
        dotv(subv(r.orig, s.center), r.dir) == 0,
        dotv(subv(r.orig, s.center), subv(r.orig, s.center)) > fmul(s.radius, s.radius),
    ensures
        sphere_hit(s, r, t_min, t_max) is None,
{
    let oc: V3 = subv(r.orig, s.center);
    let a: int = dotv(r.dir, r.dir);
    let c: int = dotv(oc, oc) - fmul(s.radius, s.radius);
    lemma_lsqv_nonneg(r.dir);
    lemma_tdiv_abs(0, 65536);
    assert(a * c >= 0) by (nonlinear_arith)
        requires
            a >= 0,
            c >= 0;
    lemma_tdiv_abs(a * c, 65536);
}

/// A ray aimed exactly at a sphere's center, from strictly outside it and
/// from a distance of more than one length unit, hits the sphere at a
/// positive parameter below 1, and the reported normal is the offset of the
/// hit point from the center divided by the radius (the outward direction).
/// The margins (`2 * radius^2 <= |dir|^2`, squared radius at least one raw
/// unit, a query window containing `(0, 1]`) keep the truncated arithmetic
/// from swallowing the intersection.
pub proof fn lemma_aimed_ray_hits(s: Sp3, r: R3, t_min: int, t_max: int)
    requires
        r.dir == subv(s.center, r.orig),
        dotv(r.dir, r.dir) > SCALE as int,
        2 * fmul(s.radius, s.radius) <= dotv(r.dir, r.dir),
        1 <= fmul(s.radius, s.radius),
        0 <= t_min < 16384,
        65536 < t_max,
    ensures
        sphere_hit(s, r, t_min, t_max) is Some,
        sphere_hit(s, r, t_min, t_max) matches Some(h) ==> h.t > 0 && h.normal == divsv(
            subv(h.p, s.center),
            s.radius,
        ),
{
    let oc: V3 = subv(r.orig, s.center);
    let d: V3 = r.dir;
    let a: int = dotv(d, d);
    let fr2: int = fmul(s.radius, s.radius);
    lemma_lsqv_nonneg(d);

    // oc is exactly -dir, so b == -a and c == a - radius^2.
    assert(oc.x * d.x == -(d.x * d.x)) by (nonlinear_arith)
        requires
            oc.x == -d.x;
    assert(oc.y * d.y == -(d.y * d.y)) by (nonlinear_arith)
        requires
            oc.y == -d.y;
    assert(oc.z * d.z == -(d.z * d.z)) by (nonlinear_arith)
        requires
            oc.z == -d.z;
    assert(oc.x * oc.x == d.x * d.x) by (nonlinear_arith)
        requires
            oc.x == -d.x;
    assert(oc.y * oc.y == d.y * d.y) by (nonlinear_arith)
        requires
            oc.y == -d.y;
    assert(oc.z * oc.z == d.z * d.z) by (nonlinear_arith)
        requires
            oc.z == -d.z;
    let sum: int = d.x * d.x + d.y * d.y + d.z * d.z;
    lemma_tdiv_abs(sum, 65536);
    lemma_tdiv_abs(-sum, 65536);
    let b: int = dotv(oc, d);
    assert(b == -a);
    let c: int = dotv(oc, oc) - fr2;
    assert(c == a - fr2);

    // The discriminant is the floor-quotient difference of a^2 and
    // a^2 - a * radius^2, so it lies within one unit of (a * radius^2) / SCALE.
    assert(a * a >= 0) by (nonlinear_arith);
    assert((-a) * (-a) == a * a) by (nonlinear_arith);
    assert(a * c == a * a - a * fr2) by (nonlinear_arith)
        requires
            c == a - fr2;
    assert(a <= a * fr2) by (nonlinear_arith)
        requires
            a >= 0,
            fr2 >= 1;
    assert(a * fr2 <= a * a - a * fr2) by (nonlinear_arith)
        requires
            a >= 0,
            2 * fr2 <= a;
    lemma_tdiv_abs(a * a, 65536);
    lemma_tdiv_abs(a * a - a * fr2, 65536);
    lemma_div65536_diff(a * a, a * fr2);
    let disc: int = fmul(b, b) - fmul(a, c);
    lemma_div_is_ordered(65536, a * fr2, 65536);
    assert(disc >= 1);

    // The square root of the discriminant stays well below a, so the near
    // root (a - root) * SCALE / a lands in (t_min, t_max).
    let root: int = fsqrt(disc);
    lemma_isqrt_props(disc * 65536);
    assert(root * root <= disc * 65536);
    lemma_fundamental_div_mod(a * fr2, 65536);
    assert(disc * 65536 <= a * fr2 + 65536) by (nonlinear_arith)
        requires
            disc <= (a * fr2) / 65536 + 1,
            ((a * fr2) / 65536) * 65536 <= a * fr2;
    assert(4 * root <= 3 * a) by (nonlinear_arith)
        requires
            root >= 0,
            a > 65536,
            2 * fr2 <= a,
            root * root <= a * fr2 + 65536;

    let t1: int = tdiv((-b - root) * (SCALE as int), a);
    assert(-b - root == a - root);
    assert((a - root) * 65536 >= 0) by (nonlinear_arith)
        requires
            4 * root <= 3 * a,
            a > 0;
    lemma_tdiv_abs((a - root) * 65536, a);
    assert(a * 16384 <= (a - root) * 65536) by (nonlinear_arith)
        requires
            4 * root <= 3 * a;
    lemma_div_is_ordered(a * 16384, (a - root) * 65536, a);
    lemma_div_multiples_vanish(16384, a);
    assert(a * 16384 / a == 16384) by {
        assert(a * 16384 == 16384 * a) by (nonlinear_arith);
    }
    assert(t1 >= 16384);
    assert((a - root) * 65536 <= a * 65536) by (nonlinear_arith)
        requires
            root >= 0;
    lemma_div_is_ordered((a - root) * 65536, a * 65536, a);
    lemma_div_multiples_vanish(65536, a);
    assert(a * 65536 / a == 65536) by {
        assert(a * 65536 == 65536 * a) by (nonlinear_arith);
    }
    assert(t1 <= 65536);
    assert(t_min < t1 && t1 < t_max);
}

/// Over the first `n` surfaces: a reported hit is one surface's own hit, and
/// no surface among them reports a strictly nearer one.
proof fn lemma_scan_hits_nearest(scene: Seq<Hitable>, r: R3, t_min: int, t_max: int, n: int)
    requires
        0 <= n <= scene.len(),
    ensures
        scan_hits(scene, r, t_min, t_max, n) matches Some(h) ==> exists|i: int|
            0 <= i < n && #[trigger] hitable_hit(scene[i], r, t_min, t_max) == Some(h),
        forall|i: int|
            0 <= i < n ==> (#[trigger] hitable_hit(scene[i], r, t_min, t_max) matches Some(g)
                ==> scan_hits(scene, r, t_min, t_max, n) matches Some(h) && h.t <= g.t),
    decreases n,
{
    if n > 0 {
        lemma_scan_hits_nearest(scene, r, t_min, t_max, n - 1);
        let prev: Option<crate::geometry::H3> = scan_hits(scene, r, t_min, t_max, n - 1);
        let cur: Option<crate::geometry::H3> = hitable_hit(scene[n - 1], r, t_min, t_max);
        let res: Option<crate::geometry::H3> = scan_hits(scene, r, t_min, t_max, n);
        match res {
            None => {
            },
            Some(h) => {
                match prev {
                    None => {
                        assert(hitable_hit(scene[n - 1], r, t_min, t_max) == Some(h));
                    },
                    Some(b) => {
                        match cur {
                            Some(c) => {
                                if c.t < b.t {
                                    assert(hitable_hit(scene[n - 1], r, t_min, t_max) == Some(h));
                                } else {
                                    let j: int = choose|j: int|
                                        0 <= j < n - 1 && #[trigger] hitable_hit(
                                            scene[j],
                                            r,
                                            t_min,
                                            t_max,
                                        ) == Some(b);
                                    assert(hitable_hit(scene[j], r, t_min, t_max) == Some(h));
                                }
                            },
                            None => {
                                let j: int = choose|j: int|
                                    0 <= j < n - 1 && #[trigger] hitable_hit(
                                        scene[j],
                                        r,
                                        t_min,
                                        t_max,
                                    ) == Some(b);
                                assert(hitable_hit(scene[j], r, t_min, t_max) == Some(h));
                            },
                        }
                    },
                }
            },
        }
    }
}

/// The scene query is the nearest-hit query: a reported hit is the hit of
/// one of the scene's surfaces, no surface's hit is strictly nearer, and
/// when nothing is reported, no surface reports a hit at all.
pub proof fn lemma_scene_hit_is_nearest(scene: Seq<Hitable>, r: R3, t_min: int, t_max: int)
    ensures
        scene_hit(scene, r, t_min, t_max) matches Some(h) ==> exists|i: int|
            0 <= i < scene.len() && #[trigger] hitable_hit(scene[i], r, t_min, t_max) == Some(h),
        forall|i: int|
            0 <= i < scene.len() ==> (#[trigger] hitable_hit(scene[i], r, t_min, t_max) matches
                Some(g) ==> scene_hit(scene, r, t_min, t_max) matches Some(h) && h.t <= g.t),
        scene_hit(scene, r, t_min, t_max) is None ==> forall|i: int|
            0 <= i < scene.len() ==> #[trigger] hitable_hit(scene[i], r, t_min, t_max) is None,
{
    lemma_scan_hits_nearest(scene, r, t_min, t_max, scene.len() as int);
}

/// One vector component `x` divided by a positive length `l` (as the scaled
/// quotient `x * SCALE / l`): scaled by `l^2`, its square undershoots the
/// square of the exact ratio's numerator by at most `2 * |x| * SCALE * l`.
proof fn lemma_unit_comp_sq(x: int, l: int)
    requires
        l >= 1,
    ensures
        tdiv(x * 65536, l) * tdiv(x * 65536, l) * (l * l) <= (x * x) * (65536int * 65536),
        (x * x) * (65536int * 65536) - 2 * absi(x) * 65536 * l <= tdiv(x * 65536, l) * tdiv(
            x * 65536,
            l,
        ) * (l * l),
{
    let w: int = absi(x);
    let q: int = (w * 65536) / l;
    let r: int = (w * 65536) % l;
    lemma_fundamental_div_mod(w * 65536, l);
    lemma_mod_division_less_than_divisor(w * 65536, l);
    lemma_div_pos_is_pos(w * 65536, l);
    let t: int = tdiv(x * 65536, l);
    assert(absi(x * 65536) == w * 65536);
    assert(t == q || t == -q);
    assert(t * t == q * q) by (nonlinear_arith)
        requires
            t == q || t == -q;
    assert(q * q * (l * l) <= (w * 65536) * (w * 65536)) by (nonlinear_arith)
        requires
            l >= 1,
            l * q + r == w * 65536,
            0 <= r,
            0 <= q;
    assert((w * 65536) * (w * 65536) - 2 * (w * 65536) * l <= q * q * (l * l))
        by (nonlinear_arith)
        requires
            l >= 1,
            l * q + r == w * 65536,
            0 <= r < l,
            0 <= q;
    assert(x * x == w * w) by (nonlinear_arith)
        requires
            w == x || w == -x;
    assert((w * 65536) * (w * 65536) == (w * w) * (65536int * 65536)) by (nonlinear_arith);
    assert(2 * (w * 65536) * l == 2 * w * 65536 * l) by (nonlinear_arith);
}

/// The unit vector of any vector of length at least 1 has length 1, to
/// within 4 parts in 65536: both its squared length and its length land
/// within a few raw units of 1.0.
pub proof fn lemma_unit_vector_length(v: V3)
    requires
        lsqv(v) >= SCALE as int,
    ensures
        SCALE as int - 7 <= lsqv(unitv(v)) <= SCALE as int + 7,
        SCALE as int - 4 <= lenv(unitv(v)) <= SCALE as int + 3,
{
    let sum: int = v.x * v.x + v.y * v.y + v.z * v.z;
    assert(v.x * v.x >= 0) by (nonlinear_arith);
    assert(v.y * v.y >= 0) by (nonlinear_arith);
    assert(v.z * v.z >= 0) by (nonlinear_arith);
    lemma_tdiv_abs(sum, 65536);
    let n: int = lsqv(v);
    assert(n == sum / 65536);
    lemma_fundamental_div_mod(sum, 65536);
    lemma_mod_division_less_than_divisor(sum, 65536);
    let ns: int = n * 65536;
    lemma_isqrt_props(ns);
    let l: int = lenv(v);
    assert(l == isqrt(ns));
    lemma_isqrt_unique(65536int * 65536, 65536);
    lemma_isqrt_ordered(65536int * 65536, ns);
    assert(l >= 65536);
    assert(l * l <= ns);
    assert(ns <= l * l + 2 * l) by (nonlinear_arith)
        requires
            ns < (l + 1) * (l + 1);
    assert(sum <= ns + 65535);
    assert(sum >= ns);

    let u: V3 = unitv(v);
    lemma_unit_comp_sq(v.x, l);
    lemma_unit_comp_sq(v.y, l);
    lemma_unit_comp_sq(v.z, l);
    assert(u.x == tdiv(v.x * 65536, l));
    assert(u.y == tdiv(v.y * 65536, l));
    assert(u.z == tdiv(v.z * 65536, l));
    let su: int = u.x * u.x + u.y * u.y + u.z * u.z;

    // Upper bound: su * l^2 <= sum * SCALE^2 <= (SCALE^2 + 7 SCALE) * l^2.
    assert(su * (l * l) <= sum * (65536int * 65536)) by (nonlinear_arith)
        requires
            u.x * u.x * (l * l) <= (v.x * v.x) * (65536int * 65536),
            u.y * u.y * (l * l) <= (v.y * v.y) * (65536int * 65536),
            u.z * u.z * (l * l) <= (v.z * v.z) * (65536int * 65536),
            su == u.x * u.x + u.y * u.y + u.z * u.z,
            sum == v.x * v.x + v.y * v.y + v.z * v.z;
    assert(sum * (65536int * 65536) <= (65536int * 65536 + 7 * 65536) * (l * l))
        by (nonlinear_arith)
        requires
            l >= 65536,
            sum <= l * l + 2 * l + 65535;
    assert(su <= 65536int * 65536 + 7 * 65536) by (nonlinear_arith)
        requires
            su * (l * l) <= (65536int * 65536 + 7 * 65536) * (l * l),
            l >= 1;

    // Lower bound: each |component| is at most l + 1, so the undershoot is
    // at most 2 * SCALE * l * (3 l + 3).
    let wx: int = absi(v.x);
    let wy: int = absi(v.y);
    let wz: int = absi(v.z);
    assert(wx * wx == v.x * v.x) by (nonlinear_arith)
        requires
            wx == v.x || wx == -v.x;
    assert(wy * wy == v.y * v.y) by (nonlinear_arith)
        requires
            wy == v.y || wy == -v.y;
    assert(wz * wz == v.z * v.z) by (nonlinear_arith)
        requires
            wz == v.z || wz == -v.z;
    assert(wx <= l + 1) by (nonlinear_arith)
        requires
            wx >= 0,
            wx * wx <= l * l + 2 * l + 65535,
            l >= 65536;
    assert(wy <= l + 1) by (nonlinear_arith)
        requires
            wy >= 0,
            wy * wy <= l * l + 2 * l + 65535,
            l >= 65536;
    assert(wz <= l + 1) by (nonlinear_arith)
        requires
            wz >= 0,
            wz * wz <= l * l + 2 * l + 65535,
            l >= 65536;
    assert(sum * (65536int * 65536) - 2 * wx * 65536 * l - 2 * wy * 65536 * l - 2 * wz * 65536
        * l <= su * (l * l)) by (nonlinear_arith)
        requires
            (v.x * v.x) * (65536int * 65536) - 2 * wx * 65536 * l <= u.x * u.x * (l * l),
            (v.y * v.y) * (65536int * 65536) - 2 * wy * 65536 * l <= u.y * u.y * (l * l),
            (v.z * v.z) * (65536int * 65536) - 2 * wz * 65536 * l <= u.z * u.z * (l * l),
            su == u.x * u.x + u.y * u.y + u.z * u.z,
            sum == v.x * v.x + v.y * v.y + v.z * v.z;
    assert((65536int * 65536 - 7 * 65536) * (l * l) <= sum * (65536int * 65536) - 2 * wx * 65536
        * l - 2 * wy * 65536 * l - 2 * wz * 65536 * l) by (nonlinear_arith)
        requires
            sum >= l * l,
            wx <= l + 1,
            wy <= l + 1,
            wz <= l + 1,
            l >= 65536;
    assert(65536int * 65536 - 7 * 65536 <= su) by (nonlinear_arith)
        requires
            (65536int * 65536 - 7 * 65536) * (l * l) <= su * (l * l),
            l >= 1;

    // From the squared-length window to the squared length and the length.
    lemma_tdiv_abs(su, 65536);
    let m: int = lsqv(u);
    assert(su >= 0);
    assert(m == su / 65536);
    lemma_div_is_ordered(su, 65536int * 65536 + 7 * 65536, 65536);
    lemma_div_is_ordered(65536int * 65536 - 7 * 65536, su, 65536);
    assert((65536int * 65536 + 7 * 65536) / 65536 == 65543);
    assert((65536int * 65536 - 7 * 65536) / 65536 == 65529);
    assert(65529 <= m <= 65543);

    let ml: int = lenv(u);
    assert(ml == isqrt(m * 65536));
    lemma_isqrt_unique(65529int * 65536, 65532);
    lemma_isqrt_ordered(65529int * 65536, m * 65536);
    lemma_isqrt_unique(65543int * 65536, 65539);
    lemma_isqrt_ordered(m * 65536, 65543int * 65536);
    assert(65532 <= ml <= 65539);
}

} // verus!
