//! The path-tracing integrator: recursive color computation and per-pixel
//! sampling.
//!
//! Where the result is deterministic the contract pins it down: a ray that
//! hits nothing yields the background gradient, and a hit with the depth
//! budget exhausted yields black.  Scattered rays whose values grow past the
//! bounds the scaled representation supports (impossible in a
//! reasonably-scaled scene) are treated as absorbed.

use vstd::prelude::*;
use vstd::arithmetic::div_mod::{lemma_div_is_ordered, lemma_div_pos_is_pos, lemma_multiply_divide_lt, lemma_div_multiples_vanish, lemma_div_of0};
use crate::fixed::{
    SCALE, fmul, fx_mul, idiv64, lemma_tdiv_abs, lemma_tdiv_bound, lemma_mul_abs, lemma_fmul_abs,
    lemma_fmul_range01, lemma_fmul_by_one,
};
use crate::vec3d::{
    Vec3d, V3, v3, lsqv, unitv, boundedv, lemma_lsqv_abs, lemma_unitv_abs,
};
use crate::ray::{Ray, R3, r3};
use crate::color::{Rgb, C3, c3, addc, blendc, divc_scalar, mulc_vec, c3_in_range};
use crate::camera::{Camera, Cam3, cam3, cam_ray, cam_ok};
use crate::geometry::{
    Hitable, HitRecord, h3, hit_ok, hitable_ok, scene_ok, scene_hit, get_hits, COORD_LIMIT,
    DIR_LIMIT, T_LIMIT, NORMAL_LIMIT,
};
use crate::material::{Material, material_ok, unit_box, att_of};
use crate::rng::random_unit_fraction;

verus! {

/// Lower bound of every trace query's parametric interval (about 0.001),
/// suppressing self-intersection at the point a ray has just left.
pub const T_EPS: i64 = 66;

/// The renderer's default recursion depth cap.
pub const MAX_DEPTH: u32 = 50;

/// A ray the tracer accepts: origin and direction bounded, direction nonzero.
pub open spec fn trace_ray_ok(r: R3) -> bool {
    boundedv(r.orig, COORD_LIMIT as int) && boundedv(r.dir, DIR_LIMIT as int) && lsqv(r.dir) >= 1
}

/// Black, the absorbing terminal color.
pub open spec fn blackc() -> C3 {
    C3 { r: 0, g: 0, b: 0 }
}

/// The background gradient: white blended toward sky blue by the height of
/// the unit direction, `t = (unit_dir.y + 1) * 0.5`.
pub open spec fn background_spec(r: R3) -> C3 {
    let t: int = fmul(unitv(r.dir).y + SCALE as int, 32768);
    blendc(
        C3 { r: SCALE as int, g: SCALE as int, b: SCALE as int },
        C3 { r: 32768, g: 45875, b: SCALE as int },
        t,
    )
}

/// Whether each component of `v` has magnitude at most `m`.
fn in_box(v: Vec3d, m: i64) -> (ok: bool)
    requires
        m >= 0,
    ensures
        ok == boundedv(v3(v), m as int),
{
    -m <= v.x && v.x <= m && -m <= v.y && v.y <= m && -m <= v.z && v.z <= m
}

/// Whether a hit record lies within the bounds scattering supports.
fn hit_in_range(h: &HitRecord) -> (ok: bool)
    ensures
        ok == hit_ok(h3(*h)),
{
    in_box(h.p, COORD_LIMIT) && in_box(h.normal, NORMAL_LIMIT)
}

/// Whether a ray lies within the bounds tracing supports.
fn ray_in_range(r: &Ray) -> (ok: bool)
    ensures
        ok == trace_ray_ok(r3(*r)),
{
    if !in_box(r.a, COORD_LIMIT) || !in_box(r.b, DIR_LIMIT) {
        return false;
    }
    proof {
        lemma_lsqv_abs(v3(r.b), DIR_LIMIT as int);
    }
    let sq: i64 = r.b.length_squared();
    sq >= 1
}

/// The color a ray contributes.  The nearest surface within
/// `(T_EPS, T_LIMIT)` scatters the ray and the recursion continues with the
/// result attenuated, until a ray escapes (the background gradient), is
/// absorbed, or the depth budget runs out (black).
pub fn get_color(r: Ray, hitables: &Vec<Hitable>, depth: u32, max_depth: u32) -> (color: Rgb)
    requires
        scene_ok(hitables@),
        trace_ray_ok(r3(r)),
    ensures
        c3_in_range(c3(color)),
        scene_hit(hitables@, r3(r), T_EPS as int, T_LIMIT as int) is None ==> c3(color)
            == background_spec(r3(r)),
        scene_hit(hitables@, r3(r), T_EPS as int, T_LIMIT as int) is Some && depth >= max_depth
            ==> c3(color) == blackc(),
        scene_hit(hitables@, r3(r), T_EPS as int, T_LIMIT as int) matches Some(h) ==> (depth
            < max_depth ==> c3(color) == blackc() || exists|sub: C3|
            c3_in_range(sub) && c3(color) == #[trigger] mulc_vec(sub, att_of(h.material))),
    decreases max_depth - depth,
{
    let hit_res: Option<HitRecord> = get_hits(hitables, r, T_EPS, T_LIMIT);
    proof {
        crate::geometry::lemma_scan_hits_material(
            hitables@,
            r3(r),
            T_EPS as int,
            T_LIMIT as int,
            hitables@.len() as int,
        );
    }
    match hit_res {
        Some(hit_rec) => {
            if depth < max_depth && hit_in_range(&hit_rec) {
                match hit_rec.material.scatter(&r, &hit_rec) {
                    Some(scattered) => {
                        if ray_in_range(&scattered.ray) {
                            let rec_color: Rgb = get_color(
                                scattered.ray,
                                hitables,
                                depth + 1,
                                max_depth,
                            );
                            proof {
                                lemma_fmul_range01(c3(rec_color).r, v3(scattered.attenuation).x);
                                lemma_fmul_range01(c3(rec_color).g, v3(scattered.attenuation).y);
                                lemma_fmul_range01(c3(rec_color).b, v3(scattered.attenuation).z);
                            }
                            let attenuated: Rgb = rec_color.mul_vec(scattered.attenuation);
                            proof {
                                assert(c3_in_range(c3(rec_color)) && c3(attenuated) == mulc_vec(
                                    c3(rec_color),
                                    att_of(h3(hit_rec).material),
                                ));
                            }
                            return attenuated;
                        }
                        Rgb::new(0, 0, 0)
                    },
                    None => Rgb::new(0, 0, 0),
                }
            } else {
                Rgb::new(0, 0, 0)
            }
        },
        None => {
            let unit_direction: Vec3d = r.direction().unit_vector();
            proof {
                lemma_unitv_abs(v3(r.b));
                lemma_fmul_abs(
                    unitv(v3(r.b)).y + SCALE as int,
                    32768,
                    0x2000_0001_0000,
                    32768,
                );
            }
            let t: i64 = fx_mul(unit_direction.y() + 65536, 32768);
            Rgb::new(65536, 65536, 65536).blend(Rgb::new(32768, 45875, 65536), t)
        },
    }
}

/// Channel-wise sum of a sequence of colors.
pub open spec fn sumc(cs: Seq<C3>) -> C3
    decreases cs.len(),
{
    if cs.len() == 0 {
        C3 { r: 0, g: 0, b: 0 }
    } else {
        addc(sumc(cs.drop_last()), cs.last())
    }
}

/// One per-pixel sample: an in-range color that `get_color` can guarantee
/// for some camera ray from in-range jittered image-plane coordinates —
/// in particular the exact background on a miss, and black when the ray
/// hits with no depth budget.
pub open spec fn pixel_sample_ok(c: C3, cam: Cam3, scene: Seq<Hitable>, max_depth: int) -> bool {
    exists|u: int, v: int|
        {
            &&& 0 <= u < SCALE as int
            &&& 0 <= v < SCALE as int
            &&& c3_in_range(c)
            &&& (scene_hit(scene, #[trigger] cam_ray(cam, u, v), T_EPS as int, T_LIMIT as int)
                is None ==> c == background_spec(cam_ray(cam, u, v)))
            &&& (scene_hit(scene, cam_ray(cam, u, v), T_EPS as int, T_LIMIT as int) is Some
                && max_depth <= 0 ==> c == blackc())
        }
}

/// Every ray the camera can cast from in-range image-plane coordinates
/// meets some surface of the scene.
pub open spec fn every_camera_ray_hits(cam: Cam3, scene: Seq<Hitable>) -> bool {
    forall|u: int, v: int|
        0 <= u < SCALE as int && 0 <= v < SCALE as int ==> (#[trigger] scene_hit(
            scene,
            cam_ray(cam, u, v),
            T_EPS as int,
            T_LIMIT as int,
        )) is Some
}

/// The background gradient's blue channel is exactly 1.0, whatever the ray:
/// both blended colors have a full blue channel, and the two blend weights
/// (clamped) always sum to 1.
pub proof fn lemma_background_blue(r: R3)
    ensures
        background_spec(r).b == SCALE as int,
{
    let t: int = fmul(unitv(r.dir).y + SCALE as int, 32768);
    lemma_fmul_by_one(65536 - t);
    lemma_fmul_by_one(t);
}

/// A camera ray from in-range image-plane coordinates satisfies the tracer's
/// requirements.
pub proof fn lemma_cam_ray_ok(c: Cam3, u: int, v: int)
    requires
        cam_ok(c),
        0 <= u < 65536,
        0 <= v < 65536,
    ensures
        trace_ray_ok(cam_ray(c, u, v)),
{
    lemma_fmul_abs(c.horizontal.x, u, 0x100_0000, 65536);
    lemma_fmul_abs(c.horizontal.y, u, 0x100_0000, 65536);
    lemma_fmul_abs(c.horizontal.z, u, 0x100_0000, 65536);
    lemma_fmul_abs(c.vertical.x, v, 0x100_0000, 65536);
    lemma_fmul_abs(c.vertical.y, v, 0x100_0000, 65536);
    lemma_fmul_abs(c.vertical.z, v, 0x100_0000, 65536);
    lemma_tdiv_abs(0, 65536);
    let d: V3 = cam_ray(c, u, v).dir;
    assert(fmul(0, u) == 0);
    assert(fmul(0, v) == 0);
    assert(d.z == c.lower_left.z - c.origin.z);
    assert(d.z * d.z >= 65536) by (nonlinear_arith)
        requires
            d.z >= 256 || d.z <= -256;
    assert(d.x * d.x >= 0) by (nonlinear_arith);
    assert(d.y * d.y >= 0) by (nonlinear_arith);
    let sum: int = d.x * d.x + d.y * d.y + d.z * d.z;
    lemma_div_is_ordered(65536, sum, 65536);
    lemma_tdiv_abs(sum, 65536);
}

/// The color of pixel `(i, j)` in a `w` by `h` image: `samples` camera rays
/// jittered uniformly within the pixel, traced, accumulated, and divided by
/// the sample count.  The contract exposes that shape: the result is the
/// average of a sequence of `samples` colors, each one a color `get_color`
/// can guarantee for a camera ray from in-range coordinates; which rays were
/// drawn stays random.  In particular an empty scene keeps the background's
/// full blue channel, and a scene every camera ray hits gives black when the
/// depth budget is zero.
pub fn sample_pixel(
    cam: &Camera,
    hitables: &Vec<Hitable>,
    i: u32,
    j: u32,
    w: u32,
    h: u32,
    samples: u32,
    max_depth: u32,
) -> (color: Rgb)
    requires
        cam_ok(cam3(*cam)),
        scene_ok(hitables@),
        i < w,
        j < h,
        w <= 0x10000,
        h <= 0x10000,
        1 <= samples <= 0x10000,
    ensures
        c3_in_range(c3(color)),
        hitables@.len() == 0 ==> c3(color).b == SCALE as int,
        max_depth == 0 && every_camera_ray_hits(cam3(*cam), hitables@) ==> c3(color) == blackc(),
        exists|cs: Seq<C3>|
            {
                &&& cs.len() == samples as int
                &&& forall|k: int|
                    0 <= k < cs.len() ==> #[trigger] pixel_sample_ok(
                        cs[k],
                        cam3(*cam),
                        hitables@,
                        max_depth as int,
                    )
                &&& c3(color) == divc_scalar(
                    #[trigger] sumc(cs),
                    (samples as int) * (SCALE as int),
                )
            },
{
    let mut acc: Rgb = Rgb::new(0, 0, 0);
    let ghost mut cs: Seq<C3> = Seq::empty();
    let mut s: u32 = 0;
    while s < samples
        invariant
            s <= samples,
            samples <= 0x10000,
            i < w <= 0x10000,
            j < h <= 0x10000,
            cam_ok(cam3(*cam)),
            scene_ok(hitables@),
            0 <= c3(acc).r <= (s as int) * 65536,
            0 <= c3(acc).g <= (s as int) * 65536,
            0 <= c3(acc).b <= (s as int) * 65536,
            hitables@.len() == 0 ==> c3(acc).b == (s as int) * 65536,
            max_depth == 0 && every_camera_ray_hits(cam3(*cam), hitables@) ==> c3(acc).r == 0
                && c3(acc).g == 0 && c3(acc).b == 0,
            cs.len() == s as int,
            forall|k: int|
                0 <= k < cs.len() ==> #[trigger] pixel_sample_ok(
                    cs[k],
                    cam3(*cam),
                    hitables@,
                    max_depth as int,
                ),
            c3(acc) == sumc(cs),
        decreases samples - s,
    {
        let un: i64 = (i as i64) * 65536 + random_unit_fraction();
        let vn: i64 = (j as i64) * 65536 + random_unit_fraction();
        proof {
            lemma_multiply_divide_lt(un as int, w as int, 65536);
            lemma_multiply_divide_lt(vn as int, h as int, 65536);
            lemma_div_pos_is_pos(un as int, w as int);
            lemma_div_pos_is_pos(vn as int, h as int);
        }
        let u: i64 = idiv64(un, w as i64);
        let v: i64 = idiv64(vn, h as i64);
        let ray: Ray = cam.get_ray(u, v);
        proof {
            lemma_cam_ray_ok(cam3(*cam), u as int, v as int);
        }
        let sample: Rgb = get_color(ray, hitables, 0, max_depth);
        proof {
            if hitables@.len() == 0 {
                lemma_background_blue(r3(ray));
            }
            if max_depth == 0 && every_camera_ray_hits(cam3(*cam), hitables@) {
                assert(scene_hit(
                    hitables@,
                    cam_ray(cam3(*cam), u as int, v as int),
                    T_EPS as int,
                    T_LIMIT as int,
                ) is Some);
            }
            assert(pixel_sample_ok(
                c3(sample),
                cam3(*cam),
                hitables@,
                max_depth as int,
            )) by {
                assert(scene_hit(
                    hitables@,
                    cam_ray(cam3(*cam), u as int, v as int),
                    T_EPS as int,
                    T_LIMIT as int,
                ) == scene_hit(hitables@, r3(ray), T_EPS as int, T_LIMIT as int));
            }
        }
        acc = acc.add(sample);
        proof {
            let cs0: Seq<C3> = cs;
            cs = cs.push(c3(sample));
            assert(cs.drop_last() =~= cs0);
        }
        s = s + 1;
    }
    let divisor: i64 = (samples as i64) * 65536;
    proof {
        lemma_mul_abs(c3(acc).r, 65536, 0x1_0000_0000, 65536);
        lemma_mul_abs(c3(acc).g, 65536, 0x1_0000_0000, 65536);
        lemma_mul_abs(c3(acc).b, 65536, 0x1_0000_0000, 65536);
        lemma_tdiv_bound(c3(acc).r * 65536, divisor as int, 0x1_0000_0000int * 65536);
        lemma_tdiv_bound(c3(acc).g * 65536, divisor as int, 0x1_0000_0000int * 65536);
        lemma_tdiv_bound(c3(acc).b * 65536, divisor as int, 0x1_0000_0000int * 65536);
    }
    let color: Rgb = acc.div_scalar(divisor);
    proof {
        assert(c3(color) == divc_scalar(c3(acc), (samples as int) * (SCALE as int)));
        if hitables@.len() == 0 {
            lemma_div_multiples_vanish(65536, divisor as int);
            lemma_tdiv_abs((divisor as int) * 65536, divisor as int);
        }
        lemma_div_of0(divisor as int);
        assert(cs.len() == samples as int && (forall|k: int|
            0 <= k < cs.len() ==> #[trigger] pixel_sample_ok(
                cs[k],
                cam3(*cam),
                hitables@,
                max_depth as int,
            )) && c3(color) == divc_scalar(sumc(cs), (samples as int) * (SCALE as int)));
    }
    color
}

/// Whether every channel of an albedo lies in `[0, 1]`.
fn in_unit_box(v: Vec3d) -> (ok: bool)
    ensures
        ok == unit_box(v3(v)),
{
    0 <= v.x && v.x <= 65536 && 0 <= v.y && v.y <= 65536 && 0 <= v.z && v.z <= 65536
}

/// Whether a material's parameters lie within the supported ranges.
fn material_in_range(m: &Material) -> (ok: bool)
    ensures
        ok == material_ok(*m),
{
    match m {
        Material::Lambertian(l) => in_unit_box(l.albedo),
        Material::Metal(mt) => in_unit_box(mt.albedo) && 0 <= mt.fuzz && mt.fuzz <= 65536,
        Material::Dielectric(d) => 256 <= d.ref_idx && d.ref_idx <= 0x100_0000,
    }
}

/// Whether one surface is well-formed.
fn hitable_in_range(ht: &Hitable) -> (ok: bool)
    ensures
        ok == hitable_ok(*ht),
{
    match ht {
        Hitable::Sphere(s) => in_box(s.center, COORD_LIMIT) && 1 <= s.radius
            && s.radius <= COORD_LIMIT && material_in_range(&s.material),
    }
}

/// Whether every surface of a scene is well-formed; callers outside the
/// verified library test this before tracing.
pub fn scene_in_range(hitables: &Vec<Hitable>) -> (ok: bool)
    ensures
        ok == scene_ok(hitables@),
{
    let mut i: usize = 0;
    while i < hitables.len()
        invariant
            i <= hitables.len(),
            forall|k: int| 0 <= k < i ==> hitable_ok(#[trigger] hitables@[k]),
        decreases hitables.len() - i,
    {
        if !hitable_in_range(&hitables[i]) {
            proof {
                assert(!hitable_ok(hitables@[i as int]));
            }
            return false;
        }
        i = i + 1;
    }
    true
}

/// Whether a camera is well-formed; callers outside the verified library
/// test this before tracing.
pub fn camera_in_range(cam: &Camera) -> (ok: bool)
    ensures
        ok == cam_ok(cam3(*cam)),
{
    if !(in_box(cam.origin, 0x100_0000) && in_box(cam.lower_left_corner, 0x100_0000)
        && in_box(cam.horizontal_size, 0x100_0000) && in_box(cam.vertical_size, 0x100_0000)) {
        return false;
    }
    if !(cam.horizontal_size.z == 0 && cam.vertical_size.z == 0) {
        return false;
    }
    let dz: i64 = cam.lower_left_corner.z - cam.origin.z;
    dz >= 256 || dz <= -256
}

} // verus!
