//! Geometry: hit records, spheres, and the nearest-hit query over a scene.

use vstd::prelude::*;
use crate::fixed::{
    SCALE, tdiv, fmul, fsqrt, tdiv128, lemma_tdiv_abs, lemma_tdiv_bound, lemma_mul_abs,
    lemma_fmul_abs,
};
use crate::vec3d::{
    Vec3d, V3, v3, subv, divsv, boundedv, dotv, lemma_dotv_abs,
};
use crate::ray::{Ray, R3, r3, rayatv};
use crate::material::{Material, material_ok};

verus! {

/// Magnitude bound on scene coordinates: sphere centers, radii and ray
/// origins (one million length units).
pub const COORD_LIMIT: i64 = 0x10_0000_0000;

/// Magnitude bound on ray-direction components (2048 length units).
pub const DIR_LIMIT: i64 = 0x800_0000;

/// Magnitude bound on the parametric interval of a hit query, and the
/// tracer's stand-in for an unbounded far plane (16384 length units; a
/// surface farther than that along a unit direction renders as background).
pub const T_LIMIT: i64 = 0x4000_0000;

/// Magnitude bound on surface-normal components handed to scattering (16.0;
/// true normals have length about 1).
pub const NORMAL_LIMIT: i64 = 0x10_0000;

/// One intersection: the ray parameter, the hit point, the surface normal
/// there (oriented outward from the sphere, not flipped toward the ray), and
/// the material that governs scattering.
#[derive(Clone, Copy, Debug)]
pub struct HitRecord {
    pub t: i64,
    pub p: Vec3d,
    pub normal: Vec3d,
    pub material: Material,
}

/// Mathematical view of a hit record.
pub ghost struct H3 {
    pub t: int,
    pub p: V3,
    pub normal: V3,
    pub material: Material,
}

/// Mathematical view of a `HitRecord`.
pub open spec fn h3(h: HitRecord) -> H3 {
    H3 { t: h.t as int, p: v3(h.p), normal: v3(h.normal), material: h.material }
}

/// Mathematical view of an optional hit record.
pub open spec fn opt_h3(o: Option<HitRecord>) -> Option<H3> {
    match o {
        Some(h) => Some(h3(h)),
        None => None,
    }
}

/// A hit record whose point and normal are small enough for scattering.
pub open spec fn hit_ok(h: H3) -> bool {
    boundedv(h.p, COORD_LIMIT as int) && boundedv(h.normal, NORMAL_LIMIT as int)
}

/// A sphere: center, radius, and the material of its surface.
#[derive(Clone, Copy, Debug)]
pub struct Sphere {
    pub center: Vec3d,
    pub radius: i64,
    pub material: Material,
}

/// Mathematical view of a sphere.
pub ghost struct Sp3 {
    pub center: V3,
    pub radius: int,
    pub material: Material,
}

/// Mathematical view of a `Sphere`.
pub open spec fn sp3(s: Sphere) -> Sp3 {
    Sp3 { center: v3(s.center), radius: s.radius as int, material: s.material }
}

/// A well-formed sphere: bounded center, positive bounded radius, and a
/// well-formed material.
pub open spec fn sphere_ok(s: Sp3) -> bool {
    boundedv(s.center, COORD_LIMIT as int) && 1 <= s.radius <= COORD_LIMIT as int
        && material_ok(s.material)
}

/// A hit query within the bounds the scaled representation supports.
pub open spec fn hit_query_ok(r: R3, t_min: int, t_max: int) -> bool {
    boundedv(r.orig, COORD_LIMIT as int) && boundedv(r.dir, DIR_LIMIT as int)
        && -(T_LIMIT as int) <= t_min <= t_max <= T_LIMIT as int
}

/// The record a sphere reports for a hit at parameter `t`: the point reached
/// at `t`, with the outward normal `(p - center) / radius`.
pub open spec fn sphere_hit_record(s: Sp3, r: R3, t: int) -> H3 {
    let p: V3 = rayatv(r, t);
    H3 { t, p, normal: divsv(subv(p, s.center), s.radius), material: s.material }
}

/// Ray-sphere intersection: solve `|O + tD - C|^2 = radius^2` through the
/// quadratic `a t^2 + 2 b t + c = 0` with `a = D.D`, `b = (O-C).D`,
/// `c = (O-C).(O-C) - radius^2`.  A positive discriminant gives two roots;
/// the nearer is preferred, each tested against the open interval
/// `(t_min, t_max)`.  A degenerate direction with `a = 0` reports no hit.
pub open spec fn sphere_hit(s: Sp3, r: R3, t_min: int, t_max: int) -> Option<H3> {
    let oc: V3 = subv(r.orig, s.center);
    let a: int = dotv(r.dir, r.dir);
    let b: int = dotv(oc, r.dir);
    let c: int = dotv(oc, oc) - fmul(s.radius, s.radius);
    let disc: int = fmul(b, b) - fmul(a, c);
    if disc > 0 && a > 0 {
        let root: int = fsqrt(disc);
        let t1: int = tdiv((-b - root) * (SCALE as int), a);
        if t_min < t1 && t1 < t_max {
            Some(sphere_hit_record(s, r, t1))
        } else {
            let t2: int = tdiv((-b + root) * (SCALE as int), a);
            if t_min < t2 && t2 < t_max {
                Some(sphere_hit_record(s, r, t2))
            } else {
                None
            }
        }
    } else {
        None
    }
}

/// Scaled dot product computed without narrowing, for the quadratic.
fn dot_wide(u: Vec3d, v: Vec3d) -> (r: i128)
    requires
        boundedv(v3(u), 0x2000_0000_0000_0000),
        boundedv(v3(v), 0x2000_0000_0000_0000),
    ensures
        r == dotv(v3(u), v3(v)),
{
    proof {
        lemma_mul_abs(u.x as int, v.x as int, 0x2000_0000_0000_0000, 0x2000_0000_0000_0000);
        lemma_mul_abs(u.y as int, v.y as int, 0x2000_0000_0000_0000, 0x2000_0000_0000_0000);
        lemma_mul_abs(u.z as int, v.z as int, 0x2000_0000_0000_0000, 0x2000_0000_0000_0000);
    }
    let p: i128 = (u.x as i128) * (v.x as i128) + (u.y as i128) * (v.y as i128)
        + (u.z as i128) * (v.z as i128);
    tdiv128(p, 65536)
}

/// Scaled square root computed without narrowing.
pub(crate) fn sqrt_wide(x: i128) -> (r: i128)
    requires
        0 <= x < 0x4000_0000_0000_0000_0000_0000_0000,
    ensures
        r == fsqrt(x as int),
        0 <= r,
        r * r <= (x as int) * 65536,
{
    let n: u128 = (x as u128) * 65536;
    let s: u128 = crate::fixed::isqrt_u128(n);
    proof {
        assert((s as int) < 0x8000_0000_0000_0000int) by (nonlinear_arith)
            requires
                s as int >= 0,
                (s as int) * (s as int) <= n as int,
                (n as int) < 0x4000_0000_0000_0000_0000_0000_0000_0000int;
    }
    s as i128
}

impl Sphere {
    /// The nearest intersection of `ray` with this sphere in the open
    /// interval `(t_min, t_max)`, exactly per `sphere_hit`.
    pub fn hit(&self, ray: Ray, t_min: i64, t_max: i64) -> (res: Option<HitRecord>)
        requires
            sphere_ok(sp3(*self)),
            hit_query_ok(r3(ray), t_min as int, t_max as int),
        ensures
            opt_h3(res) == sphere_hit(sp3(*self), r3(ray), t_min as int, t_max as int),
    {
        let oc: Vec3d = ray.origin().sub(self.center);
        proof {
            lemma_dotv_abs(v3(ray.b), v3(ray.b), 0x800_0000, 0x800_0000);
            lemma_dotv_abs(v3(oc), v3(ray.b), 0x20_0000_0000, 0x800_0000);
            lemma_dotv_abs(v3(oc), v3(oc), 0x20_0000_0000, 0x20_0000_0000);
            lemma_mul_abs(self.radius as int, self.radius as int, 0x10_0000_0000, 0x10_0000_0000);
        }
        let a: i128 = dot_wide(ray.direction(), ray.direction());
        let b: i128 = dot_wide(oc, ray.direction());
        let rr: i128 = tdiv128((self.radius as i128) * (self.radius as i128), 65536);
        let c: i128 = dot_wide(oc, oc) - rr;
        proof {
            lemma_tdiv_abs((self.radius as int) * (self.radius as int), 65536);
            lemma_mul_abs(b as int, b as int, 0x3_0000_0000_0000, 0x3_0000_0000_0000);
            lemma_mul_abs(a as int, c as int, 0xC0_0000_0000, 0x1_8C00_0000_0000_0000);
            lemma_tdiv_bound((b as int) * (b as int), 65536, 0x9_0000_0000_0000_0000_0000_0000);
            lemma_tdiv_bound((a as int) * (c as int), 65536, 0x129_0000_0000_0000_0000_0000_0000);
        }
        let disc: i128 = tdiv128(b * b, 65536) - tdiv128(a * c, 65536);
        if disc > 0 && a > 0 {
            let root: i128 = sqrt_wide(disc);
            proof {
                assert(root < 0x10_0000_0000_0000_0000) by (nonlinear_arith)
                    requires
                        root >= 0,
                        (root as int) * (root as int) <= (disc as int) * 65536,
                        (disc as int) < 0x4000_0000_0000_0000_0000_0000_0000;
                lemma_mul_abs((-b - root) as int, 65536, 0x11_0000_0000_0000_0000, 65536);
                lemma_mul_abs((-b + root) as int, 65536, 0x11_0000_0000_0000_0000, 65536);
            }
            let t1: i128 = tdiv128((-b - root) * 65536, a);
            if (t_min as i128) < t1 && t1 < (t_max as i128) {
                Some(self.record_at(ray, t1 as i64))
            } else {
                let t2: i128 = tdiv128((-b + root) * 65536, a);
                if (t_min as i128) < t2 && t2 < (t_max as i128) {
                    Some(self.record_at(ray, t2 as i64))
                } else {
                    None
                }
            }
        } else {
            None
        }
    }

    /// The hit record at parameter `t`, exactly per `sphere_hit_record`.
    fn record_at(&self, ray: Ray, t: i64) -> (res: HitRecord)
        requires
            sphere_ok(sp3(*self)),
            boundedv(r3(ray).orig, COORD_LIMIT as int),
            boundedv(r3(ray).dir, DIR_LIMIT as int),
            -(T_LIMIT as int) <= t as int <= T_LIMIT as int,
        ensures
            h3(res) == sphere_hit_record(sp3(*self), r3(ray), t as int),
    {
        proof {
            lemma_fmul_abs(r3(ray).dir.x, t as int, 0x800_0000, 0x4000_0000);
            lemma_fmul_abs(r3(ray).dir.y, t as int, 0x800_0000, 0x4000_0000);
            lemma_fmul_abs(r3(ray).dir.z, t as int, 0x800_0000, 0x4000_0000);
        }
        let p: Vec3d = ray.point_at_parameter(t);
        proof {
            let d: V3 = subv(v3(p), v3(self.center));
            lemma_mul_abs(d.x, 65536, 0x300_0000_0000, 65536);
            lemma_mul_abs(d.y, 65536, 0x300_0000_0000, 65536);
            lemma_mul_abs(d.z, 65536, 0x300_0000_0000, 65536);
            lemma_tdiv_bound(d.x * 65536, self.radius as int, 0x300_0000_0000int * 65536);
            lemma_tdiv_bound(d.y * 65536, self.radius as int, 0x300_0000_0000int * 65536);
            lemma_tdiv_bound(d.z * 65536, self.radius as int, 0x300_0000_0000int * 65536);
        }
        let normal: Vec3d = p.sub(self.center).div_scalar(self.radius);
        HitRecord { t, p, normal, material: self.material }
    }
}

/// The closed set of surfaces a scene can hold; the sphere is the sole one.
#[derive(Clone, Copy, Debug)]
pub enum Hitable {
    Sphere(Sphere),
}

/// Well-formedness of one surface.
pub open spec fn hitable_ok(h: Hitable) -> bool {
    match h {
        Hitable::Sphere(s) => sphere_ok(sp3(s)),
    }
}

/// Intersection with one surface.
pub open spec fn hitable_hit(h: Hitable, r: R3, t_min: int, t_max: int) -> Option<H3> {
    match h {
        Hitable::Sphere(s) => sphere_hit(sp3(s), r, t_min, t_max),
    }
}

impl Hitable {
    /// The nearest intersection with this surface, exactly per `hitable_hit`.
    pub fn hit(&self, ray: Ray, t_min: i64, t_max: i64) -> (res: Option<HitRecord>)
        requires
            hitable_ok(*self),
            hit_query_ok(r3(ray), t_min as int, t_max as int),
        ensures
            opt_h3(res) == hitable_hit(*self, r3(ray), t_min as int, t_max as int),
    {
        match self {
            Hitable::Sphere(s) => s.hit(ray, t_min, t_max),
        }
    }
}

/// Every surface of the scene is well-formed.
pub open spec fn scene_ok(scene: Seq<Hitable>) -> bool {
    forall|i: int| 0 <= i < scene.len() ==> hitable_ok(#[trigger] scene[i])
}

/// The nearest hit among the first `n` surfaces of the scene; when two hits
/// share the same parameter, the earlier surface wins.
pub open spec fn scan_hits(scene: Seq<Hitable>, r: R3, t_min: int, t_max: int, n: int) -> Option<
    H3,
>
    decreases n,
{
    if n <= 0 {
        None
    } else {
        let prev: Option<H3> = scan_hits(scene, r, t_min, t_max, n - 1);
        let cur: Option<H3> = hitable_hit(scene[n - 1], r, t_min, t_max);
        match prev {
            None => cur,
            Some(b) => match cur {
                None => prev,
                Some(h) => if h.t < b.t {
                    cur
                } else {
                    prev
                },
            },
        }
    }
}

/// A hit reported by a well-formed scene carries a well-formed material.
pub proof fn lemma_scan_hits_material(scene: Seq<Hitable>, r: R3, t_min: int, t_max: int, n: int)
    requires
        scene_ok(scene),
        0 <= n <= scene.len(),
    ensures
        scan_hits(scene, r, t_min, t_max, n) matches Some(h) ==> material_ok(h.material),
    decreases n,
{
    if n > 0 {
        lemma_scan_hits_material(scene, r, t_min, t_max, n - 1);
        assert(hitable_ok(scene[n - 1]));
    }
}

/// The nearest hit over the whole scene.
pub open spec fn scene_hit(scene: Seq<Hitable>, r: R3, t_min: int, t_max: int) -> Option<H3> {
    scan_hits(scene, r, t_min, t_max, scene.len() as int)
}

/// The nearest hit of `r` in `(t_min, t_max)` over every surface of the
/// scene, scanned in order; of two equally near hits the first-encountered
/// surface's is returned.
pub fn get_hits(hitables: &Vec<Hitable>, r: Ray, t_min: i64, t_max: i64) -> (res: Option<
    HitRecord,
>)
    requires
        scene_ok(hitables@),
        hit_query_ok(r3(r), t_min as int, t_max as int),
    ensures
        opt_h3(res) == scene_hit(hitables@, r3(r), t_min as int, t_max as int),
{
    let mut best: Option<HitRecord> = None;
    let mut i: usize = 0;
    while i < hitables.len()
        invariant
            i <= hitables.len(),
            scene_ok(hitables@),
            hit_query_ok(r3(r), t_min as int, t_max as int),
            opt_h3(best) == scan_hits(hitables@, r3(r), t_min as int, t_max as int, i as int),
        decreases hitables.len() - i,
    {
        let cur: Option<HitRecord> = hitables[i].hit(r, t_min, t_max);
        match cur {
            Some(h) => {
                match best {
                    Some(b) => {
                        if h.t < b.t {
                            best = Some(h);
                        }
                    },
                    None => {
                        best = Some(h);
                    },
                }
            },
            None => {},
        }
        i = i + 1;
    }
    best
}

} // verus!
