//! Materials and their scattering behaviour.
//!
//! Scattering draws randomness, so each material has a deterministic core
//! (`scatter_with`) whose contract pins the result down exactly for a given
//! random draw, and a `scatter` that makes the draw and calls the core.

use vstd::prelude::*;
use crate::fixed::{
    SCALE, absi, fmul, fdiv, fsqrt, fx_mul, fx_div, tdiv128, lemma_tdiv_abs, lemma_tdiv_bound,
    lemma_mul_abs, lemma_fmul_abs,
};
use vstd::arithmetic::div_mod::lemma_div_is_ordered_by_denominator;
use crate::vec3d::{
    Vec3d, V3, v3, opt_v3, addv, subv, negv, scalev, boundedv, dotv, lsqv, lenv, unitv,
    lemma_dotv_abs, lemma_lsqv_abs, lemma_lenv_lower, lemma_unitv_abs,
};
use crate::ray::{Ray, R3, r3};
use crate::geometry::{HitRecord, H3, h3, hit_ok, DIR_LIMIT};
use crate::rng::random_unit_fraction;

verus! {

/// Smallest refractive index the scaled representation supports (1/256).
pub const REF_IDX_MIN: i64 = 256;

/// Largest refractive index the scaled representation supports (256.0).
pub const REF_IDX_MAX: i64 = 0x100_0000;

/// A scattered ray and the attenuation to apply to its contribution.
#[derive(Clone, Copy, Debug)]
pub struct Scattered {
    pub ray: Ray,
    pub attenuation: Vec3d,
}

/// Mathematical view of a scattering result.
pub ghost struct Sc3 {
    pub ray: R3,
    pub attenuation: V3,
}

/// Mathematical view of a `Scattered`.
pub open spec fn sc3(s: Scattered) -> Sc3 {
    Sc3 { ray: r3(s.ray), attenuation: v3(s.attenuation) }
}

/// Mathematical view of an optional scattering result.
pub open spec fn opt_sc3(o: Option<Scattered>) -> Option<Sc3> {
    match o {
        Some(s) => Some(sc3(s)),
        None => None,
    }
}

/// Every component lies in `[0, 1]`, as an albedo's must.
pub open spec fn unit_box(a: V3) -> bool {
    0 <= a.x <= SCALE as int && 0 <= a.y <= SCALE as int && 0 <= a.z <= SCALE as int
}

/// A diffuse material.
#[derive(Clone, Copy, Debug)]
pub struct Lambertian {
    pub albedo: Vec3d,
}

/// A specular material with a roughness parameter.
#[derive(Clone, Copy, Debug)]
pub struct Metal {
    pub albedo: Vec3d,
    pub fuzz: i64,
}

/// A refractive, colorless material.
#[derive(Clone, Copy, Debug)]
pub struct Dielectric {
    pub ref_idx: i64,
}

/// The closed set of materials, dispatched as a tagged enumeration.
#[derive(Clone, Copy, Debug)]
pub enum Material {
    Lambertian(Lambertian),
    Metal(Metal),
    Dielectric(Dielectric),
}

pub open spec fn lambertian_ok(l: Lambertian) -> bool {
    unit_box(v3(l.albedo))
}

pub open spec fn metal_ok(m: Metal) -> bool {
    unit_box(v3(m.albedo)) && 0 <= m.fuzz <= SCALE
}

pub open spec fn dielectric_ok(d: Dielectric) -> bool {
    REF_IDX_MIN <= d.ref_idx <= REF_IDX_MAX
}

/// A well-formed material: albedo channels in `[0, 1]`, fuzz in `[0, 1]`,
/// refractive index within the supported positive range.
pub open spec fn material_ok(m: Material) -> bool {
    match m {
        Material::Lambertian(l) => lambertian_ok(l),
        Material::Metal(mt) => metal_ok(mt),
        Material::Dielectric(d) => dielectric_ok(d),
    }
}

/// The attenuation a material applies to the light it scatters: the albedo
/// for diffuse and specular surfaces, `(1, 1, 1)` for refractive ones.
pub open spec fn att_of(m: Material) -> V3 {
    match m {
        Material::Lambertian(l) => v3(l.albedo),
        Material::Metal(mt) => v3(mt.albedo),
        Material::Dielectric(_) => V3 { x: SCALE as int, y: SCALE as int, z: SCALE as int },
    }
}

/// An incoming ray well-formed for scattering: bounded nonzero direction.
pub open spec fn scatter_ray_ok(r: R3) -> bool {
    boundedv(r.dir, DIR_LIMIT as int) && lsqv(r.dir) >= 1
}

/// Mirror reflection: `v - n * dot(v, n) * 2`.
pub open spec fn reflectv(v: V3, n: V3) -> V3 {
    subv(v, scalev(scalev(n, dotv(v, n)), 2 * (SCALE as int)))
}

/// Snell refraction of `v` through a surface with outward normal `n` and
/// refraction ratio `ni_over_nt`; `None` when total internal reflection
/// occurs (`1 - ratio^2 * (1 - cos^2)` not positive).
pub open spec fn refractv(v: V3, n: V3, ni_over_nt: int) -> Option<V3> {
    let uv: V3 = unitv(v);
    let dt: int = dotv(uv, n);
    let disc: int = (SCALE as int) - fmul(
        fmul(ni_over_nt, ni_over_nt),
        (SCALE as int) - fmul(dt, dt),
    );
    if disc > 0 {
        Some(subv(scalev(subv(uv, scalev(n, dt)), ni_over_nt), scalev(n, fsqrt(disc))))
    } else {
        None
    }
}

/// Schlick's reflectance approximation:
/// `r0 + (1 - r0) * (1 - cosine)^5` with `r0 = ((1 - n) / (1 + n))^2`.
pub open spec fn schlick_spec(cosine: int, ref_idx: int) -> int {
    let r0: int = fdiv((SCALE as int) - ref_idx, (SCALE as int) + ref_idx);
    let r0sq: int = fmul(r0, r0);
    let x: int = (SCALE as int) - cosine;
    let x5: int = fmul(fmul(fmul(x, x), fmul(x, x)), x);
    r0sq + fmul((SCALE as int) - r0sq, x5)
}

/// A cosine clamped into `[-1, 1]`, the range Schlick's approximation is
/// meant for (the scaled arithmetic can push the computed cosine slightly
/// past it; the clamp only influences the probabilistic branch choice).
pub open spec fn clamp_unit(x: int) -> int {
    if x > SCALE as int {
        SCALE as int
    } else if x < -(SCALE as int) {
        -(SCALE as int)
    } else {
        x
    }
}

/// Diffuse scattering with the random in-sphere offset `rnd` made explicit:
/// the new ray leaves the hit point toward `normal + rnd` and is attenuated
/// by the albedo.
pub open spec fn lambertian_scatter(albedo: V3, h: H3, rnd: V3) -> Sc3 {
    Sc3 { ray: R3 { orig: h.p, dir: addv(h.normal, rnd) }, attenuation: albedo }
}

/// Specular scattering with the random fuzz offset `rnd` made explicit: the
/// unit incoming direction is mirrored about the normal and perturbed by
/// `rnd * fuzz`; the ray is absorbed (`None`) unless the result points to the
/// outward side of the surface.
pub open spec fn metal_scatter(albedo: V3, fuzz: int, r: R3, h: H3, rnd: V3) -> Option<Sc3> {
    let reflected: V3 = reflectv(unitv(r.dir), h.normal);
    let dir: V3 = addv(reflected, scalev(rnd, fuzz));
    if dotv(dir, h.normal) > 0 {
        Some(Sc3 { ray: R3 { orig: h.p, dir }, attenuation: albedo })
    } else {
        None
    }
}

/// Refractive scattering with the uniform draw made explicit.  The side the
/// ray meets the surface from picks the outward normal, the refraction ratio
/// and the cosine; where refraction is possible the ray is reflected exactly
/// when the draw falls below the Schlick reflectance (so reflection happens
/// with probability equal to the reflectance), and where it is not the ray
/// is reflected.  Dielectrics are colorless: the attenuation is `(1, 1, 1)`
/// and the result is always `Some`.
pub open spec fn dielectric_scatter(ref_idx: int, r: R3, h: H3, draw: int) -> Sc3 {
    let reflected: V3 = reflectv(r.dir, h.normal);
    let dn: int = dotv(r.dir, h.normal);
    let len: int = lenv(r.dir);
    let outward: V3 = if dn > 0 {
        negv(h.normal)
    } else {
        h.normal
    };
    let ni_over_nt: int = if dn > 0 {
        ref_idx
    } else {
        fdiv(SCALE as int, ref_idx)
    };
    let cosine: int = clamp_unit(
        if dn > 0 {
            fdiv(fmul(ref_idx, dn), len)
        } else {
            fdiv(-dn, len)
        },
    );
    let dir: V3 = match refractv(r.dir, outward, ni_over_nt) {
        Some(refracted) => if draw < schlick_spec(cosine, ref_idx) {
            reflected
        } else {
            refracted
        },
        None => reflected,
    };
    Sc3 {
        ray: R3 { orig: h.p, dir },
        attenuation: V3 { x: SCALE as int, y: SCALE as int, z: SCALE as int },
    }
}

/// Mirror reflection of `v` about `n`, exactly per `reflectv`.
fn reflect(v: Vec3d, n: Vec3d) -> (r: Vec3d)
    requires
        boundedv(v3(v), 0x800_0000_0000),
        boundedv(v3(n), 0x10_0000),
    ensures
        v3(r) == reflectv(v3(v), v3(n)),
        boundedv(v3(r), 0x31_0000_0000_0000),
{
    proof {
        lemma_dotv_abs(v3(v), v3(n), 0x800_0000_0000, 0x10_0000);
        let d: int = dotv(v3(v), v3(n));
        lemma_fmul_abs(v3(n).x, d, 0x10_0000, 0x1_8000_0000_0000);
        lemma_fmul_abs(v3(n).y, d, 0x10_0000, 0x1_8000_0000_0000);
        lemma_fmul_abs(v3(n).z, d, 0x10_0000, 0x1_8000_0000_0000);
        lemma_fmul_abs(fmul(v3(n).x, d), 131072, 0x18_0000_0000_0000, 131072);
        lemma_fmul_abs(fmul(v3(n).y, d), 131072, 0x18_0000_0000_0000, 131072);
        lemma_fmul_abs(fmul(v3(n).z, d), 131072, 0x18_0000_0000_0000, 131072);
    }
    let d: i64 = v.dot(n);
    v.sub(n.scale(d).scale(131072))
}

/// Snell refraction, exactly per `refractv`.
fn refract(v: Vec3d, n: Vec3d, ni_over_nt: i64) -> (r: Option<Vec3d>)
    requires
        boundedv(v3(v), DIR_LIMIT as int),
        lsqv(v3(v)) >= 1,
        boundedv(v3(n), 0x10_0000),
        0 <= ni_over_nt <= 0x100_0000,
    ensures
        opt_v3(r) == refractv(v3(v), v3(n), ni_over_nt as int),
{
    let uv: Vec3d = v.unit_vector();
    proof {
        lemma_unitv_abs(v3(v));
        lemma_dotv_abs(v3(uv), v3(n), 0x800_0000_0000, 0x10_0000);
    }
    let dt: i64 = uv.dot(n);
    proof {
        lemma_mul_abs(dt as int, dt as int, 0x1_8000_0000_0000, 0x1_8000_0000_0000);
        lemma_tdiv_bound((dt as int) * (dt as int), 65536, 0x2_4000_0000_0000_0000_0000_0000);
        lemma_mul_abs(ni_over_nt as int, ni_over_nt as int, 0x100_0000, 0x100_0000);
        lemma_tdiv_bound((ni_over_nt as int) * (ni_over_nt as int), 65536, 0x1_0000_0000_0000);
    }
    let dt2: i128 = tdiv128((dt as i128) * (dt as i128), 65536);
    let nn: i128 = tdiv128((ni_over_nt as i128) * (ni_over_nt as i128), 65536);
    proof {
        lemma_mul_abs(nn as int, 65536 - dt2 as int, 0x1_0000_0000, 0x2_4001_0000_0000_0000_0000);
        lemma_tdiv_bound(
            (nn as int) * (65536 - dt2 as int),
            65536,
            0x2_4001_0000_0000_0000_0000_0000_0000,
        );
    }
    let disc: i128 = 65536 - tdiv128(nn * (65536 - dt2), 65536);
    if disc > 0 {
        let root_wide: i128 = crate::geometry::sqrt_wide(disc);
        proof {
            assert(root_wide < 0x400_0000_0000_0000int) by (nonlinear_arith)
                requires
                    root_wide >= 0,
                    (root_wide as int) * (root_wide as int) <= (disc as int) * 65536,
                    (disc as int) < 0x10_0000_0000_0000_0000_0000_0000int;
            let dtv: int = dotv(unitv(v3(v)), v3(n));
            lemma_fmul_abs(v3(n).x, dtv, 0x10_0000, 0x1_8000_0000_0000);
            lemma_fmul_abs(v3(n).y, dtv, 0x10_0000, 0x1_8000_0000_0000);
            lemma_fmul_abs(v3(n).z, dtv, 0x10_0000, 0x1_8000_0000_0000);
            let inner: V3 = subv(unitv(v3(v)), scalev(v3(n), dtv));
            lemma_fmul_abs(inner.x, ni_over_nt as int, 0x18_0800_0000_0000, 0x100_0000);
            lemma_fmul_abs(inner.y, ni_over_nt as int, 0x18_0800_0000_0000, 0x100_0000);
            lemma_fmul_abs(inner.z, ni_over_nt as int, 0x18_0800_0000_0000, 0x100_0000);
            lemma_fmul_abs(v3(n).x, root_wide as int, 0x10_0000, 0x400_0000_0000_0000);
            lemma_fmul_abs(v3(n).y, root_wide as int, 0x10_0000, 0x400_0000_0000_0000);
            lemma_fmul_abs(v3(n).z, root_wide as int, 0x10_0000, 0x400_0000_0000_0000);
        }
        let root: i64 = root_wide as i64;
        Some(uv.sub(n.scale(dt)).scale(ni_over_nt).sub(n.scale(root)))
    } else {
        None
    }
}

/// Schlick's reflectance, exactly per `schlick_spec`.
pub fn schlick(cosine: i64, ref_idx: i64) -> (r: i64)
    requires
        absi(cosine as int) <= 262144,
        REF_IDX_MIN <= ref_idx <= REF_IDX_MAX,
    ensures
        r as int == schlick_spec(cosine as int, ref_idx as int),
{
    proof {
        lemma_mul_abs(65536 - ref_idx as int, 65536, 0x100_0000, 65536);
        lemma_tdiv_bound((65536 - ref_idx as int) * 65536, 65536 + ref_idx as int, 0x100_0000_0000);
        lemma_div_is_ordered_by_denominator(0x100_0000_0000, 65536, 65536 + ref_idx as int);
        let r0: int = fdiv(65536 - ref_idx as int, 65536 + ref_idx as int);
        lemma_fmul_abs(r0, r0, 0x100_0000, 0x100_0000);
        assert(r0 * r0 >= 0) by (nonlinear_arith);
        lemma_tdiv_abs(r0 * r0, 65536);
        let x: int = 65536 - cosine as int;
        lemma_fmul_abs(x, x, 0x5_0000, 0x5_0000);
        let x2: int = fmul(x, x);
        lemma_fmul_abs(x2, x2, 0x19_0000, 0x19_0000);
        let x4: int = fmul(x2, x2);
        lemma_fmul_abs(x4, x, 0x271_0000, 0x5_0000);
        let x5: int = fmul(x4, x);
        lemma_fmul_abs(65536 - fmul(r0, r0), x5, 0x1_0001_0000, 0xC350_0000);
    }
    let r0: i64 = fx_div(65536 - ref_idx, 65536 + ref_idx);
    let r0sq: i64 = fx_mul(r0, r0);
    let x: i64 = 65536 - cosine;
    let x2: i64 = fx_mul(x, x);
    let x4: i64 = fx_mul(x2, x2);
    let x5: i64 = fx_mul(x4, x);
    r0sq + fx_mul(65536 - r0sq, x5)
}

/// One cosine clamped into `[-1, 1]`, exactly per `clamp_unit`.
fn clamp_cosine(x: i64) -> (r: i64)
    ensures
        r as int == clamp_unit(x as int),
{
    if x > 65536 {
        65536
    } else if x < -65536 {
        -65536
    } else {
        x
    }
}

impl Lambertian {
    /// Deterministic core of `scatter`: the random in-sphere offset is a
    /// parameter.  Always scatters.
    pub fn scatter_with(&self, hit: &HitRecord, rnd: Vec3d) -> (r: Option<Scattered>)
        requires
            hit_ok(h3(*hit)),
            boundedv(v3(rnd), SCALE as int),
        ensures
            opt_sc3(r) == Some(lambertian_scatter(v3(self.albedo), h3(*hit), v3(rnd))),
    {
        let target: Vec3d = hit.p.add(hit.normal).add(rnd);
        let ray: Ray = Ray::new(hit.p, target.sub(hit.p));
        Some(Scattered { ray, attenuation: self.albedo })
    }

    /// Diffuse scattering: always `Some`; the ray leaves the hit point toward
    /// the normal offset by a random point of the unit sphere, attenuated by
    /// the albedo.
    pub fn scatter(&self, _ray: &Ray, hit: &HitRecord) -> (r: Option<Scattered>)
        requires
            hit_ok(h3(*hit)),
        ensures
            r is Some,
            r matches Some(s) ==> sc3(s).ray.orig == h3(*hit).p && sc3(s).attenuation == v3(
                self.albedo,
            ),
            exists|rnd: V3|
                0 <= lsqv(rnd) < SCALE as int && boundedv(rnd, SCALE as int) && opt_sc3(r)
                    == Some(#[trigger] lambertian_scatter(v3(self.albedo), h3(*hit), rnd)),
    {
        let rnd: Vec3d = Vec3d::random_in_unit_sphere();
        let res: Option<Scattered> = self.scatter_with(hit, rnd);
        proof {
            assert(opt_sc3(res) == Some(
                lambertian_scatter(v3(self.albedo), h3(*hit), v3(rnd)),
            ));
        }
        res
    }
}

impl Metal {
    /// Deterministic core of `scatter`: the random fuzz offset is a
    /// parameter.
    pub fn scatter_with(&self, ray: &Ray, hit: &HitRecord, rnd: Vec3d) -> (r: Option<Scattered>)
        requires
            metal_ok(*self),
            hit_ok(h3(*hit)),
            scatter_ray_ok(r3(*ray)),
            boundedv(v3(rnd), SCALE as int),
        ensures
            opt_sc3(r) == metal_scatter(
                v3(self.albedo),
                self.fuzz as int,
                r3(*ray),
                h3(*hit),
                v3(rnd),
            ),
    {
        proof {
            lemma_unitv_abs(r3(*ray).dir);
        }
        let reflected: Vec3d = reflect(ray.direction().unit_vector(), hit.normal);
        proof {
            let refl: V3 = reflectv(unitv(r3(*ray).dir), v3(hit.normal));
            lemma_fmul_abs(v3(rnd).x, self.fuzz as int, 65536, 65536);
            lemma_fmul_abs(v3(rnd).y, self.fuzz as int, 65536, 65536);
            lemma_fmul_abs(v3(rnd).z, self.fuzz as int, 65536, 65536);
            lemma_dotv_abs(
                addv(refl, scalev(v3(rnd), self.fuzz as int)),
                v3(hit.normal),
                0x32_0000_0000_0000,
                0x10_0000,
            );
        }
        let scattered: Ray = Ray::new(hit.p, reflected.add(rnd.scale(self.fuzz)));
        let d: i64 = scattered.direction().dot(hit.normal);
        if d > 0 {
            Some(Scattered { ray: scattered, attenuation: self.albedo })
        } else {
            None
        }
    }

    /// Specular scattering: `Some` exactly when the fuzzed reflection leaves
    /// the surface on the outward side, attenuated by the albedo.
    pub fn scatter(&self, ray: &Ray, hit: &HitRecord) -> (r: Option<Scattered>)
        requires
            metal_ok(*self),
            hit_ok(h3(*hit)),
            scatter_ray_ok(r3(*ray)),
        ensures
            r matches Some(s) ==> {
                &&& sc3(s).ray.orig == h3(*hit).p
                &&& sc3(s).attenuation == v3(self.albedo)
                &&& dotv(sc3(s).ray.dir, h3(*hit).normal) > 0
            },
            exists|rnd: V3|
                0 <= lsqv(rnd) < SCALE as int && boundedv(rnd, SCALE as int) && opt_sc3(r)
                    == #[trigger] metal_scatter(
                    v3(self.albedo),
                    self.fuzz as int,
                    r3(*ray),
                    h3(*hit),
                    rnd,
                ),
    {
        let rnd: Vec3d = Vec3d::random_in_unit_sphere();
        let res: Option<Scattered> = self.scatter_with(ray, hit, rnd);
        proof {
            assert(opt_sc3(res) == metal_scatter(
                v3(self.albedo),
                self.fuzz as int,
                r3(*ray),
                h3(*hit),
                v3(rnd),
            ));
        }
        res
    }
}

impl Dielectric {
    /// Deterministic core of `scatter`: the uniform draw deciding between
    /// reflection and refraction is a parameter.  Always scatters.
    pub fn scatter_with(&self, ray: &Ray, hit: &HitRecord, draw: i64) -> (r: Option<Scattered>)
        requires
            dielectric_ok(*self),
            hit_ok(h3(*hit)),
            scatter_ray_ok(r3(*ray)),
        ensures
            opt_sc3(r) == Some(
                dielectric_scatter(self.ref_idx as int, r3(*ray), h3(*hit), draw as int),
            ),
    {
        proof {
            lemma_dotv_abs(r3(*ray).dir, h3(*hit).normal, DIR_LIMIT as int, 0x10_0000);
            lemma_lsqv_abs(r3(*ray).dir, DIR_LIMIT as int);
            lemma_lenv_lower(r3(*ray).dir);
        }
        let reflected: Vec3d = reflect(ray.direction(), hit.normal);
        let attenuation: Vec3d = Vec3d::new(65536, 65536, 65536);
        let dn: i64 = ray.direction().dot(hit.normal);
        let len: i64 = ray.direction().length();
        proof {
            let dni: int = dotv(r3(*ray).dir, h3(*hit).normal);
            lemma_fmul_abs(self.ref_idx as int, dni, 0x100_0000, 0x1_8000_0000);
            lemma_mul_abs(fmul(self.ref_idx as int, dni), 65536, 0x1_8000_0000_0000, 65536);
            lemma_tdiv_bound(
                fmul(self.ref_idx as int, dni) * 65536,
                len as int,
                0x1_8000_0000_0000int * 65536,
            );
            lemma_mul_abs(-dni, 65536, 0x1_8000_0000, 65536);
            lemma_tdiv_bound((-dni) * 65536, len as int, 0x1_8000_0000int * 65536);
            lemma_mul_abs(65536, 65536, 65536, 65536);
            lemma_tdiv_bound(65536int * 65536, self.ref_idx as int, 0x1_0000_0000);
            lemma_div_is_ordered_by_denominator(0x1_0000_0000, 256, self.ref_idx as int);
            lemma_tdiv_abs(65536int * 65536, self.ref_idx as int);
        }
        let outward: Vec3d;
        let ni_over_nt: i64;
        let cosine_raw: i64;
        if dn > 0 {
            outward = hit.normal.neg();
            ni_over_nt = self.ref_idx;
            cosine_raw = fx_div(fx_mul(self.ref_idx, dn), len);
        } else {
            outward = hit.normal;
            ni_over_nt = fx_div(65536, self.ref_idx);
            cosine_raw = fx_div(-dn, len);
        }
        let cosine: i64 = clamp_cosine(cosine_raw);
        let dir: Vec3d = match refract(ray.direction(), outward, ni_over_nt) {
            Some(refracted) => {
                let prob: i64 = schlick(cosine, self.ref_idx);
                if draw < prob {
                    reflected
                } else {
                    refracted
                }
            },
            None => reflected,
        };
        Some(Scattered { ray: Ray::new(hit.p, dir), attenuation })
    }

    /// Refractive scattering: always `Some`, colorless (attenuation
    /// `(1, 1, 1)`); the ray is reflected or refracted.
    pub fn scatter(&self, ray: &Ray, hit: &HitRecord) -> (r: Option<Scattered>)
        requires
            dielectric_ok(*self),
            hit_ok(h3(*hit)),
            scatter_ray_ok(r3(*ray)),
        ensures
            r is Some,
            r matches Some(s) ==> {
                &&& sc3(s).ray.orig == h3(*hit).p
                &&& sc3(s).attenuation == (V3 {
                    x: SCALE as int,
                    y: SCALE as int,
                    z: SCALE as int,
                })
            },
            exists|draw: int|
                0 <= draw < SCALE as int && opt_sc3(r) == Some(
                    #[trigger] dielectric_scatter(self.ref_idx as int, r3(*ray), h3(*hit), draw),
                ),
    {
        let draw: i64 = random_unit_fraction();
        let res: Option<Scattered> = self.scatter_with(ray, hit, draw);
        proof {
            assert(opt_sc3(res) == Some(
                dielectric_scatter(self.ref_idx as int, r3(*ray), h3(*hit), draw as int),
            ));
        }
        res
    }
}

impl Material {
    /// Scattering for whichever material this is.  Whatever the random draws
    /// were: a scattered ray starts at the hit point and carries an
    /// attenuation in the unit box; diffuse and refractive materials always
    /// scatter; a specular ray, when returned, points to the outward side of
    /// the surface.
    pub fn scatter(&self, ray: &Ray, hit: &HitRecord) -> (r: Option<Scattered>)
        requires
            material_ok(*self),
            hit_ok(h3(*hit)),
            scatter_ray_ok(r3(*ray)),
        ensures
            r matches Some(s) ==> sc3(s).ray.orig == h3(*hit).p && unit_box(sc3(s).attenuation)
                && sc3(s).attenuation == att_of(*self),
            !((*self) is Metal) ==> r is Some,
            (*self) is Dielectric ==> (r matches Some(s) ==> sc3(s).attenuation == (V3 {
                x: SCALE as int,
                y: SCALE as int,
                z: SCALE as int,
            })),
            (*self) matches Material::Metal(m) ==> (r matches Some(s) ==> dotv(
                sc3(s).ray.dir,
                h3(*hit).normal,
            ) > 0 && sc3(s).attenuation == v3(m.albedo)),
    {
        match self {
            Material::Lambertian(l) => l.scatter(ray, hit),
            Material::Metal(m) => m.scatter(ray, hit),
            Material::Dielectric(d) => d.scatter(ray, hit),
        }
    }
}

} // verus!
