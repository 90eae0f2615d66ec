use raytracing_in_one_weekend::geometry::HitRecord;
use raytracing_in_one_weekend::material::{
    schlick, Dielectric, Lambertian, Material, Metal,
};
use raytracing_in_one_weekend::ray::Ray;
use raytracing_in_one_weekend::vec3d::Vec3d;

fn hit_at_origin_facing_up() -> HitRecord {
    HitRecord {
        t: 65536,
        p: Vec3d::new(0, 0, 0),
        normal: Vec3d::new(0, 0, 65536),
        material: Material::Lambertian(Lambertian { albedo: Vec3d::new(32768, 32768, 32768) }),
    }
}

#[test]
fn lambertian_always_scatters() {
    let mat = Lambertian { albedo: Vec3d::new(6554, 13107, 32768) };
    let ray = Ray::new(Vec3d::new(0, 0, 65536), Vec3d::new(0, 0, -65536));
    let hit = hit_at_origin_facing_up();
    for _ in 0..16 {
        let s = mat.scatter(&ray, &hit).expect("a diffuse surface always scatters");
        assert_eq!(s.attenuation, mat.albedo);
        assert_eq!(s.ray.origin(), hit.p);
    }
}

#[test]
fn metal_reflects_straight_incidence() {
    let mat = Metal { albedo: Vec3d::new(52429, 39322, 13107), fuzz: 0 };
    let ray = Ray::new(Vec3d::new(0, 0, 65536), Vec3d::new(0, 0, -65536));
    let hit = hit_at_origin_facing_up();
    let s = mat.scatter_with(&ray, &hit, Vec3d::new(0, 0, 0)).expect("straight reflection");
    assert_eq!(s.ray.origin(), hit.p);
    assert_eq!(s.ray.direction(), Vec3d::new(0, 0, 65536));
    assert_eq!(s.attenuation, mat.albedo);
}

#[test]
fn metal_absorbs_fuzzed_grazing_reflection() {
    // A grazing ray with full fuzz and an offset pointing into the surface:
    // the fuzzed reflection dips below the surface and the ray is absorbed.
    let mat = Metal { albedo: Vec3d::new(52429, 39322, 13107), fuzz: 65536 };
    let ray = Ray::new(Vec3d::new(-65536, 0, 256), Vec3d::new(65536, 0, -256));
    let hit = hit_at_origin_facing_up();
    let s = mat.scatter_with(&ray, &hit, Vec3d::new(0, 0, -65535));
    assert!(s.is_none());
}

#[test]
fn dielectric_always_scatters_colorless() {
    let mat = Dielectric { ref_idx: 98304 };
    let ray = Ray::new(Vec3d::new(0, 0, 65536), Vec3d::new(0, 0, -65536));
    let hit = hit_at_origin_facing_up();
    for _ in 0..16 {
        let s = mat.scatter(&ray, &hit).expect("a dielectric always scatters");
        assert_eq!(s.attenuation, Vec3d::new(65536, 65536, 65536));
        assert_eq!(s.ray.origin(), hit.p);
    }
}

#[test]
fn dielectric_reflects_when_draw_below_reflectance() {
    // Straight incidence with n = 1.5: the reflectance is 2621/65536 (4%).
    // A draw below it picks the mirror reflection.
    let mat = Dielectric { ref_idx: 98304 };
    let ray = Ray::new(Vec3d::new(0, 0, 65536), Vec3d::new(0, 0, -65536));
    let hit = hit_at_origin_facing_up();
    let s = mat.scatter_with(&ray, &hit, 0).expect("a dielectric always scatters");
    assert_eq!(s.ray.direction(), Vec3d::new(0, 0, 65536));
    let s2 = mat.scatter_with(&ray, &hit, 2620).expect("a dielectric always scatters");
    assert_eq!(s2.ray.direction(), Vec3d::new(0, 0, 65536));
}

#[test]
fn dielectric_refracts_when_draw_above_reflectance() {
    // A draw at or above the reflectance refracts; at straight incidence
    // the refracted ray continues straight through.
    let mat = Dielectric { ref_idx: 98304 };
    let ray = Ray::new(Vec3d::new(0, 0, 65536), Vec3d::new(0, 0, -65536));
    let hit = hit_at_origin_facing_up();
    let s = mat.scatter_with(&ray, &hit, 2621).expect("a dielectric always scatters");
    assert_eq!(s.ray.direction(), Vec3d::new(0, 0, -65536));
    let s2 = mat.scatter_with(&ray, &hit, 32768).expect("a dielectric always scatters");
    assert_eq!(s2.ray.direction(), Vec3d::new(0, 0, -65536));
    assert_eq!(s2.attenuation, Vec3d::new(65536, 65536, 65536));
}

#[test]
fn schlick_normal_incidence_value() {
    // cosine = 1.0, n = 1.5: r0 = ((1 - 1.5) / (1 + 1.5))^2 = 0.04,
    // which is 2621 in units of 1/65536.
    assert_eq!(schlick(65536, 98304), 2621);
}

#[test]
fn schlick_grazing_incidence_is_higher() {
    // Reflectance grows toward grazing incidence (cosine near 0).
    let grazing = schlick(0, 98304);
    let straight = schlick(65536, 98304);
    assert!(grazing > straight);
    assert!(grazing <= 65536);
}
