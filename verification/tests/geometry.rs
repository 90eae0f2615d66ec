use raytracing_in_one_weekend::geometry::{get_hits, Hitable, Sphere};
use raytracing_in_one_weekend::material::{Lambertian, Material};
use raytracing_in_one_weekend::ray::Ray;
use raytracing_in_one_weekend::vec3d::Vec3d;

fn gray() -> Material {
    Material::Lambertian(Lambertian { albedo: Vec3d::new(32768, 32768, 32768) })
}

#[test]
fn aimed_ray_hits_sphere() {
    // A ray from the origin straight at a sphere of radius 0.5 centered one
    // unit down the -z axis: it hits at t = 0.5 with the outward +z normal.
    let sphere = Sphere { center: Vec3d::new(0, 0, -65536), radius: 32768, material: gray() };
    let ray = Ray::new(Vec3d::new(0, 0, 0), Vec3d::new(0, 0, -65536));
    let hit = sphere.hit(ray, 66, 1 << 30).expect("the aimed ray must hit");
    assert!(hit.t > 0);
    assert_eq!(hit.t, 32768);
    assert_eq!(hit.p, Vec3d::new(0, 0, -32768));
    // The normal is (p - center) / radius: it points away from the center.
    assert_eq!(hit.normal, Vec3d::new(0, 0, 65536));
    assert_eq!(hit.p.sub(sphere.center).unit_vector(), hit.normal);
}

#[test]
fn offset_ray_misses_sphere() {
    // Same sphere; the ray passes one unit above it (offset > radius).
    let sphere = Sphere { center: Vec3d::new(0, 0, -65536), radius: 32768, material: gray() };
    let ray = Ray::new(Vec3d::new(0, 65536, -65536), Vec3d::new(0, 0, -65536));
    assert!(sphere.hit(ray, 66, 1 << 30).is_none());
}

#[test]
fn hit_outside_interval_is_discarded() {
    let sphere = Sphere { center: Vec3d::new(0, 0, -65536), radius: 32768, material: gray() };
    let ray = Ray::new(Vec3d::new(0, 0, 0), Vec3d::new(0, 0, -65536));
    // Both roots (0.5 and 1.5) lie beyond t_max = 0.25.
    assert!(sphere.hit(ray, 66, 16384).is_none());
    // The interval is open: the near root exactly at t_min does not count,
    // so the far root 1.5 is reported instead.
    assert_eq!(sphere.hit(ray, 32768, 131072).map(|h| h.t), Some(98304));
    // With t_max at the far root, nothing is left.
    assert!(sphere.hit(ray, 32768, 98304).is_none());
}

#[test]
fn get_hits_returns_nearest() {
    let near = Sphere { center: Vec3d::new(0, 0, -65536), radius: 16384, material: gray() };
    let far = Sphere { center: Vec3d::new(0, 0, -262144), radius: 16384, material: gray() };
    let scene = vec![Hitable::Sphere(far), Hitable::Sphere(near)];
    let ray = Ray::new(Vec3d::new(0, 0, 0), Vec3d::new(0, 0, -65536));
    let hit = get_hits(&scene, ray, 66, 1 << 30).expect("one of the spheres must be hit");
    assert_eq!(hit.t, 49152);
    let empty: Vec<Hitable> = vec![];
    assert!(get_hits(&empty, ray, 66, 1 << 30).is_none());
}

#[test]
fn ray_accessors_and_evaluation() {
    let ray = Ray::new(Vec3d::new(65536, 0, 0), Vec3d::new(0, 65536, 0));
    assert_eq!(ray.origin(), Vec3d::new(65536, 0, 0));
    assert_eq!(ray.direction(), Vec3d::new(0, 65536, 0));
    assert_eq!(ray.point_at_parameter(32768), Vec3d::new(65536, 32768, 0));
    assert_eq!(ray.point_at_parameter(-65536), Vec3d::new(65536, -65536, 0));
}

#[test]
fn degenerate_direction_reports_no_hit() {
    // A zero direction (and any direction whose squared length rounds to
    // zero) makes the quadratic degenerate; the query reports no hit.
    let sphere = Sphere { center: Vec3d::new(0, 0, -65536), radius: 32768, material: gray() };
    let stuck = Ray::new(Vec3d::new(0, 0, 0), Vec3d::new(0, 0, 0));
    assert!(sphere.hit(stuck, 66, 1 << 30).is_none());
    let tiny = Ray::new(Vec3d::new(0, 0, 0), Vec3d::new(0, 0, -100));
    assert!(sphere.hit(tiny, 66, 1 << 30).is_none());
}
