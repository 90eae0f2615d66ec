use raytracing_in_one_weekend::camera::Camera;
use raytracing_in_one_weekend::color::Rgb;
use raytracing_in_one_weekend::geometry::{Hitable, Sphere};
use raytracing_in_one_weekend::material::{Lambertian, Material};
use raytracing_in_one_weekend::ray::Ray;
use raytracing_in_one_weekend::tracer::{
    camera_in_range, get_color, sample_pixel, scene_in_range, MAX_DEPTH,
};
use raytracing_in_one_weekend::vec3d::Vec3d;

fn one_sphere_scene() -> Vec<Hitable> {
    vec![Hitable::Sphere(Sphere {
        center: Vec3d::new(0, 0, -65536),
        radius: 32768,
        material: Material::Lambertian(Lambertian { albedo: Vec3d::new(32768, 32768, 32768) }),
    })]
}

fn center_ray() -> Ray {
    Ray::new(Vec3d::new(0, 0, 0), Vec3d::new(0, 0, -65536))
}

#[test]
fn empty_scene_gives_background_gradient() {
    let scene: Vec<Hitable> = vec![];
    // Straight down -z: the unit direction has height 0, so the background
    // is the even blend of white and sky blue.
    let color = get_color(center_ray(), &scene, 0, MAX_DEPTH);
    assert_eq!(color, Rgb::new(49152, 55705, 65536));
    // Every escaping ray yields a gradient color with no black channel.
    let up = Ray::new(Vec3d::new(0, 0, 0), Vec3d::new(0, 32768, -65536));
    let c2 = get_color(up, &scene, 0, MAX_DEPTH);
    assert!(c2.r > 0 && c2.g > 0 && c2.b > 0);
}

#[test]
fn single_sphere_center_ray_is_neither_black_nor_white() {
    let scene = one_sphere_scene();
    let color = get_color(center_ray(), &scene, 0, MAX_DEPTH);
    assert!(!(color.r == 0 && color.g == 0 && color.b == 0));
    assert!(!(color.r == 65536 && color.g == 65536 && color.b == 65536));
    // The 0.5 albedo caps every channel at half intensity.
    assert!(color.r <= 32768 && color.g <= 32768 && color.b <= 32768);
}

#[test]
fn zero_depth_budget_gives_black_on_any_hit() {
    let scene = one_sphere_scene();
    for _ in 0..8 {
        let color = get_color(center_ray(), &scene, 0, 0);
        assert_eq!(color, Rgb::new(0, 0, 0));
    }
}

#[test]
fn default_camera_corner_ray() {
    let cam = Camera::default();
    assert!(camera_in_range(&cam));
    let ray = cam.get_ray(0, 0);
    assert_eq!(ray.origin(), Vec3d::new(0, 0, 0));
    assert_eq!(ray.direction(), Vec3d::new(-131072, -65536, -65536));
    let center = cam.get_ray(32768, 32768);
    assert_eq!(center.direction(), Vec3d::new(0, 0, -65536));
}

#[test]
fn sample_pixel_stays_in_range() {
    let cam = Camera::default();
    let scene = one_sphere_scene();
    assert!(scene_in_range(&scene));
    let color = sample_pixel(&cam, &scene, 2, 1, 4, 2, 3, 5);
    assert!(0 <= color.r && color.r <= 65536);
    assert!(0 <= color.g && color.g <= 65536);
    assert!(0 <= color.b && color.b <= 65536);
}

#[test]
fn scene_in_range_rejects_bad_radius() {
    let bad = vec![Hitable::Sphere(Sphere {
        center: Vec3d::new(0, 0, 0),
        radius: 0,
        material: Material::Lambertian(Lambertian { albedo: Vec3d::new(0, 0, 0) }),
    })];
    assert!(!scene_in_range(&bad));
}

#[test]
fn sample_pixel_empty_scene_is_never_black() {
    // With no geometry every sample is the background gradient, whose blue
    // channel is exactly 1.0 — so the averaged pixel keeps it.
    let cam = Camera::default();
    let scene: Vec<Hitable> = vec![];
    let color = sample_pixel(&cam, &scene, 1, 0, 4, 2, 4, 50);
    assert_eq!(color.b, 65536);
    assert!(color.r > 0 && color.g > 0);
}

#[test]
fn sample_pixel_enclosed_camera_zero_depth_is_black() {
    // A large sphere around the camera: every ray hits it from inside, and
    // with no depth budget every sample is black.
    let cam = Camera::default();
    let scene = vec![Hitable::Sphere(Sphere {
        center: Vec3d::new(0, 0, 0),
        radius: 16 * 65536,
        material: Material::Lambertian(Lambertian { albedo: Vec3d::new(32768, 32768, 32768) }),
    })];
    let color = sample_pixel(&cam, &scene, 0, 0, 4, 2, 4, 0);
    assert_eq!(color, Rgb::new(0, 0, 0));
}
