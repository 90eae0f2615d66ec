use raytracing_in_one_weekend::color::{rescale, Rgb};

#[test]
fn rescale_examples() {
    assert_eq!(rescale(0), 0);
    assert_eq!(rescale(65536), 255);
    assert_eq!(rescale(16384), 128);
}

#[test]
fn color_000000() {
    assert_eq!(Rgb::new(0, 0, 0).as_color(), (0, 0, 0));
}

#[test]
fn color_fffffff() {
    assert_eq!(Rgb::new(65536, 65536, 65536).as_color(), (255, 255, 255));
}

#[test]
fn color_ff0000() {
    assert_eq!(Rgb::new(65536, 0, 0).as_color(), (255, 0, 0));
}

#[test]
fn rescale_saturates() {
    // Channels past 1 saturate at 255; negative channels give 0.
    assert_eq!(rescale(200000), 255);
    assert_eq!(rescale(-5), 0);
}

#[test]
fn new_clamps_channels() {
    let c = Rgb::new(-10, 70000, 1234);
    assert_eq!(c, Rgb::new(0, 65536, 1234));
    assert_eq!(c.r, 0);
    assert_eq!(c.g, 65536);
    assert_eq!(c.b, 1234);
}

#[test]
fn add_accumulates_without_clamping() {
    let c = Rgb::new(40000, 40000, 40000).add(Rgb::new(40000, 40000, 40000));
    assert_eq!(c.r, 80000);
    assert_eq!(c.g, 80000);
    assert_eq!(c.b, 80000);
}

#[test]
fn div_scalar_averages() {
    let sum = Rgb::new(65536, 32768, 0).add(Rgb::new(0, 32768, 65536));
    // Dividing by 2.0 (raw 131072) averages the two colors.
    let avg = sum.div_scalar(131072);
    assert_eq!(avg, Rgb::new(32768, 32768, 32768));
}

#[test]
fn blend_midpoint() {
    let white = Rgb::new(65536, 65536, 65536);
    let sky = Rgb::new(32768, 45875, 65536);
    assert_eq!(white.blend(sky, 32768), Rgb::new(49152, 55705, 65536));
    assert_eq!(white.blend(sky, 0), white);
    assert_eq!(white.blend(sky, 65536), sky);
}

#[test]
fn mul_vec_attenuates() {
    let c = Rgb::new(65536, 32768, 65536);
    let half = raytracing_in_one_weekend::vec3d::Vec3d::new(32768, 32768, 0);
    assert_eq!(c.mul_vec(half), Rgb::new(32768, 16384, 0));
}
