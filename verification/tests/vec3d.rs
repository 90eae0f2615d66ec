use raytracing_in_one_weekend::vec3d::Vec3d;

#[test]
fn dot_commutes_on_samples() {
    let a = Vec3d::new(65536, -32768, 98304);
    let b = Vec3d::new(-17, 40000, 123456);
    assert_eq!(a.dot(b), b.dot(a));
    let c = Vec3d::new(0, 0, 0);
    assert_eq!(a.dot(c), c.dot(a));
}

#[test]
fn sum_length_squared_nonneg_on_samples() {
    let a = Vec3d::new(-65536, -131072, -17);
    let b = Vec3d::new(65535, 131072, 3);
    assert!(a.add(b).length_squared() >= 0);
    assert!(a.add(a).length_squared() >= 0);
}

#[test]
fn dot_exact_value() {
    // (1, 2, 3) . (4, 5, 6) = 32
    let a = Vec3d::new(65536, 131072, 196608);
    let b = Vec3d::new(262144, 327680, 393216);
    assert_eq!(a.dot(b), 32 * 65536);
    assert_eq!(a.dot_with_self(), 14 * 65536);
}

#[test]
fn length_of_three_four_zero() {
    // |(3, 4, 0)| = 5 exactly.
    let v = Vec3d::new(196608, 262144, 0);
    assert_eq!(v.length_squared(), 25 * 65536);
    assert_eq!(v.length(), 5 * 65536);
}

#[test]
fn unit_vector_has_length_close_to_one() {
    let v = Vec3d::new(196608, 262144, 0);
    let len = v.unit_vector().length();
    assert!((len - 65536).abs() <= 16, "length was {}", len);
    let w = Vec3d::new(-70000, 3, 123456);
    let wlen = w.unit_vector().length();
    assert!((wlen - 65536).abs() <= 256, "length was {}", wlen);
}

#[test]
fn make_unit_vector_normalizes_in_place() {
    let mut v = Vec3d::new(0, 0, 131072);
    v.make_unit_vector();
    assert_eq!(v, Vec3d::new(0, 0, 65536));
    // A long vector (2^17 length units) normalizes too.
    let mut w = Vec3d::new(8589934592, 0, 0);
    w.make_unit_vector();
    assert_eq!(w, Vec3d::new(65536, 0, 0));
}

#[test]
fn cross_of_axes() {
    let x = Vec3d::new(65536, 0, 0);
    let y = Vec3d::new(0, 65536, 0);
    assert_eq!(x.cross(y), Vec3d::new(0, 0, 65536));
    assert_eq!(y.cross(x), Vec3d::new(0, 0, -65536));
}

#[test]
fn componentwise_arithmetic() {
    let a = Vec3d::new(65536, 131072, -65536);
    let b = Vec3d::new(32768, 65536, 65536);
    assert_eq!(a.add(b), Vec3d::new(98304, 196608, 0));
    assert_eq!(a.sub(b), Vec3d::new(32768, 65536, -131072));
    assert_eq!(a.mul(b), Vec3d::new(32768, 131072, -65536));
    assert_eq!(a.div(b), Vec3d::new(131072, 131072, -65536));
    assert_eq!(a.scale(32768), Vec3d::new(32768, 65536, -32768));
    assert_eq!(a.div_scalar(131072), Vec3d::new(32768, 65536, -32768));
    assert_eq!(a.neg(), Vec3d::new(-65536, -131072, 65536));
    assert_eq!(a.add_scalar(10), Vec3d::new(65546, 131082, -65526));
    assert_eq!(a.x(), 65536);
    assert_eq!(a.y(), 131072);
    assert_eq!(a.z(), -65536);
}

#[test]
fn random_components_are_unit_fractions() {
    for _ in 0..32 {
        let v = Vec3d::random();
        assert!(0 <= v.x() && v.x() < 65536);
        assert!(0 <= v.y() && v.y() < 65536);
        assert!(0 <= v.z() && v.z() < 65536);
    }
}

#[test]
fn random_range_respects_bounds() {
    for _ in 0..32 {
        let v = Vec3d::random_range(-65536, 65536);
        assert!(-65536 <= v.x() && v.x() < 65536);
        assert!(-65536 <= v.y() && v.y() < 65536);
        assert!(-65536 <= v.z() && v.z() < 65536);
    }
}

#[test]
fn random_in_unit_sphere_is_inside() {
    for _ in 0..32 {
        let v = Vec3d::random_in_unit_sphere();
        assert!(v.length_squared() < 65536);
    }
}
