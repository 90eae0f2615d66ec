//! The camera: a function object mapping image-plane coordinates to rays.

use vstd::prelude::*;
use crate::fixed::{absi, lemma_fmul_abs};
use crate::vec3d::{Vec3d, V3, v3, addv, subv, scalev, boundedv};
use crate::ray::{Ray, R3, r3};

verus! {

/// Mathematical view of a camera.
pub ghost struct Cam3 {
    pub origin: V3,
    pub lower_left: V3,
    pub horizontal: V3,
    pub vertical: V3,
}

/// A camera: four vectors fixed at construction.
#[derive(Clone, Copy, Debug)]
pub struct Camera {
    pub origin: Vec3d,
    pub lower_left_corner: Vec3d,
    pub horizontal_size: Vec3d,
    pub vertical_size: Vec3d,
}

/// Mathematical view of a `Camera`.
pub open spec fn cam3(c: Camera) -> Cam3 {
    Cam3 {
        origin: v3(c.origin),
        lower_left: v3(c.lower_left_corner),
        horizontal: v3(c.horizontal_size),
        vertical: v3(c.vertical_size),
    }
}

/// The ray through image-plane coordinates `(u, v)`:
/// `Ray(origin, lower_left + horizontal * u + vertical * v - origin)`.
pub open spec fn cam_ray(c: Cam3, u: int, v: int) -> R3 {
    R3 {
        orig: c.origin,
        dir: subv(
            addv(addv(c.lower_left, scalev(c.horizontal, u)), scalev(c.vertical, v)),
            c.origin,
        ),
    }
}

/// A well-formed camera: fields of modest magnitude, spans lying in the image
/// plane (no z component), and the plane set off from the origin along z, so
/// that every generated ray has a nonzero direction.
pub open spec fn cam_ok(c: Cam3) -> bool {
    &&& boundedv(c.origin, 0x100_0000)
    &&& boundedv(c.lower_left, 0x100_0000)
    &&& boundedv(c.horizontal, 0x100_0000)
    &&& boundedv(c.vertical, 0x100_0000)
    &&& c.horizontal.z == 0
    &&& c.vertical.z == 0
    &&& absi(c.lower_left.z - c.origin.z) >= 256
}

impl Default for Camera {
    /// The stock view: a 4 x 2 image plane one unit in front of an
    /// origin-centered camera, looking down the -z axis.
    fn default() -> (c: Self)
        ensures
            cam3(c) == (Cam3 {
                origin: V3 { x: 0, y: 0, z: 0 },
                lower_left: V3 { x: -131072, y: -65536, z: -65536 },
                horizontal: V3 { x: 262144, y: 0, z: 0 },
                vertical: V3 { x: 0, y: 131072, z: 0 },
            }),
            cam_ok(cam3(c)),
    {
        Camera {
            lower_left_corner: Vec3d::new(-131072, -65536, -65536),
            horizontal_size: Vec3d::new(262144, 0, 0),
            vertical_size: Vec3d::new(0, 131072, 0),
            origin: Vec3d::new(0, 0, 0),
        }
    }
}

impl Camera {
    pub fn get_ray(&self, u: i64, v: i64) -> (r: Ray)
        requires
            cam_ok(cam3(*self)),
            absi(u as int) <= 0x20_0000,
            absi(v as int) <= 0x20_0000,
        ensures
            r3(r) == cam_ray(cam3(*self), u as int, v as int),
    {
        proof {
            let c: Cam3 = cam3(*self);
            lemma_fmul_abs(c.horizontal.x, u as int, 0x100_0000, 0x20_0000);
            lemma_fmul_abs(c.horizontal.y, u as int, 0x100_0000, 0x20_0000);
            lemma_fmul_abs(c.horizontal.z, u as int, 0x100_0000, 0x20_0000);
            lemma_fmul_abs(c.vertical.x, v as int, 0x100_0000, 0x20_0000);
            lemma_fmul_abs(c.vertical.y, v as int, 0x100_0000, 0x20_0000);
            lemma_fmul_abs(c.vertical.z, v as int, 0x100_0000, 0x20_0000);
        }
        Ray::new(
            self.origin,
            self.lower_left_corner.add(self.horizontal_size.scale(u)).add(
                self.vertical_size.scale(v),
            ).sub(self.origin),
        )
    }
}

} // verus!
