//! Rays: an origin and a direction, with parameterized point evaluation.

use vstd::prelude::*;
use crate::fixed::fmul_fits;
use crate::vec3d::{Vec3d, V3, v3, addv, scalev, fitsv};

verus! {

/// Mathematical view of a ray.
pub ghost struct R3 {
    pub orig: V3,
    pub dir: V3,
}

/// The point a ray reaches at parameter `t`: `origin + direction * t`.
pub open spec fn rayatv(r: R3, t: int) -> V3 {
    addv(r.orig, scalev(r.dir, t))
}

/// A ray, immutable once constructed.
#[derive(Clone, Copy, Debug)]
pub struct Ray {
    /// Origin vector.
    pub a: Vec3d,
    /// Direction.
    pub b: Vec3d,
}

/// Mathematical view of a `Ray`.
pub open spec fn r3(r: Ray) -> R3 {
    R3 { orig: v3(r.a), dir: v3(r.b) }
}

impl Ray {
    pub fn new(origin: Vec3d, direction: Vec3d) -> (r: Ray)
        ensures
            r3(r) == (R3 { orig: v3(origin), dir: v3(direction) }),
    {
        Ray { a: origin, b: direction }
    }

    pub fn origin(self) -> (r: Vec3d)
        ensures
            v3(r) == r3(self).orig,
    {
        self.a
    }

    pub fn direction(self) -> (r: Vec3d)
        ensures
            v3(r) == r3(self).dir,
    {
        self.b
    }

    pub fn point_at_parameter(self, t: i64) -> (r: Vec3d)
        requires
            fmul_fits(r3(self).dir.x, t as int),
            fmul_fits(r3(self).dir.y, t as int),
            fmul_fits(r3(self).dir.z, t as int),
            fitsv(rayatv(r3(self), t as int)),
        ensures
            v3(r) == rayatv(r3(self), t as int),
    {
        self.a.add(self.b.scale(t))
    }
}

} // verus!
