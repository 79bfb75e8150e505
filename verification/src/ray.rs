//! Rays: an origin and a direction, with `at(t) = origin + t * direction`.

use vstd::prelude::*;

use crate::fixed::{lemma_abs_mul, lemma_div_trunc_bound, SCALE};
use crate::vec3::{v3_add, v3_bounded, v3_smul, Vec3, V3};

verus! {

/// Lower end of the intersection range used by the integrator: about 0.001,
/// so a scattered ray does not immediately hit its own surface.
pub const T_EPSILON: i64 = 66;

/// Upper end of the intersection range used by the integrator: 2^36 raw
/// units stand in for an unbounded range.
pub const T_FAR: i64 = 0x1000000000;

/// Largest component magnitude of a ray origin or hit point (2^27).
pub const PT_MAX: i64 = 0x8000000;

/// Largest component magnitude of a ray direction (2^25).
pub const DIR_MAX: i64 = 0x2000000;

/// Mathematical view of a ray.
pub struct RayV {
    pub orig: V3,
    pub dir: V3,
}

#[derive(Debug, Clone, Copy)]
pub struct Ray {
    pub orig: Vec3,
    pub dir: Vec3,
}

impl View for Ray {
    type V = RayV;

    open spec fn view(&self) -> RayV {
        RayV { orig: self.orig@, dir: self.dir@ }
    }
}

/// A ray whose coordinates the intersection arithmetic accepts.
pub open spec fn ray_wf(r: RayV) -> bool {
    v3_bounded(r.orig, PT_MAX as int) && v3_bounded(r.dir, DIR_MAX as int)
}

/// The point a parameter `t` along the ray.
pub open spec fn at_spec(r: RayV, t: int) -> V3 {
    v3_add(r.orig, v3_smul(r.dir, t))
}

impl Ray {
    pub fn new(orig: Vec3, dir: Vec3) -> (r: Ray)
        ensures
            r@.orig == orig@,
            r@.dir == dir@,
    {
        Ray { orig, dir }
    }

    pub fn at(&self, t: i64) -> (p: Vec3)
        requires
            ray_wf(self@),
            -T_FAR <= t <= T_FAR,
        ensures
            p@ == at_spec(self@, t as int),
    {
        proof {
            lemma_abs_mul(self@.dir.x, t as int, DIR_MAX as int, T_FAR as int);
            lemma_abs_mul(self@.dir.y, t as int, DIR_MAX as int, T_FAR as int);
            lemma_abs_mul(self@.dir.z, t as int, DIR_MAX as int, T_FAR as int);
            lemma_div_trunc_bound(self@.dir.x * t, SCALE as int, 0x2000000000000000);
            lemma_div_trunc_bound(self@.dir.y * t, SCALE as int, 0x2000000000000000);
            lemma_div_trunc_bound(self@.dir.z * t, SCALE as int, 0x2000000000000000);
        }
        self.orig.add(self.dir.scale(t))
    }
}

} // verus!
