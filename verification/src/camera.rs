//! The camera: fixed viewport height 2 and focal length 1, derived state
//! computed once from the aspect ratio, then a pure map from image-plane
//! coordinates to world-space rays.

use vstd::prelude::*;

use crate::fixed::{fx_mul, fx_mul_spec, lemma_abs_mul, lemma_div_trunc_bound, SCALE};
use crate::ray::{ray_wf, Ray, RayV};
use crate::vec3::{v3_add, v3_bounded, v3_div, v3_smul, v3_sub, Vec3, V3};

verus! {

/// Largest accepted aspect ratio: 128.
pub const ASPECT_MAX: i64 = 0x800000;

/// Mathematical view of the camera's derived state.
pub struct CameraV {
    pub origin: V3,
    pub lower_left_corner: V3,
    pub horizontal: V3,
    pub vertical: V3,
}

#[derive(Clone, Copy)]
pub struct Camera {
    pub origin: Vec3,
    pub lower_left_corner: Vec3,
    pub horizontal: Vec3,
    pub vertical: Vec3,
}

impl View for Camera {
    type V = CameraV;

    open spec fn view(&self) -> CameraV {
        CameraV {
            origin: self.origin@,
            lower_left_corner: self.lower_left_corner@,
            horizontal: self.horizontal@,
            vertical: self.vertical@,
        }
    }
}

/// The derived state for a given aspect ratio: viewport height 2, width
/// `aspect * 2`, focal length 1, eye at the origin.
pub open spec fn camera_spec(aspect: int) -> CameraV {
    let vh = 2 * (SCALE as int);
    let vw = fx_mul_spec(aspect, vh);
    let origin = V3 { x: 0, y: 0, z: 0 };
    let horizontal = V3 { x: vw, y: 0, z: 0 };
    let vertical = V3 { x: 0, y: vh, z: 0 };
    let lower_left_corner = v3_sub(
        v3_sub(v3_sub(origin, v3_div(horizontal, vh)), v3_div(vertical, vh)),
        V3 { x: 0, y: 0, z: SCALE as int },
    );
    CameraV { origin, lower_left_corner, horizontal, vertical }
}

/// Camera state within the coordinate range that `get_ray` accepts.
pub open spec fn cam_wf(c: CameraV) -> bool {
    &&& v3_bounded(c.origin, 0x100000)
    &&& v3_bounded(c.lower_left_corner, 0x840000)
    &&& v3_bounded(c.horizontal, 0x1000000)
    &&& v3_bounded(c.vertical, 0x40000)
}

/// The ray through image-plane coordinates `(u, v)`.
pub open spec fn get_ray_spec(c: CameraV, u: int, v: int) -> RayV {
    RayV {
        orig: c.origin,
        dir: v3_sub(
            v3_add(v3_add(c.lower_left_corner, v3_smul(c.horizontal, u)), v3_smul(c.vertical, v)),
            c.origin,
        ),
    }
}

impl Camera {
    pub fn new(aspect_ratio: i64) -> (r: Camera)
        requires
            1 <= aspect_ratio <= ASPECT_MAX,
        ensures
            r@ == camera_spec(aspect_ratio as int),
            cam_wf(r@),
    {
        let viewport_height = 2 * SCALE;
        proof {
            lemma_abs_mul(aspect_ratio as int, 2 * (SCALE as int), 0x800000, 131072);
            lemma_div_trunc_bound(
                (aspect_ratio as int) * (2 * (SCALE as int)),
                SCALE as int,
                0x10000000000,
            );
        }
        let viewport_width = fx_mul(aspect_ratio, viewport_height);
        let focal_length = SCALE;
        let origin = Vec3::new(0, 0, 0);
        let horizontal = Vec3::new(viewport_width, 0, 0);
        let vertical = Vec3::new(0, viewport_height, 0);
        proof {
            lemma_abs_mul(viewport_width as int, 32768, 0x1000000, 32768);
            lemma_div_trunc_bound((viewport_width as int) * 32768, SCALE as int, 0x8000000000);
        }
        let lower_left_corner = origin.sub(horizontal.div(viewport_height)).sub(
            vertical.div(viewport_height),
        ).sub(Vec3::new(0, 0, focal_length));
        Camera { origin, lower_left_corner, horizontal, vertical }
    }

    /// The ray from the eye through the image plane at `(u, v)`, both in
    /// `[0, 1]` (left to right, bottom to top).
    pub fn get_ray(self, u: i64, v: i64) -> (r: Ray)
        requires
            cam_wf(self@),
            0 <= u <= SCALE,
            0 <= v <= SCALE,
        ensures
            r@ == get_ray_spec(self@, u as int, v as int),
            ray_wf(r@),
    {
        proof {
            lemma_abs_mul(self@.horizontal.x, u as int, 0x1000000, 65536);
            lemma_abs_mul(self@.horizontal.y, u as int, 0x1000000, 65536);
            lemma_abs_mul(self@.horizontal.z, u as int, 0x1000000, 65536);
            lemma_div_trunc_bound(self@.horizontal.x * u, SCALE as int, 0x10000000000);
            lemma_div_trunc_bound(self@.horizontal.y * u, SCALE as int, 0x10000000000);
            lemma_div_trunc_bound(self@.horizontal.z * u, SCALE as int, 0x10000000000);
            lemma_abs_mul(self@.vertical.x, v as int, 0x40000, 65536);
            lemma_abs_mul(self@.vertical.y, v as int, 0x40000, 65536);
            lemma_abs_mul(self@.vertical.z, v as int, 0x40000, 65536);
            lemma_div_trunc_bound(self@.vertical.x * v, SCALE as int, 0x400000000);
            lemma_div_trunc_bound(self@.vertical.y * v, SCALE as int, 0x400000000);
            lemma_div_trunc_bound(self@.vertical.z * v, SCALE as int, 0x400000000);
        }
        Ray::new(
            self.origin,
            self.lower_left_corner.add(self.horizontal.scale(u)).add(self.vertical.scale(v)).sub(
                self.origin,
            ),
        )
    }
}

} // verus!
