//! Hit records and scatter results: the transient values passed between
//! surfaces, materials and the integrator.

use vstd::prelude::*;

use crate::material::{mat_wf, Material};
use crate::ray::{Ray, RayV, PT_MAX};
use crate::vec3::{dot, dot_spec, v3_bounded, Vec3, V3, COMP_CAP};
use crate::fixed::SCALE;

verus! {

/// Mathematical view of a hit record.
pub struct HitRecV {
    pub p: V3,
    pub normal: V3,
    pub t: int,
    pub front_face: bool,
    pub material: Material,
}

/// One ray-surface intersection: the hit point, the outward unit-ish
/// normal, the ray parameter, whether the ray arrived from outside, and the
/// material that governs scattering there.
#[derive(Clone, Copy)]
pub struct HitRecord {
    pub p: Vec3,
    pub normal: Vec3,
    pub t: i64,
    pub front_face: bool,
    pub material: Material,
}

impl View for HitRecord {
    type V = HitRecV;

    open spec fn view(&self) -> HitRecV {
        HitRecV {
            p: self.p@,
            normal: self.normal@,
            t: self.t as int,
            front_face: self.front_face,
            material: self.material,
        }
    }
}

/// A hit record the scattering arithmetic accepts: the point within the
/// world bound, the normal within two units and not degenerate (it is one
/// unit up to rounding), the material well-formed.
pub open spec fn rec_wf(h: HitRecV) -> bool {
    &&& v3_bounded(h.p, PT_MAX as int)
    &&& v3_bounded(h.normal, 2 * SCALE)
    &&& 1 <= crate::vec3::len_sq_spec(h.normal)
    &&& mat_wf(h.material)
}

impl HitRecord {
    /// Store the outward normal and set the front-face flag from the side
    /// the ray arrived on. The flag alone encodes sidedness: the stored
    /// normal always points outward, away from the surface's center.
    pub fn with_face_normal(self, r: &Ray, outward_normal: Vec3) -> (rec: HitRecord)
        requires
            v3_bounded(r@.dir, COMP_CAP as int),
            v3_bounded(outward_normal@, COMP_CAP as int),
        ensures
            rec@ == (HitRecV {
                p: self@.p,
                normal: outward_normal@,
                t: self@.t,
                front_face: dot_spec(r@.dir, outward_normal@) < 0,
                material: self@.material,
            }),
    {
        let front_face = dot(r.dir, outward_normal) < 0;
        HitRecord {
            p: self.p,
            normal: outward_normal,
            t: self.t,
            front_face,
            material: self.material,
        }
    }
}

/// Mathematical view of a scatter result.
pub struct ScatterV {
    pub scattered: RayV,
    pub attenuation: V3,
}

/// What a material hands back when it does not absorb the ray: the outgoing
/// ray and the per-channel attenuation.
#[derive(Clone, Copy)]
pub struct ScatterResult {
    pub scattered: Ray,
    pub attenuation: Vec3,
}

impl View for ScatterResult {
    type V = ScatterV;

    open spec fn view(&self) -> ScatterV {
        ScatterV { scattered: self.scattered@, attenuation: self.attenuation@ }
    }
}

/// View of an optional scatter result.
pub open spec fn scatter_view(res: Option<ScatterResult>) -> Option<ScatterV> {
    match res {
        Some(s) => Some(s@),
        None => None,
    }
}

} // verus!
