//! Ray-sphere intersection via the quadratic discriminant.

use vstd::prelude::*;

use crate::fixed::{
    fx_div, fx_div_spec, fx_mul, fx_mul_spec, fx_sqrt, fx_sqrt_spec, lemma_abs_mul,
    lemma_div_trunc_bound, SCALE,
};
use crate::hit::{rec_wf, HitRecV, HitRecord};
use crate::material::{mat_wf, Material};
use crate::ray::{at_spec, ray_wf, Ray, RayV, PT_MAX, T_FAR};
use crate::vec3::{dot, dot_spec, lemma_dot_bound, len_sq_spec, v3_bounded, v3_div, v3_sub, Vec3, V3};

verus! {

/// Largest component magnitude of a sphere center, and largest radius
/// (2^26): keeps the whole quadratic within the fixed-point range.
pub const CEN_MAX: i64 = 0x4000000;

/// Mathematical view of a sphere.
pub struct SphereV {
    pub center: V3,
    pub radius: int,
    pub material: Material,
}

#[derive(Clone, Copy)]
pub struct Sphere {
    pub center: Vec3,
    pub radius: i64,
    pub material: Material,
}

impl View for Sphere {
    type V = SphereV;

    open spec fn view(&self) -> SphereV {
        SphereV { center: self.center@, radius: self.radius as int, material: self.material }
    }
}

/// A sphere the intersection arithmetic accepts: positive radius, both it
/// and the center within the world bound, a well-formed material.
pub open spec fn sphere_wf(s: SphereV) -> bool {
    &&& v3_bounded(s.center, CEN_MAX as int)
    &&& 1 <= s.radius <= CEN_MAX
    &&& mat_wf(s.material)
}

/// The record a hit at parameter `t` produces: the hit point, the outward
/// normal `(p - center) / radius`, and the side flag. No record if a
/// coordinate left the range exact geometry keeps it in, or the normal
/// degenerated (possible only through rounding on extreme inputs).
pub open spec fn sphere_rec_spec(s: SphereV, r: RayV, t: int) -> Option<HitRecV> {
    let p = at_spec(r, t);
    let outward = v3_div(v3_sub(p, s.center), s.radius);
    if v3_bounded(p, PT_MAX as int) && v3_bounded(outward, 2 * SCALE) && 1 <= len_sq_spec(
        outward,
    ) {
        Some(
            HitRecV {
                p,
                normal: outward,
                t,
                front_face: dot_spec(r.dir, outward) < 0,
                material: s.material,
            },
        )
    } else {
        None
    }
}

/// Ray-sphere intersection over `[t_min, t_max]`: solve
/// `|orig + t dir - center|^2 = radius^2` by the half-discriminant formula
/// and take the nearer admissible root. A direction whose truncated squared
/// length vanishes cannot be solved for and misses.
pub open spec fn sphere_hit_spec(s: SphereV, r: RayV, t_min: int, t_max: int) -> Option<HitRecV> {
    let oc = v3_sub(r.orig, s.center);
    let a = dot_spec(r.dir, r.dir);
    let half_b = dot_spec(oc, r.dir);
    let c = dot_spec(oc, oc) - fx_mul_spec(s.radius, s.radius);
    let disc = fx_mul_spec(half_b, half_b) - fx_mul_spec(a, c);
    if disc < 0 || a <= 0 {
        None
    } else {
        let sqrtd = fx_sqrt_spec(disc);
        let root1 = fx_div_spec(-half_b - sqrtd, a);
        if t_min <= root1 <= t_max {
            sphere_rec_spec(s, r, root1)
        } else {
            let root2 = fx_div_spec(-half_b + sqrtd, a);
            if t_min <= root2 <= t_max {
                sphere_rec_spec(s, r, root2)
            } else {
                None
            }
        }
    }
}

impl Sphere {
    /// The nearest intersection of `ray` with this sphere in
    /// `[t_min, t_max]`, if any.
    pub fn hit(&self, ray: &Ray, t_min: i64, t_max: i64) -> (res: Option<HitRecord>)
        requires
            sphere_wf(self@),
            ray_wf(ray@),
            0 <= t_min,
            t_max <= T_FAR,
        ensures
            match res {
                Some(h) => {
                    &&& Some(h@) == sphere_hit_spec(self@, ray@, t_min as int, t_max as int)
                    &&& rec_wf(h@)
                    &&& t_min <= h@.t <= t_max
                    &&& h@.material == self@.material
                },
                None => sphere_hit_spec(self@, ray@, t_min as int, t_max as int) is None,
            },
    {
        let oc = ray.orig.sub(self.center);
        let a = dot(ray.dir, ray.dir);
        let half_b = dot(oc, ray.dir);
        proof {
            lemma_dot_bound(ray@.dir, ray@.dir, 0x2000000, 0x2000000);
            lemma_dot_bound(oc@, ray@.dir, 0xC000000, 0x2000000);
            lemma_dot_bound(oc@, oc@, 0xC000000, 0xC000000);
            lemma_abs_mul(self@.radius, self@.radius, 0x4000000, 0x4000000);
            lemma_div_trunc_bound(self@.radius * self@.radius, SCALE as int, 0x10000000000000);
        }
        let c = dot(oc, oc) - fx_mul(self.radius, self.radius);
        proof {
            lemma_abs_mul(half_b as int, half_b as int, 0x4800000000, 0x4800000000);
            lemma_div_trunc_bound(
                (half_b as int) * (half_b as int),
                SCALE as int,
                0x14400000000000000000,
            );
            lemma_abs_mul(a as int, c as int, 0xC00000000, 0x1C000000000);
            lemma_div_trunc_bound((a as int) * (c as int), SCALE as int, 0x15000000000000000000);
        }
        let discriminant = fx_mul(half_b, half_b) - fx_mul(a, c);
        if discriminant < 0 {
            return None;
        }
        if a <= 0 {
            return None;
        }
        let sqrtd = fx_sqrt(discriminant);
        proof {
            assert(sqrtd <= 0x8000000000) by (nonlinear_arith)
                requires
                    0 <= sqrtd,
                    (sqrtd as int) * (sqrtd as int) <= (discriminant as int) * (SCALE as int),
                    discriminant <= 0x2940000000000000,
                    SCALE == 65536;
        }
        let mut root = fx_div(-half_b - sqrtd, a);
        if root < t_min || t_max < root {
            root = fx_div(-half_b + sqrtd, a);
            if root < t_min || t_max < root {
                return None;
            }
        }
        let t = root;
        proof {
            lemma_abs_mul(ray@.dir.x, t as int, 0x2000000, 0x1000000000);
            lemma_abs_mul(ray@.dir.y, t as int, 0x2000000, 0x1000000000);
            lemma_abs_mul(ray@.dir.z, t as int, 0x2000000, 0x1000000000);
            lemma_div_trunc_bound(ray@.dir.x * t, SCALE as int, 0x2000000000000000);
            lemma_div_trunc_bound(ray@.dir.y * t, SCALE as int, 0x2000000000000000);
            lemma_div_trunc_bound(ray@.dir.z * t, SCALE as int, 0x2000000000000000);
        }
        let p = ray.at(t);
        let pc = p.sub(self.center);
        let outward_normal = pc.div(self.radius);
        if p.x < -PT_MAX || p.x > PT_MAX || p.y < -PT_MAX || p.y > PT_MAX || p.z < -PT_MAX || p.z
            > PT_MAX {
            return None;
        }
        let nb = 2 * SCALE;
        if outward_normal.x < -nb || outward_normal.x > nb || outward_normal.y < -nb
            || outward_normal.y > nb || outward_normal.z < -nb || outward_normal.z > nb {
            return None;
        }
        if outward_normal.length_squared() < 1 {
            return None;
        }
        let hr = HitRecord {
            t,
            p,
            normal: outward_normal,
            front_face: false,
            material: self.material,
        };
        Some(hr.with_face_normal(ray, outward_normal))
    }
}

} // verus!
