//! The material scattering models: Lambertian diffuse, fuzzed metal, and a
//! dielectric that refracts or totally internally reflects.
//!
//! The variant set is closed, so the materials form a sum type; a hit
//! record carries one by value. Each scattering function's contract pins
//! down the attenuation, the scattered origin, and the scattered direction
//! up to the random sample that entered it; with no randomness (metal with
//! zero fuzz, any dielectric) the direction is stated exactly.

use vstd::prelude::*;

use crate::fixed::{
    fx_div, fx_div_spec, fx_mul, fx_mul_spec, fx_sqrt, fx_sqrt_spec, lemma_abs_mul,
    lemma_div_trunc_bound, SCALE,
};
use crate::hit::{rec_wf, scatter_view, HitRecV, HitRecord, ScatterResult, ScatterV};
use crate::ray::{Ray, RayV};
use crate::vec3::{
    dot, dot_spec, len_sq_spec, lemma_dot_bound, near_zero_spec, reflect, reflect_spec,
    refract, refract_spec, unit_spec, v3_add, v3_bounded, v3_neg, v3_smul, Vec3, V3, COMP_CAP,
};

verus! {

/// Smallest accepted index of refraction: 1/16.
pub const IOR_MIN: i64 = 4096;

/// Largest accepted index of refraction: 16.
pub const IOR_MAX: i64 = 1048576;

/// A color with every channel in `[0, 1]`.
pub open spec fn color_wf(c: V3) -> bool {
    0 <= c.x <= SCALE && 0 <= c.y <= SCALE && 0 <= c.z <= SCALE
}

/// Diffuse material: scatters toward the normal plus a random unit vector.
#[derive(Clone, Copy)]
pub struct Lambertian {
    pub albedo: Vec3,
}

/// Specular material: reflects, then perturbs the reflection within a
/// sphere of radius `fuzz`.
#[derive(Clone, Copy)]
pub struct Metal {
    pub albedo: Vec3,
    pub fuzz: i64,
}

/// Transmissive material: refracts by Snell's law, or reflects where the
/// law has no solution.
#[derive(Clone, Copy)]
pub struct Dialectric {
    pub index_of_refraction: i64,
}

/// A material: one of the closed set of scattering models.
#[derive(Clone, Copy)]
pub enum Material {
    Lambertian(Lambertian),
    Metal(Metal),
    Dialectric(Dialectric),
}

/// The parameter ranges under which the scattering arithmetic is exact.
pub open spec fn mat_wf(m: Material) -> bool {
    match m {
        Material::Lambertian(l) => color_wf(l.albedo@),
        Material::Metal(mt) => color_wf(mt.albedo@) && 0 <= mt.fuzz <= SCALE,
        Material::Dialectric(d) => IOR_MIN <= d.index_of_refraction <= IOR_MAX,
    }
}

/// What Lambertian scattering returns: always a result, attenuated by the
/// albedo, leaving from the hit point toward the normal plus a normalized
/// sphere sample, with the bare normal as fallback when the sum
/// degenerates; the scattered direction is never near zero.
pub open spec fn lambertian_scatter_post(albedo: V3, rec: HitRecV, res: Option<ScatterV>) -> bool {
    match res {
        Some(s) => {
            &&& s.attenuation == albedo
            &&& s.scattered.orig == rec.p
            &&& exists|v: V3|
                crate::rng::in_sphere_sample(v) && s.scattered.dir == (if near_zero_spec(
                    v3_add(rec.normal, unit_spec(v)),
                ) {
                    rec.normal
                } else {
                    v3_add(rec.normal, unit_spec(v))
                })
            &&& !near_zero_spec(s.scattered.dir)
        },
        None => false,
    }
}

/// What metal scattering returns: the exact reflection of the unit incoming
/// direction, perturbed by `fuzz` times an interior sphere sample; absorbed
/// exactly when the perturbed direction does not point away from the
/// surface. With zero fuzz the direction is the exact reflection.
pub open spec fn metal_scatter_post(
    albedo: V3,
    fuzz: int,
    r: RayV,
    rec: HitRecV,
    res: Option<ScatterV>,
) -> bool {
    let refl = reflect_spec(unit_spec(r.dir), rec.normal);
    match res {
        Some(s) => {
            &&& s.attenuation == albedo
            &&& s.scattered.orig == rec.p
            &&& dot_spec(s.scattered.dir, rec.normal) > 0
            &&& exists|f: V3|
                crate::rng::in_sphere_sample(f) && s.scattered.dir == v3_add(
                    refl,
                    v3_smul(f, fuzz),
                )
            &&& (fuzz == 0 ==> s.scattered.dir == refl)
        },
        None => {
            &&& exists|f: V3|
                crate::rng::in_sphere_sample(f) && dot_spec(
                    v3_add(refl, v3_smul(f, fuzz)),
                    rec.normal,
                ) <= 0
            &&& (fuzz == 0 ==> dot_spec(refl, rec.normal) <= 0)
        },
    }
}

/// The direction a dielectric scatters into: refraction by Snell's law,
/// except total internal reflection where the law has no solution. A
/// cosine out of range (possible only through rounding) refracts, as the
/// unordered comparison in the reference formula does.
pub open spec fn dielectric_dir_spec(ior: int, r: RayV, rec: HitRecV) -> V3 {
    let ratio = if rec.front_face {
        fx_div_spec(SCALE as int, ior)
    } else {
        ior
    };
    let u = unit_spec(r.dir);
    let d = dot_spec(v3_neg(u), rec.normal);
    let cos_theta = if d > SCALE {
        SCALE as int
    } else {
        d
    };
    let m = SCALE - fx_mul_spec(cos_theta, cos_theta);
    let cannot_refract = m >= 0 && fx_mul_spec(ratio, fx_sqrt_spec(m)) > SCALE;
    if cannot_refract {
        reflect_spec(u, rec.normal)
    } else {
        refract_spec(u, rec.normal, ratio)
    }
}

/// What dielectric scattering returns: always a result, with no tint.
pub open spec fn dielectric_scatter_post(
    ior: int,
    r: RayV,
    rec: HitRecV,
    res: Option<ScatterV>,
) -> bool {
    match res {
        Some(s) => {
            &&& s.attenuation == (V3 { x: SCALE as int, y: SCALE as int, z: SCALE as int })
            &&& s.scattered.orig == rec.p
            &&& s.scattered.dir == dielectric_dir_spec(ior, r, rec)
        },
        None => false,
    }
}

/// What `Material::scatter` promises, by variant.
pub open spec fn scatter_post(m: Material, r: RayV, rec: HitRecV, res: Option<ScatterV>) -> bool {
    match m {
        Material::Lambertian(l) => lambertian_scatter_post(l.albedo@, rec, res),
        Material::Metal(mt) => metal_scatter_post(mt.albedo@, mt.fuzz as int, r, rec, res),
        Material::Dialectric(d) => dielectric_scatter_post(
            d.index_of_refraction as int,
            r,
            rec,
            res,
        ),
    }
}

/// A reflection of vectors within two units stays within fifty.
pub proof fn lemma_reflect_bound(v: V3, n: V3)
    requires
        v3_bounded(v, 2 * SCALE),
        v3_bounded(n, 2 * SCALE),
    ensures
        v3_bounded(reflect_spec(v, n), 50 * SCALE),
{
    lemma_dot_bound(v, n, 131072, 131072);
    let d = dot_spec(v, n);
    lemma_abs_mul(n.x, 2 * (SCALE as int), 131072, 131072);
    lemma_abs_mul(n.y, 2 * (SCALE as int), 131072, 131072);
    lemma_abs_mul(n.z, 2 * (SCALE as int), 131072, 131072);
    lemma_div_trunc_bound(n.x * (2 * (SCALE as int)), SCALE as int, 0x400000000);
    lemma_div_trunc_bound(n.y * (2 * (SCALE as int)), SCALE as int, 0x400000000);
    lemma_div_trunc_bound(n.z * (2 * (SCALE as int)), SCALE as int, 0x400000000);
    let twice = v3_smul(n, 2 * (SCALE as int));
    lemma_abs_mul(twice.x, d, 262144, 786432);
    lemma_abs_mul(twice.y, d, 262144, 786432);
    lemma_abs_mul(twice.z, d, 262144, 786432);
    lemma_div_trunc_bound(twice.x * d, SCALE as int, 0x3000000000);
    lemma_div_trunc_bound(twice.y * d, SCALE as int, 0x3000000000);
    lemma_div_trunc_bound(twice.z * d, SCALE as int, 0x3000000000);
}

impl Lambertian {
    pub fn new(albedo: Vec3) -> (r: Self)
        requires
            color_wf(albedo@),
        ensures
            r.albedo == albedo,
    {
        Self { albedo }
    }

    /// Diffuse scattering; never absorbs.
    pub fn scatter(&self, _r: &Ray, rec: &HitRecord) -> (res: Option<ScatterResult>)
        requires
            color_wf(self.albedo@),
            rec_wf(rec@),
        ensures
            lambertian_scatter_post(self.albedo@, rec@, scatter_view(res)),
    {
        let u = Vec3::new_random_unit_vector();
        let random_scatter_direction = rec.normal.add(u);
        let scatter_direction = if random_scatter_direction.near_zero() {
            rec.normal
        } else {
            random_scatter_direction
        };
        let res = Some(
            ScatterResult {
                scattered: Ray::new(rec.p, scatter_direction),
                attenuation: self.albedo,
            },
        );
        proof {
            let s = scatter_view(res).unwrap();
            let gv = choose|v: V3| crate::rng::in_sphere_sample(v) && u@ == unit_spec(v);
            assert(crate::rng::in_sphere_sample(gv) && s.scattered.dir == (if near_zero_spec(
                v3_add(rec@.normal, unit_spec(gv)),
            ) {
                rec@.normal
            } else {
                v3_add(rec@.normal, unit_spec(gv))
            }));
            if near_zero_spec(rec@.normal) {
                vstd::arithmetic::div_mod::lemma_div_of0(SCALE as int);
                assert(len_sq_spec(rec@.normal) == 0);
            }
        }
        res
    }
}

impl Metal {
    pub fn new(albedo: Vec3, fuzz: i64) -> (r: Self)
        requires
            color_wf(albedo@),
            0 <= fuzz <= SCALE,
        ensures
            r.albedo == albedo,
            r.fuzz == fuzz,
    {
        Self { albedo, fuzz }
    }

    /// Specular scattering; absorbs glancing fuzzy reflections.
    pub fn scatter(&self, r: &Ray, rec: &HitRecord) -> (res: Option<ScatterResult>)
        requires
            color_wf(self.albedo@),
            0 <= self.fuzz <= SCALE,
            rec_wf(rec@),
            v3_bounded(r@.dir, COMP_CAP as int),
            1 <= len_sq_spec(r@.dir),
        ensures
            metal_scatter_post(self.albedo@, self.fuzz as int, r@, rec@, scatter_view(res)),
    {
        let u = r.dir.unit_vector();
        let reflected = reflect(u, rec.normal);
        proof {
            lemma_reflect_bound(u@, rec@.normal);
        }
        let fuzz_vec = Vec3::new_random_in_unit_sphere();
        proof {
            lemma_abs_mul(fuzz_vec@.x, self.fuzz as int, 65536, 65536);
            lemma_abs_mul(fuzz_vec@.y, self.fuzz as int, 65536, 65536);
            lemma_abs_mul(fuzz_vec@.z, self.fuzz as int, 65536, 65536);
            lemma_div_trunc_bound(fuzz_vec@.x * self.fuzz, SCALE as int, 0x100000000);
            lemma_div_trunc_bound(fuzz_vec@.y * self.fuzz, SCALE as int, 0x100000000);
            lemma_div_trunc_bound(fuzz_vec@.z * self.fuzz, SCALE as int, 0x100000000);
        }
        let offset = fuzz_vec.scale(self.fuzz);
        let dir = reflected.add(offset);
        let scattered = Ray::new(rec.p, dir);
        let d2 = dot(scattered.dir, rec.normal);
        proof {
            if self.fuzz == 0 {
                assert(fuzz_vec@.x * 0 == 0 && fuzz_vec@.y * 0 == 0 && fuzz_vec@.z * 0 == 0)
                    by (nonlinear_arith);
                vstd::arithmetic::div_mod::lemma_div_of0(SCALE as int);
                assert(v3_smul(fuzz_vec@, 0) == (V3 { x: 0int, y: 0int, z: 0int }));
                assert(dir@ == reflect_spec(unit_spec(r@.dir), rec@.normal));
            }
        }
        if d2 > 0 {
            let res = Some(ScatterResult { scattered, attenuation: self.albedo });
            proof {
                let s = scatter_view(res).unwrap();
                assert(crate::rng::in_sphere_sample(fuzz_vec@) && s.scattered.dir == v3_add(
                    reflect_spec(unit_spec(r@.dir), rec@.normal),
                    v3_smul(fuzz_vec@, self.fuzz as int),
                ));
            }
            res
        } else {
            proof {
                assert(crate::rng::in_sphere_sample(fuzz_vec@) && dot_spec(
                    v3_add(
                        reflect_spec(unit_spec(r@.dir), rec@.normal),
                        v3_smul(fuzz_vec@, self.fuzz as int),
                    ),
                    rec@.normal,
                ) <= 0);
            }
            None
        }
    }
}

impl Dialectric {
    pub fn new(index_of_refraction: i64) -> (r: Self)
        requires
            IOR_MIN <= index_of_refraction <= IOR_MAX,
        ensures
            r.index_of_refraction == index_of_refraction,
    {
        Self { index_of_refraction }
    }

    /// Transmissive scattering; never absorbs and never tints.
    pub fn scatter(&self, r: &Ray, rec: &HitRecord) -> (res: Option<ScatterResult>)
        requires
            IOR_MIN <= self.index_of_refraction <= IOR_MAX,
            rec_wf(rec@),
            v3_bounded(r@.dir, COMP_CAP as int),
            1 <= len_sq_spec(r@.dir),
        ensures
            dielectric_scatter_post(
                self.index_of_refraction as int,
                r@,
                rec@,
                scatter_view(res),
            ),
    {
        let refraction_ratio = if rec.front_face {
            let q = fx_div(SCALE, self.index_of_refraction);
            proof {
                vstd::arithmetic::div_mod::lemma_div_pos_is_pos(
                    65536int * 65536,
                    self.index_of_refraction as int,
                );
                vstd::arithmetic::div_mod::lemma_div_is_ordered_by_denominator(
                    65536int * 65536,
                    4096,
                    self.index_of_refraction as int,
                );
            }
            q
        } else {
            self.index_of_refraction
        };
        let unit_direction = r.dir.unit_vector();
        let d = dot(unit_direction.neg(), rec.normal);
        proof {
            lemma_dot_bound(v3_neg(unit_spec(r@.dir)), rec@.normal, 131072, 131072);
        }
        let cos_theta = if d > SCALE {
            SCALE
        } else {
            d
        };
        proof {
            lemma_abs_mul(cos_theta as int, cos_theta as int, 786432, 786432);
            lemma_div_trunc_bound(cos_theta * cos_theta, SCALE as int, 0x9000000000);
        }
        let m = SCALE - fx_mul(cos_theta, cos_theta);
        let cannot_refract = if m >= 0 {
            let sin_theta = fx_sqrt(m);
            proof {
                assert(sin_theta <= 851968) by (nonlinear_arith)
                    requires
                        0 <= sin_theta,
                        sin_theta * sin_theta <= m * (SCALE as int),
                        m <= 9502720,
                        SCALE == 65536;
                lemma_abs_mul(refraction_ratio as int, sin_theta as int, 1048576, 851968);
            }
            fx_mul(refraction_ratio, sin_theta) > SCALE
        } else {
            false
        };
        let direction = if cannot_refract {
            reflect(unit_direction, rec.normal)
        } else {
            refract(unit_direction, rec.normal, refraction_ratio)
        };
        Some(
            ScatterResult {
                scattered: Ray::new(rec.p, direction),
                attenuation: Vec3::new(SCALE, SCALE, SCALE),
            },
        )
    }
}

impl Material {
    /// Dispatch to the variant's scattering model.
    pub fn scatter(&self, r: &Ray, rec: &HitRecord) -> (res: Option<ScatterResult>)
        requires
            mat_wf(*self),
            rec_wf(rec@),
            v3_bounded(r@.dir, COMP_CAP as int),
            1 <= len_sq_spec(r@.dir),
        ensures
            scatter_post(*self, r@, rec@, scatter_view(res)),
    {
        match self {
            Material::Lambertian(l) => l.scatter(r, rec),
            Material::Metal(mt) => mt.scatter(r, rec),
            Material::Dialectric(d) => d.scatter(r, rec),
        }
    }
}

} // verus!
