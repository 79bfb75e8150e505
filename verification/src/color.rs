//! The color integrator: recursive light transport with a bounce budget.

use vstd::prelude::*;

use crate::fixed::{
    div_trunc, fx_mul, fx_mul_spec, lemma_abs_mul, lemma_div_trunc_bound, SCALE,
};
use crate::hit::ScatterV;
use crate::material::{color_wf, scatter_post, Material};
use crate::ray::{ray_wf, Ray, RayV, DIR_MAX, T_EPSILON, T_FAR};
use crate::scene::{list_hit_spec, list_wf, HitList, Hittable};
use crate::vec3::{
    len_sq_spec, lemma_len_sq_nonneg, unit_spec, v3_add, v3_bounded, v3_cmul, v3_smul, Vec3, V3,
};

verus! {

/// Black: the color of an absorbed or budget-exhausted ray.
pub open spec fn v3_black() -> V3 {
    V3 { x: 0, y: 0, z: 0 }
}

/// White, the lower end of the sky gradient.
pub open spec fn v3_white() -> V3 {
    V3 { x: SCALE as int, y: SCALE as int, z: SCALE as int }
}

/// Sky blue (0.5, 0.7, 1.0), the upper end of the sky gradient.
pub open spec fn v3_sky() -> V3 {
    V3 { x: 32768, y: 45875, z: SCALE as int }
}

/// The background a missing ray sees: white blended toward sky blue by
/// `t = (unit_direction.y + 1) / 2`.
pub open spec fn background_spec(r: RayV) -> V3 {
    let u = unit_spec(r.dir);
    let t = fx_mul_spec(32768, u.y + SCALE);
    v3_add(v3_smul(v3_white(), SCALE - t), v3_smul(v3_sky(), t))
}

/// Every color the integrator can return for this ray, scene and budget:
/// black once the budget is spent or the direction degenerates, the
/// background on a miss, and on a hit an admissible scatter outcome
/// decides — absorption gives black, a scattered ray gives the attenuated
/// color of some admissible color of that ray at the smaller budget (or
/// black, where rounding pushed the scattered direction out of the
/// representable range, which exact geometry cannot do).
pub open spec fn color_rel(r: RayV, objs: Seq<Hittable>, depth: int, c: V3) -> bool
    decreases depth,
{
    if depth <= 0 {
        c == v3_black()
    } else if len_sq_spec(r.dir) == 0 {
        c == v3_black()
    } else {
        match list_hit_spec(objs, r, T_EPSILON as int, T_FAR as int) {
            None => c == background_spec(r),
            Some(h) => exists|res: Option<ScatterV>|
                #[trigger] scatter_post(h.material, r, h, res) && match res {
                    None => c == v3_black(),
                    Some(s) => {
                        ||| (!v3_bounded(s.scattered.dir, DIR_MAX as int) && c == v3_black())
                        ||| (exists|sub: V3|
                            color_rel(s.scattered, objs, depth - 1, sub) && c == v3_cmul(
                                s.attenuation,
                                sub,
                            ))
                    },
                },
        }
    }
}

/// Multiplying by one whole unit is the identity.
proof fn lemma_mul_one(m: int)
    ensures
        fx_mul_spec(SCALE as int, m) == m,
{
    if m >= 0 {
        vstd::arithmetic::div_mod::lemma_div_multiples_vanish(m, 65536);
    } else {
        vstd::arithmetic::div_mod::lemma_div_multiples_vanish(-m, 65536);
    }
}

/// `(1 - t) + w * t` stays nonnegative for a blend weight of at least a
/// half, over the whole range the gradient parameter can take.
proof fn lemma_blend_nonneg(t: int, w: int)
    requires
        32768 <= w <= 65536,
        -98304 <= t <= 98304,
    ensures
        0 <= 65536 - t + div_trunc(w * t, 65536),
{
    if t >= 0 {
        vstd::arithmetic::div_mod::lemma_fundamental_div_mod(w * t, 65536);
        vstd::arithmetic::div_mod::lemma_mod_bound(w * t, 65536);
        lemma_abs_mul(65536 - w, t, 32768, 98304);
        assert(65536 * (65536 - t + (w * t) / 65536) == 65536 * 65536 - (65536 - w) * t - ((w * t)
            % 65536)) by (nonlinear_arith)
            requires
                w * t == 65536 * ((w * t) / 65536) + ((w * t) % 65536);
    } else {
        let tp = -t;
        assert(0 <= w * tp <= 65536 * tp && w * t <= -32768 && w * tp == -(w * t))
            by (nonlinear_arith)
            requires
                32768 <= w <= 65536,
                1 <= tp <= 98304,
                t == -tp;
        vstd::arithmetic::div_mod::lemma_div_is_ordered(w * tp, 65536 * tp, 65536);
        vstd::arithmetic::div_mod::lemma_div_multiples_vanish(tp, 65536);
        vstd::arithmetic::div_mod::lemma_div_pos_is_pos(w * tp, 65536);
    }
}

/// The background gradient never goes negative in any channel.
proof fn lemma_background_nonneg(r: RayV)
    requires
        v3_bounded(unit_spec(r.dir), 2 * SCALE),
    ensures
        0 <= background_spec(r).x,
        0 <= background_spec(r).y,
        0 <= background_spec(r).z,
{
    let u = unit_spec(r.dir);
    let t = fx_mul_spec(32768, u.y + (SCALE as int));
    lemma_abs_mul(32768, u.y + 65536, 32768, 196608);
    lemma_div_trunc_bound(32768 * (u.y + 65536), 65536, 0x180000000);
    lemma_mul_one(65536 - t);
    lemma_mul_one(t);
    lemma_blend_nonneg(t, 32768);
    lemma_blend_nonneg(t, 45875);
    lemma_blend_nonneg(t, 65536);
}

impl Ray {
    /// The color seen along this ray, up to `depth` more bounces: black
    /// once the budget is spent, the sky gradient on a miss, the
    /// attenuated color of the scattered ray on a hit, black on
    /// absorption — `color_rel` states the full recurrence. A direction
    /// whose truncated squared length vanishes cannot be normalized and
    /// sees black. No channel is ever negative.
    pub fn color(self, world: &HitList, depth: i32) -> (res: Vec3)
        requires
            ray_wf(self@),
            list_wf(world.objects@),
        ensures
            color_rel(self@, world.objects@, depth as int, res@),
            depth <= 0 ==> res@ == v3_black(),
            depth > 0 && len_sq_spec(self@.dir) == 0 ==> res@ == v3_black(),
            depth > 0 && len_sq_spec(self@.dir) >= 1 && list_hit_spec(
                world.objects@,
                self@,
                T_EPSILON as int,
                T_FAR as int,
            ) is None ==> res@ == background_spec(self@),
            0 <= res@.x && 0 <= res@.y && 0 <= res@.z,
            v3_bounded(res@, 4 * SCALE),
        decreases depth,
    {
        if depth <= 0 {
            return Vec3::new(0, 0, 0);
        }
        let ls = self.dir.length_squared();
        if ls <= 0 {
            proof {
                lemma_len_sq_nonneg(self@.dir);
            }
            return Vec3::new(0, 0, 0);
        }
        match world.hit(&self, T_EPSILON, T_FAR) {
            Some(rec) => {
                match rec.material.scatter(&self, &rec) {
                    Some(out) => {
                        let scattered = out.scattered;
                        proof {
                            match rec@.material {
                                Material::Lambertian(l) => {
                                    assert(color_wf(out.attenuation@));
                                    assert(out.scattered@.orig == rec@.p);
                                },
                                Material::Metal(mt) => {
                                    assert(color_wf(out.attenuation@));
                                    assert(out.scattered@.orig == rec@.p);
                                },
                                Material::Dialectric(d) => {
                                    assert(color_wf(out.attenuation@));
                                    assert(out.scattered@.orig == rec@.p);
                                },
                            }
                        }
                        if scattered.dir.x >= -DIR_MAX && scattered.dir.x <= DIR_MAX
                            && scattered.dir.y >= -DIR_MAX && scattered.dir.y <= DIR_MAX
                            && scattered.dir.z >= -DIR_MAX && scattered.dir.z <= DIR_MAX {
                            let sub = scattered.color(world, depth - 1);
                            proof {
                                lemma_abs_mul(out.attenuation@.x, sub@.x, 65536, 262144);
                                lemma_abs_mul(out.attenuation@.y, sub@.y, 65536, 262144);
                                lemma_abs_mul(out.attenuation@.z, sub@.z, 65536, 262144);
                                lemma_div_trunc_bound(
                                    out.attenuation@.x * sub@.x,
                                    SCALE as int,
                                    0x400000000,
                                );
                                lemma_div_trunc_bound(
                                    out.attenuation@.y * sub@.y,
                                    SCALE as int,
                                    0x400000000,
                                );
                                lemma_div_trunc_bound(
                                    out.attenuation@.z * sub@.z,
                                    SCALE as int,
                                    0x400000000,
                                );
                                assert(0 <= out.attenuation@.x * sub@.x && 0 <= out.attenuation@.y
                                    * sub@.y && 0 <= out.attenuation@.z * sub@.z)
                                    by (nonlinear_arith)
                                    requires
                                        0 <= out.attenuation@.x,
                                        0 <= out.attenuation@.y,
                                        0 <= out.attenuation@.z,
                                        0 <= sub@.x,
                                        0 <= sub@.y,
                                        0 <= sub@.z;
                                vstd::arithmetic::div_mod::lemma_div_pos_is_pos(
                                    out.attenuation@.x * sub@.x,
                                    SCALE as int,
                                );
                                vstd::arithmetic::div_mod::lemma_div_pos_is_pos(
                                    out.attenuation@.y * sub@.y,
                                    SCALE as int,
                                );
                                vstd::arithmetic::div_mod::lemma_div_pos_is_pos(
                                    out.attenuation@.z * sub@.z,
                                    SCALE as int,
                                );
                            }
                            let product = out.attenuation.mul(sub);
                            proof {
                                assert(color_rel(out.scattered@, world.objects@, depth - 1, sub@)
                                    && product@ == v3_cmul(out@.attenuation, sub@));
                                assert(scatter_post(rec@.material, self@, rec@, Some(out@)));
                            }
                            product
                        } else {
                            proof {
                                assert(scatter_post(rec@.material, self@, rec@, Some(out@)));
                                assert(!v3_bounded(out@.scattered.dir, DIR_MAX as int));
                            }
                            Vec3::new(0, 0, 0)
                        }
                    },
                    None => {
                        proof {
                            assert(scatter_post(
                                rec@.material,
                                self@,
                                rec@,
                                crate::hit::scatter_view(None),
                            ));
                        }
                        Vec3::new(0, 0, 0)
                    },
                }
            },
            None => {
                let unit_direction = self.dir.unit_vector();
                proof {
                    lemma_abs_mul(32768, unit_direction@.y + SCALE, 32768, 196608);
                    lemma_div_trunc_bound(
                        32768 * (unit_direction@.y + SCALE),
                        SCALE as int,
                        0x180000000,
                    );
                }
                let t = fx_mul(32768, unit_direction.y + SCALE);
                let white = Vec3::new(SCALE, SCALE, SCALE);
                let sky = Vec3::new(32768, 45875, SCALE);
                proof {
                    lemma_abs_mul(65536, (SCALE as int) - t, 65536, 163840);
                    lemma_div_trunc_bound(65536 * ((SCALE as int) - t), SCALE as int, 0x280000000);
                    lemma_abs_mul(32768, t as int, 65536, 98304);
                    lemma_abs_mul(45875, t as int, 65536, 98304);
                    lemma_abs_mul(65536, t as int, 65536, 98304);
                    lemma_div_trunc_bound(32768 * t, SCALE as int, 0x180000000);
                    lemma_div_trunc_bound(45875 * t, SCALE as int, 0x180000000);
                    lemma_div_trunc_bound(65536 * t, SCALE as int, 0x180000000);
                    lemma_background_nonneg(self@);
                }
                white.scale(SCALE - t).add(sky.scale(t))
            },
        }
    }
}

} // verus!
