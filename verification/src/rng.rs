//! Random vector generation for the scattering models.
//!
//! The only trusted item of the crate sits here: a wrapper around `rand`
//! that draws one integer from a half-open range. Everything built on it is
//! verified against what holds of every possible draw.

use vstd::prelude::*;

use rand::Rng;

use crate::fixed::{
    div_trunc, fx_div_spec, fx_mul_spec, is_int_sqrt, lemma_abs_mul, lemma_div_trunc_err,
    lemma_sqrt_exists, SCALE,
};
use crate::vec3::{
    dot, dot_spec, len_spec, len_sq_spec, lemma_dot_neg, unit_spec, v3_bounded, v3_neg, Vec3, V3,
};

verus! {

/// Relies on `rand::Rng::gen_range` over the half-open range `lo..hi` of a
/// thread-local generator: the draw lies in that range (the call panics on
/// an empty range, which the precondition rules out).
#[verifier::external_body]
fn rand_in_range(lo: i64, hi: i64) -> (r: i64)
    requires
        lo < hi,
    ensures
        lo <= r < hi,
{
    rand::thread_rng().gen_range(lo..hi)
}

/// A sample as `new_random_in_unit_sphere` promises it: each component in
/// `(-1, 1)`, the squared length inside the unit sphere yet at least a
/// quarter, so the sample normalizes accurately at this resolution.
pub open spec fn in_sphere_sample(v: V3) -> bool {
    &&& -(SCALE as int) < v.x < SCALE
    &&& -(SCALE as int) < v.y < SCALE
    &&& -(SCALE as int) < v.z < SCALE
    &&& SCALE / 4 <= len_sq_spec(v) < SCALE
}

impl Vec3 {
    /// A vector with each component uniform in `[0, 1)`.
    pub fn new_random() -> (r: Vec3)
        ensures
            0 <= r@.x < SCALE,
            0 <= r@.y < SCALE,
            0 <= r@.z < SCALE,
    {
        Vec3 {
            x: rand_in_range(0, SCALE),
            y: rand_in_range(0, SCALE),
            z: rand_in_range(0, SCALE),
        }
    }

    /// A vector with each component uniform in `[min, max)`.
    pub fn new_random_bounded(min: i64, max: i64) -> (r: Vec3)
        requires
            min < max,
        ensures
            min <= r@.x < max,
            min <= r@.y < max,
            min <= r@.z < max,
    {
        Vec3 {
            x: rand_in_range(min, max),
            y: rand_in_range(min, max),
            z: rand_in_range(min, max),
        }
    }

    /// Rejection-sample a vector inside the unit sphere, every sign
    /// combination possible. A sample shorter than half a unit is also
    /// rejected: it would normalize too coarsely at this resolution. A
    /// bounded attempt count keeps termination provable, and a fixed
    /// interior point stands in after the cap (the odds of reaching it are
    /// negligible).
    pub fn new_random_in_unit_sphere() -> (r: Vec3)
        ensures
            in_sphere_sample(r@),
    {
        let mut tries: u64 = 0;
        while tries < 64
            invariant
                tries <= 64,
            decreases 64 - tries,
        {
            let v = Self::new_random_bounded(-SCALE + 1, SCALE);
            let d = dot(v, v);
            if SCALE / 4 <= d && d < SCALE {
                return v;
            }
            tries = tries + 1;
        }
        Vec3 { x: 32768, y: 32768, z: 0 }
    }

    /// A random interior vector on the same side of the surface as the
    /// given normal: the sample is negated when it points against it.
    pub fn new_random_in_hemisphere(normal: Vec3) -> (r: Vec3)
        requires
            v3_bounded(normal@, crate::vec3::COMP_CAP as int),
        ensures
            0 <= dot_spec(r@, normal@),
            v3_bounded(r@, SCALE as int),
            exists|v: V3| in_sphere_sample(v) && (r@ == v || r@ == v3_neg(v)),
    {
        let v = Self::new_random_in_unit_sphere();
        let d = dot(v, normal);
        if d > 0 {
            proof {
                assert(in_sphere_sample(v@) && (v@ == v@ || v@ == v3_neg(v@)));
            }
            v
        } else {
            let w = v.neg();
            proof {
                lemma_dot_neg(v@, normal@);
                assert(in_sphere_sample(v@) && (w@ == v@ || w@ == v3_neg(v@)));
            }
            w
        }
    }

    /// A random interior vector, normalized. Its length is one up to 64
    /// raw units (about 0.001).
    pub fn new_random_unit_vector() -> (r: Vec3)
        ensures
            v3_bounded(r@, 2 * SCALE),
            exists|v: V3| in_sphere_sample(v) && r@ == unit_spec(v),
            SCALE - 64 <= len_spec(r@) <= SCALE + 64,
    {
        let v = Self::new_random_in_unit_sphere();
        let r = v.unit_vector();
        proof {
            assert(in_sphere_sample(v@) && r@ == unit_spec(v@));
            lemma_unit_sample_accurate(v@);
        }
        r
    }
}

/// The exact square of `x` sits within one scale unit above its truncated
/// scaled square.
proof fn lemma_sq_facts(x: int)
    ensures
        0 <= x * x,
        0 <= div_trunc(x * x, 65536),
        65536 * div_trunc(x * x, 65536) <= x * x,
        x * x < 65536 * div_trunc(x * x, 65536) + 65536,
{
    assert(0 <= x * x) by (nonlinear_arith);
    vstd::arithmetic::div_mod::lemma_fundamental_div_mod(x * x, 65536);
    vstd::arithmetic::div_mod::lemma_mod_bound(x * x, 65536);
    vstd::arithmetic::div_mod::lemma_div_pos_is_pos(x * x, 65536);
}

/// Normalizing an accepted sphere sample lands within 64 raw units of unit
/// length: the sample's length is at least half a unit, so the reciprocal,
/// the three component products and the final square root each round away
/// only a small, accounted-for amount.
pub proof fn lemma_unit_sample_accurate(v: V3)
    requires
        in_sphere_sample(v),
    ensures
        SCALE - 64 <= len_spec(unit_spec(v)) <= SCALE + 64,
{
    let ls = len_sq_spec(v);
    let w = ls * 65536;
    lemma_sqrt_exists(w);
    let l = len_spec(v);
    assert(is_int_sqrt(l, w));
    assert(32768 <= l <= 65535) by (nonlinear_arith)
        requires
            0 <= l,
            l * l <= w,
            w < (l + 1) * (l + 1),
            1073741824 <= w <= 4294901760;
    // The reciprocal of the length.
    let recip = fx_div_spec(SCALE as int, l);
    assert(recip == 4294967296int / l);
    vstd::arithmetic::div_mod::lemma_fundamental_div_mod(4294967296, l);
    vstd::arithmetic::div_mod::lemma_mod_bound(4294967296, l);
    vstd::arithmetic::div_mod::lemma_div_pos_is_pos(4294967296, l);
    vstd::arithmetic::div_mod::lemma_div_is_ordered_by_denominator(4294967296, 32768, l);
    vstd::arithmetic::div_mod::lemma_div_is_ordered_by_denominator(4294967296, l, 65535);
    let lr = l * recip;
    assert(4294967296 - 65535 <= lr <= 4294967296);
    assert(65537 <= recip <= 131072);
    // The exact squared length sits just above the truncated one.
    lemma_sq_facts(v.x);
    lemma_sq_facts(v.y);
    lemma_sq_facts(v.z);
    let xsum = v.x * v.x + v.y * v.y + v.z * v.z;
    assert(w <= xsum < w + 196608);
    assert((l + 1) * (l + 1) == l * l + 2 * l + 1) by (nonlinear_arith);
    assert(l * l <= xsum <= l * l + 327679);
    // Each scaled unit component is close to the exact product.
    let ux = fx_mul_spec(v.x, recip);
    let uy = fx_mul_spec(v.y, recip);
    let uz = fx_mul_spec(v.z, recip);
    let mx = v.x * recip;
    let my = v.y * recip;
    let mz = v.z * recip;
    lemma_abs_mul(v.x, recip, 65536, 131072);
    lemma_abs_mul(v.y, recip, 65536, 131072);
    lemma_abs_mul(v.z, recip, 65536, 131072);
    lemma_div_trunc_err(mx, 65536);
    lemma_div_trunc_err(my, 65536);
    lemma_div_trunc_err(mz, 65536);
    let ax = 65536 * ux;
    let ay = 65536 * uy;
    let az = 65536 * uz;
    assert((ax - mx) * (ax + mx) == ax * ax - mx * mx) by (nonlinear_arith);
    assert((ay - my) * (ay + my) == ay * ay - my * my) by (nonlinear_arith);
    assert((az - mz) * (az + mz) == az * az - mz * mz) by (nonlinear_arith);
    lemma_abs_mul(ax - mx, ax + mx, 65536, 17179934720);
    lemma_abs_mul(ay - my, ay + my, 65536, 17179934720);
    lemma_abs_mul(az - mz, az + mz, 65536, 17179934720);
    let rr = recip * recip;
    assert(mx * mx == (v.x * v.x) * rr && my * my == (v.y * v.y) * rr && mz * mz == (v.z * v.z)
        * rr) by (nonlinear_arith)
        requires
            mx == v.x * recip,
            my == v.y * recip,
            mz == v.z * recip,
            rr == recip * recip;
    let asum = ax * ax + ay * ay + az * az;
    assert(rr * xsum == (v.x * v.x) * rr + (v.y * v.y) * rr + (v.z * v.z) * rr)
        by (nonlinear_arith)
        requires
            xsum == v.x * v.x + v.y * v.y + v.z * v.z;
    assert(rr * xsum - 3377712605429760 <= asum <= rr * xsum + 3377712605429760);
    // Bound the exact product from both sides.
    assert(lr * lr == (l * l) * rr) by (nonlinear_arith)
        requires
            lr == l * recip,
            rr == recip * recip;
    assert(lr * lr >= 4294901761 * 4294901761) by (nonlinear_arith)
        requires
            lr >= 4294901761;
    assert(lr * lr <= 4294967296 * 4294967296) by (nonlinear_arith)
        requires
            0 <= lr <= 4294967296;
    assert(rr <= 17179869184) by (nonlinear_arith)
        requires
            0 <= recip <= 131072,
            rr == recip * recip;
    assert((l * l) * rr <= rr * xsum <= (l * l) * rr + rr * 327679) by (nonlinear_arith)
        requires
            l * l <= xsum <= l * l + 327679,
            0 <= rr;
    assert(rr * 327679 <= 17179869184 * 327679) by (nonlinear_arith)
        requires
            0 <= rr <= 17179869184;
    assert(4294901761 * 4294901761 - 3377712605429760 <= asum);
    assert(asum <= 4294967296 * 4294967296 + 17179869184 * 327679 + 3377712605429760);
    // Return to the truncated squared length of the unit vector.
    let lsu = len_sq_spec(unit_spec(v));
    assert(lsu == div_trunc(ux * ux, 65536) + div_trunc(uy * uy, 65536) + div_trunc(
        uz * uz,
        65536,
    ));
    lemma_sq_facts(ux);
    lemma_sq_facts(uy);
    lemma_sq_facts(uz);
    let usum = ux * ux + uy * uy + uz * uz;
    assert(65536 * lsu <= usum < 65536 * lsu + 196608);
    assert(ax * ax == 4294967296 * (ux * ux) && ay * ay == 4294967296 * (uy * uy) && az * az
        == 4294967296 * (uz * uz)) by (nonlinear_arith)
        requires
            ax == 65536 * ux,
            ay == 65536 * uy,
            az == 65536 * uz;
    assert(asum == 4294967296 * usum);
    assert(281474976710656 * lsu <= asum < 281474976710656 * lsu + 12884901888 * 65536);
    assert(65519 <= lsu <= 65567);
    // And to its length.
    let wu = lsu * 65536;
    lemma_sqrt_exists(wu);
    let lu = len_spec(unit_spec(v));
    assert(is_int_sqrt(lu, wu));
    assert(4293853184 <= wu <= 4296998912);
    assert(65472 <= lu <= 65600) by (nonlinear_arith)
        requires
            0 <= lu,
            lu * lu <= wu,
            wu < (lu + 1) * (lu + 1),
            4293853184 <= wu <= 4296998912;
}

} // verus!
