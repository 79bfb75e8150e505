//! Three-component fixed-point vectors, used both as points and as colors.
//!
//! The view of a `Vec3` is a `V3` of unbounded integers; every operation's
//! contract states the exact raw result over that view, in the truncating
//! fixed-point arithmetic of `crate::fixed`.

use vstd::prelude::*;

use crate::fixed::{
    div_trunc, fx_div, fx_div_spec, fx_mul, fx_mul_spec, fx_sqrt, fx_sqrt_spec, is_int_sqrt,
    lemma_abs_mul, lemma_div_trunc_bound, lemma_sqrt_exists, SCALE,
};

verus! {

/// Largest component magnitude accepted by the product-forming operations
/// (dot, cross, squared length, reflection): 2^28 raw units.
pub const COMP_CAP: i64 = 0x10000000;

/// Magnitude below which a component counts as zero. The real threshold
/// 1e-8 lies far below the fixed-point resolution, so one raw unit stands
/// for it.
pub const NEAR_ZERO_RAW: i64 = 1;

/// Mathematical view of a vector: three unbounded integer components.
pub struct V3 {
    pub x: int,
    pub y: int,
    pub z: int,
}

#[derive(Debug, Clone, Copy, PartialEq, Eq, Structural)]
pub struct Vec3 {
    pub x: i64,
    pub y: i64,
    pub z: i64,
}

impl View for Vec3 {
    type V = V3;

    open spec fn view(&self) -> V3 {
        V3 { x: self.x as int, y: self.y as int, z: self.z as int }
    }
}

/// A point in space is the same value type as a vector.
pub type Point3 = Vec3;

/// A color is the same value type as a vector, each channel in `[0, 1]`
/// for energy-conserving materials.
pub type Color = Vec3;

pub open spec fn v3_add(u: V3, v: V3) -> V3 {
    V3 { x: u.x + v.x, y: u.y + v.y, z: u.z + v.z }
}

pub open spec fn v3_sub(u: V3, v: V3) -> V3 {
    V3 { x: u.x - v.x, y: u.y - v.y, z: u.z - v.z }
}

pub open spec fn v3_neg(v: V3) -> V3 {
    V3 { x: -v.x, y: -v.y, z: -v.z }
}

/// Component-wise product.
pub open spec fn v3_cmul(u: V3, v: V3) -> V3 {
    V3 {
        x: fx_mul_spec(u.x, v.x),
        y: fx_mul_spec(u.y, v.y),
        z: fx_mul_spec(u.z, v.z),
    }
}

/// Product with a scalar.
pub open spec fn v3_smul(v: V3, f: int) -> V3 {
    V3 {
        x: fx_mul_spec(v.x, f),
        y: fx_mul_spec(v.y, f),
        z: fx_mul_spec(v.z, f),
    }
}

/// Quotient by a scalar: the reciprocal is formed once and multiplied in,
/// so each component rounds twice.
pub open spec fn v3_div(v: V3, f: int) -> V3 {
    v3_smul(v, fx_div_spec(SCALE as int, f))
}

pub open spec fn dot_spec(u: V3, v: V3) -> int {
    fx_mul_spec(u.x, v.x) + fx_mul_spec(u.y, v.y) + fx_mul_spec(u.z, v.z)
}

pub open spec fn cross_spec(u: V3, v: V3) -> V3 {
    V3 {
        x: fx_mul_spec(u.y, v.z) - fx_mul_spec(u.z, v.y),
        y: fx_mul_spec(u.z, v.x) - fx_mul_spec(u.x, v.z),
        z: fx_mul_spec(u.x, v.y) - fx_mul_spec(u.y, v.x),
    }
}

pub open spec fn len_sq_spec(v: V3) -> int {
    fx_mul_spec(v.x, v.x) + fx_mul_spec(v.y, v.y) + fx_mul_spec(v.z, v.z)
}

/// Length: the fixed-point square root of the squared length.
pub open spec fn len_spec(v: V3) -> int {
    fx_sqrt_spec(len_sq_spec(v))
}

pub open spec fn unit_spec(v: V3) -> V3 {
    v3_div(v, len_spec(v))
}

pub open spec fn near_zero_spec(v: V3) -> bool {
    -(NEAR_ZERO_RAW as int) < v.x < NEAR_ZERO_RAW as int
        && -(NEAR_ZERO_RAW as int) < v.y < NEAR_ZERO_RAW as int
        && -(NEAR_ZERO_RAW as int) < v.z < NEAR_ZERO_RAW as int
}

/// `reflect(v, n) = v - n * 2 * dot(v, n)`.
pub open spec fn reflect_spec(v: V3, n: V3) -> V3 {
    v3_sub(v, v3_smul(v3_smul(n, 2 * SCALE), dot_spec(v, n)))
}

/// Snell's-law refraction of `r` at a surface with normal `n` and ratio of
/// refraction indices `e`, decomposed into the components perpendicular and
/// parallel to the normal.
pub open spec fn refract_spec(r: V3, n: V3, e: int) -> V3 {
    let d = dot_spec(v3_neg(r), n);
    let cos_theta = if d > SCALE { SCALE as int } else { d };
    let r_out_perp = v3_smul(v3_add(r, v3_smul(n, cos_theta)), e);
    let m = SCALE - len_sq_spec(r_out_perp);
    let r_out_parallel = v3_smul(n, -fx_sqrt_spec(if m >= 0 { m } else { -m }));
    v3_add(r_out_perp, r_out_parallel)
}

/// All components of `v` lie in `[-m, m]`.
pub open spec fn v3_bounded(v: V3, m: int) -> bool {
    -m <= v.x <= m && -m <= v.y <= m && -m <= v.z <= m
}

/// Component bounds on both vectors bound their dot product.
pub proof fn lemma_dot_bound(u: V3, v: V3, mu: int, mv: int)
    requires
        0 <= mu,
        0 <= mv,
        v3_bounded(u, mu),
        v3_bounded(v, mv),
    ensures
        -3 * ((mu * mv) / (SCALE as int)) <= dot_spec(u, v) <= 3 * ((mu * mv) / (SCALE as int)),
{
    lemma_abs_mul(u.x, v.x, mu, mv);
    lemma_abs_mul(u.y, v.y, mu, mv);
    lemma_abs_mul(u.z, v.z, mu, mv);
    lemma_abs_mul(mu, mv, mu, mv);
    lemma_div_trunc_bound(u.x * v.x, SCALE as int, mu * mv);
    lemma_div_trunc_bound(u.y * v.y, SCALE as int, mu * mv);
    lemma_div_trunc_bound(u.z * v.z, SCALE as int, mu * mv);
}

/// A squared length is never negative.
pub proof fn lemma_len_sq_nonneg(v: V3)
    ensures
        0 <= len_sq_spec(v),
{
    assert(0 <= v.x * v.x && 0 <= v.y * v.y && 0 <= v.z * v.z) by (nonlinear_arith);
    vstd::arithmetic::div_mod::lemma_div_pos_is_pos(v.x * v.x, SCALE as int);
    vstd::arithmetic::div_mod::lemma_div_pos_is_pos(v.y * v.y, SCALE as int);
    vstd::arithmetic::div_mod::lemma_div_pos_is_pos(v.z * v.z, SCALE as int);
}

/// The truncating dot product is odd in its first argument.
pub proof fn lemma_dot_neg(u: V3, v: V3)
    ensures
        dot_spec(v3_neg(u), v) == -dot_spec(u, v),
{
    assert((-u.x) * v.x == -(u.x * v.x) && (-u.y) * v.y == -(u.y * v.y) && (-u.z) * v.z == -(u.z
        * v.z)) by (nonlinear_arith);
    crate::fixed::lemma_div_trunc_neg(u.x * v.x, SCALE as int);
    crate::fixed::lemma_div_trunc_neg(u.y * v.y, SCALE as int);
    crate::fixed::lemma_div_trunc_neg(u.z * v.z, SCALE as int);
}

/// A vector of squared length at least one has length at least 256 raw
/// units, and its unit vector's components stay within two whole units:
/// truncation can stretch a normalized component, but not past that.
pub proof fn lemma_unit_bound(v: V3)
    requires
        v3_bounded(v, COMP_CAP as int),
        1 <= len_sq_spec(v),
    ensures
        256 <= len_spec(v),
        v3_bounded(unit_spec(v), 2 * SCALE),
{
    let ls = len_sq_spec(v);
    let w = ls * (SCALE as int);
    lemma_sqrt_exists(w);
    let l = len_spec(v);
    assert(is_int_sqrt(l, w));
    assert(l >= 256) by (nonlinear_arith)
        requires
            0 <= l,
            w < (l + 1) * (l + 1),
            w >= 65536;
    // Each squared component is less than w + SCALE: the other two
    // truncated squares in ls are nonnegative, and truncation loses less
    // than one scale unit.
    lemma_sq_div_lower(v.x);
    lemma_sq_div_lower(v.y);
    lemma_sq_div_lower(v.z);
    assert(v.x * v.x < w + 65536 && v.y * v.y < w + 65536 && v.z * v.z < w + 65536);
    assert(-2 * l <= v.x <= 2 * l && -2 * l <= v.y <= 2 * l && -2 * l <= v.z <= 2 * l)
        by (nonlinear_arith)
        requires
            256 <= l,
            w < (l + 1) * (l + 1),
            v.x * v.x < w + 65536,
            v.y * v.y < w + 65536,
            v.z * v.z < w + 65536;
    let recip = fx_div_spec(SCALE as int, l);
    assert(0 <= recip && l * recip <= 65536int * 65536) by {
        vstd::arithmetic::div_mod::lemma_div_pos_is_pos(65536int * 65536, l);
        vstd::arithmetic::div_mod::lemma_fundamental_div_mod(65536int * 65536, l);
        vstd::arithmetic::div_mod::lemma_mod_bound(65536int * 65536, l);
    }
    assert(-(2int * 65536 * 65536) <= v.x * recip <= 2int * 65536 * 65536 && -(2int * 65536 * 65536) <= v.y
        * recip <= 2int * 65536 * 65536 && -(2int * 65536 * 65536) <= v.z * recip <= 2int * 65536 * 65536)
        by (nonlinear_arith)
        requires
            0 <= recip,
            l * recip <= 65536int * 65536,
            256 <= l,
            -2 * l <= v.x <= 2 * l,
            -2 * l <= v.y <= 2 * l,
            -2 * l <= v.z <= 2 * l;
    lemma_div_trunc_bound(v.x * recip, 65536, 2int * 65536 * 65536);
    lemma_div_trunc_bound(v.y * recip, 65536, 2int * 65536 * 65536);
    lemma_div_trunc_bound(v.z * recip, 65536, 2int * 65536 * 65536);
}

/// `x^2 < (x^2 / SCALE) * SCALE + SCALE`: truncation loses less than one
/// whole scale unit.
proof fn lemma_sq_div_lower(x: int)
    ensures
        x * x < div_trunc(x * x, 65536) * 65536 + 65536,
        div_trunc(x * x, 65536) >= 0,
{
    assert(0 <= x * x) by (nonlinear_arith);
    vstd::arithmetic::div_mod::lemma_div_pos_is_pos(x * x, 65536);
    vstd::arithmetic::div_mod::lemma_fundamental_div_mod(x * x, 65536);
    vstd::arithmetic::div_mod::lemma_mod_bound(x * x, 65536);
}

impl Vec3 {
    pub fn new(x: i64, y: i64, z: i64) -> (r: Vec3)
        ensures
            r@ == (V3 { x: x as int, y: y as int, z: z as int }),
    {
        Vec3 { x, y, z }
    }

    pub fn add(self, other: Vec3) -> (r: Vec3)
        requires
            i64::MIN <= self@.x + other@.x <= i64::MAX,
            i64::MIN <= self@.y + other@.y <= i64::MAX,
            i64::MIN <= self@.z + other@.z <= i64::MAX,
        ensures
            r@ == v3_add(self@, other@),
    {
        Vec3 { x: self.x + other.x, y: self.y + other.y, z: self.z + other.z }
    }

    pub fn sub(self, other: Vec3) -> (r: Vec3)
        requires
            i64::MIN <= self@.x - other@.x <= i64::MAX,
            i64::MIN <= self@.y - other@.y <= i64::MAX,
            i64::MIN <= self@.z - other@.z <= i64::MAX,
        ensures
            r@ == v3_sub(self@, other@),
    {
        Vec3 { x: self.x - other.x, y: self.y - other.y, z: self.z - other.z }
    }

    /// Component-wise product of two vectors (used for color attenuation).
    pub fn mul(self, other: Vec3) -> (r: Vec3)
        requires
            -(crate::fixed::PRODUCT_CAP as int) <= self@.x * other@.x <= crate::fixed::PRODUCT_CAP
                as int,
            -(crate::fixed::PRODUCT_CAP as int) <= self@.y * other@.y <= crate::fixed::PRODUCT_CAP
                as int,
            -(crate::fixed::PRODUCT_CAP as int) <= self@.z * other@.z <= crate::fixed::PRODUCT_CAP
                as int,
        ensures
            r@ == v3_cmul(self@, other@),
    {
        Vec3 {
            x: fx_mul(self.x, other.x),
            y: fx_mul(self.y, other.y),
            z: fx_mul(self.z, other.z),
        }
    }

    /// Product with a scalar.
    pub fn scale(self, f: i64) -> (r: Vec3)
        requires
            -(crate::fixed::PRODUCT_CAP as int) <= self@.x * f <= crate::fixed::PRODUCT_CAP as int,
            -(crate::fixed::PRODUCT_CAP as int) <= self@.y * f <= crate::fixed::PRODUCT_CAP as int,
            -(crate::fixed::PRODUCT_CAP as int) <= self@.z * f <= crate::fixed::PRODUCT_CAP as int,
        ensures
            r@ == v3_smul(self@, f as int),
    {
        Vec3 { x: fx_mul(self.x, f), y: fx_mul(self.y, f), z: fx_mul(self.z, f) }
    }

    /// Quotient by a nonzero scalar, via its reciprocal, as one division
    /// and one multiplication per component.
    pub fn div(self, f: i64) -> (r: Vec3)
        requires
            f != 0,
            -0x400000000000 <= self@.x <= 0x400000000000,
            -0x400000000000 <= self@.y <= 0x400000000000,
            -0x400000000000 <= self@.z <= 0x400000000000,
        ensures
            r@ == v3_div(self@, f as int),
    {
        let recip = fx_div(SCALE, f);
        proof {
            if f >= 1 {
                vstd::arithmetic::div_mod::lemma_div_pos_is_pos(65536int * 65536, f as int);
                vstd::arithmetic::div_mod::lemma_div_is_ordered_by_denominator(
                    65536int * 65536,
                    1,
                    f as int,
                );
            } else {
                vstd::arithmetic::div_mod::lemma_div_pos_is_pos(65536int * 65536, -(f as int));
                vstd::arithmetic::div_mod::lemma_div_is_ordered_by_denominator(
                    65536int * 65536,
                    1,
                    -(f as int),
                );
            }
            assert(-0x100000000 <= fx_div_spec(SCALE as int, f as int) <= 0x100000000);
            lemma_abs_mul(self@.x, recip as int, 0x400000000000, 0x100000000);
            lemma_abs_mul(self@.y, recip as int, 0x400000000000, 0x100000000);
            lemma_abs_mul(self@.z, recip as int, 0x400000000000, 0x100000000);
        }
        Vec3 { x: fx_mul(self.x, recip), y: fx_mul(self.y, recip), z: fx_mul(self.z, recip) }
    }

    pub fn neg(self) -> (r: Vec3)
        requires
            i64::MIN < self@.x,
            i64::MIN < self@.y,
            i64::MIN < self@.z,
        ensures
            r@ == v3_neg(self@),
    {
        Vec3 { x: -self.x, y: -self.y, z: -self.z }
    }

    pub fn length_squared(self) -> (r: i64)
        requires
            v3_bounded(self@, COMP_CAP as int),
        ensures
            r == len_sq_spec(self@),
            0 <= r,
            r <= 0x30000000000,
    {
        proof {
            lemma_abs_mul(self@.x, self@.x, COMP_CAP as int, COMP_CAP as int);
            lemma_abs_mul(self@.y, self@.y, COMP_CAP as int, COMP_CAP as int);
            lemma_abs_mul(self@.z, self@.z, COMP_CAP as int, COMP_CAP as int);
            lemma_div_trunc_bound(self@.x * self@.x, SCALE as int, 0x100000000000000);
            lemma_div_trunc_bound(self@.y * self@.y, SCALE as int, 0x100000000000000);
            lemma_div_trunc_bound(self@.z * self@.z, SCALE as int, 0x100000000000000);
            lemma_len_sq_nonneg(self@);
            lemma_sq_div_lower(self@.x);
            lemma_sq_div_lower(self@.y);
            lemma_sq_div_lower(self@.z);
        }
        fx_mul(self.x, self.x) + fx_mul(self.y, self.y) + fx_mul(self.z, self.z)
    }

    pub fn length(self) -> (r: i64)
        requires
            v3_bounded(self@, COMP_CAP as int),
        ensures
            r == len_spec(self@),
            0 <= r,
    {
        let ls = self.length_squared();
        fx_sqrt(ls)
    }

    /// Normalize to (approximately) unit length. The caller must rule out
    /// the degenerate case: a squared length of zero would divide by zero.
    pub fn unit_vector(self) -> (r: Vec3)
        requires
            v3_bounded(self@, COMP_CAP as int),
            1 <= len_sq_spec(self@),
        ensures
            r@ == unit_spec(self@),
            v3_bounded(r@, 2 * SCALE),
    {
        proof {
            lemma_unit_bound(self@);
        }
        let l = self.length();
        self.div(l)
    }

    /// All components smaller in magnitude than one raw unit.
    pub fn near_zero(self) -> (r: bool)
        ensures
            r == near_zero_spec(self@),
    {
        self.x > -NEAR_ZERO_RAW && self.x < NEAR_ZERO_RAW && self.y > -NEAR_ZERO_RAW && self.y
            < NEAR_ZERO_RAW && self.z > -NEAR_ZERO_RAW && self.z < NEAR_ZERO_RAW
    }
}

pub fn dot(u: Vec3, v: Vec3) -> (r: i64)
    requires
        v3_bounded(u@, COMP_CAP as int),
        v3_bounded(v@, COMP_CAP as int),
    ensures
        r == dot_spec(u@, v@),
        -0x30000000000 <= r <= 0x30000000000,
{
    proof {
        lemma_abs_mul(u@.x, v@.x, COMP_CAP as int, COMP_CAP as int);
        lemma_abs_mul(u@.y, v@.y, COMP_CAP as int, COMP_CAP as int);
        lemma_abs_mul(u@.z, v@.z, COMP_CAP as int, COMP_CAP as int);
        lemma_div_trunc_bound(u@.x * v@.x, SCALE as int, 0x100000000000000);
        lemma_div_trunc_bound(u@.y * v@.y, SCALE as int, 0x100000000000000);
        lemma_div_trunc_bound(u@.z * v@.z, SCALE as int, 0x100000000000000);
    }
    fx_mul(u.x, v.x) + fx_mul(u.y, v.y) + fx_mul(u.z, v.z)
}

pub fn cross(u: Vec3, v: Vec3) -> (r: Vec3)
    requires
        v3_bounded(u@, COMP_CAP as int),
        v3_bounded(v@, COMP_CAP as int),
    ensures
        r@ == cross_spec(u@, v@),
{
    proof {
        lemma_abs_mul(u@.y, v@.z, COMP_CAP as int, COMP_CAP as int);
        lemma_abs_mul(u@.z, v@.y, COMP_CAP as int, COMP_CAP as int);
        lemma_abs_mul(u@.z, v@.x, COMP_CAP as int, COMP_CAP as int);
        lemma_abs_mul(u@.x, v@.z, COMP_CAP as int, COMP_CAP as int);
        lemma_abs_mul(u@.x, v@.y, COMP_CAP as int, COMP_CAP as int);
        lemma_abs_mul(u@.y, v@.x, COMP_CAP as int, COMP_CAP as int);
        lemma_div_trunc_bound(u@.y * v@.z, SCALE as int, 0x100000000000000);
        lemma_div_trunc_bound(u@.z * v@.y, SCALE as int, 0x100000000000000);
        lemma_div_trunc_bound(u@.z * v@.x, SCALE as int, 0x100000000000000);
        lemma_div_trunc_bound(u@.x * v@.z, SCALE as int, 0x100000000000000);
        lemma_div_trunc_bound(u@.x * v@.y, SCALE as int, 0x100000000000000);
        lemma_div_trunc_bound(u@.y * v@.x, SCALE as int, 0x100000000000000);
    }
    Vec3 {
        x: fx_mul(u.y, v.z) - fx_mul(u.z, v.y),
        y: fx_mul(u.z, v.x) - fx_mul(u.x, v.z),
        z: fx_mul(u.x, v.y) - fx_mul(u.y, v.x),
    }
}

/// Mirror reflection of `v` about the normal `n`.
pub fn reflect(v: Vec3, n: Vec3) -> (r: Vec3)
    requires
        v3_bounded(v@, COMP_CAP as int),
        v3_bounded(n@, COMP_CAP as int),
    ensures
        r@ == reflect_spec(v@, n@),
{
    let d = dot(v, n);
    proof {
        lemma_abs_mul(n@.x, 2 * (SCALE as int), COMP_CAP as int, 2 * (SCALE as int));
        lemma_abs_mul(n@.y, 2 * (SCALE as int), COMP_CAP as int, 2 * (SCALE as int));
        lemma_abs_mul(n@.z, 2 * (SCALE as int), COMP_CAP as int, 2 * (SCALE as int));
        lemma_div_trunc_bound(n@.x * (2 * (SCALE as int)), SCALE as int, 0x200000000000);
        lemma_div_trunc_bound(n@.y * (2 * (SCALE as int)), SCALE as int, 0x200000000000);
        lemma_div_trunc_bound(n@.z * (2 * (SCALE as int)), SCALE as int, 0x200000000000);
    }
    let twice = n.scale(2 * SCALE);
    proof {
        lemma_abs_mul(twice@.x, d as int, 0x20000000, 0x30000000000);
        lemma_abs_mul(twice@.y, d as int, 0x20000000, 0x30000000000);
        lemma_abs_mul(twice@.z, d as int, 0x20000000, 0x30000000000);
        lemma_div_trunc_bound(twice@.x * d, SCALE as int, 0x600000000000000000);
        lemma_div_trunc_bound(twice@.y * d, SCALE as int, 0x600000000000000000);
        lemma_div_trunc_bound(twice@.z * d, SCALE as int, 0x600000000000000000);
    }
    let scaled = twice.scale(d);
    v.sub(scaled)
}

/// Snell's-law refraction of `r` about the normal `n` with index ratio
/// `etai_over_etat`.
pub fn refract(r: Vec3, n: Vec3, etai_over_etat: i64) -> (res: Vec3)
    requires
        v3_bounded(r@, 4 * SCALE),
        v3_bounded(n@, 4 * SCALE),
        0 <= etai_over_etat <= 16 * SCALE,
    ensures
        res@ == refract_spec(r@, n@, etai_over_etat as int),
{
    let d = dot(r.neg(), n);
    proof {
        lemma_dot_bound(v3_neg(r@), n@, 262144, 262144);
    }
    let cos_theta = if d > SCALE {
        SCALE
    } else {
        d
    };
    proof {
        // |cos| <= 48 * SCALE, |n| <= 4 * SCALE: the scaled normal stays
        // within 192 whole units.
        lemma_abs_mul(n@.x, cos_theta as int, 262144, 3145728);
        lemma_abs_mul(n@.y, cos_theta as int, 262144, 3145728);
        lemma_abs_mul(n@.z, cos_theta as int, 262144, 3145728);
        lemma_div_trunc_bound(n@.x * cos_theta, SCALE as int, 0xC000000000);
        lemma_div_trunc_bound(n@.y * cos_theta, SCALE as int, 0xC000000000);
        lemma_div_trunc_bound(n@.z * cos_theta, SCALE as int, 0xC000000000);
    }
    let cn = n.scale(cos_theta);
    let sum = r.add(cn);
    proof {
        // |sum| <= 196 * SCALE, |e| <= 16 * SCALE: the perpendicular part
        // stays within 3136 whole units, under COMP_CAP.
        lemma_abs_mul(sum@.x, etai_over_etat as int, 12845056, 1048576);
        lemma_abs_mul(sum@.y, etai_over_etat as int, 12845056, 1048576);
        lemma_abs_mul(sum@.z, etai_over_etat as int, 12845056, 1048576);
        lemma_div_trunc_bound(sum@.x * etai_over_etat, SCALE as int, 0xC4000000000);
        lemma_div_trunc_bound(sum@.y * etai_over_etat, SCALE as int, 0xC4000000000);
        lemma_div_trunc_bound(sum@.z * etai_over_etat, SCALE as int, 0xC4000000000);
    }
    let r_out_perp = sum.scale(etai_over_etat);
    let ls = r_out_perp.length_squared();
    let m = SCALE - ls;
    let am = if m >= 0 {
        m
    } else {
        -m
    };
    let s = fx_sqrt(am);
    proof {
        assert(s <= 0x40000000) by (nonlinear_arith)
            requires
                0 <= s,
                s * s <= am * (SCALE as int),
                0 <= am <= 0x30000010000,
                SCALE == 65536;
        lemma_abs_mul(n@.x, -(s as int), 262144, 0x40000000);
        lemma_abs_mul(n@.y, -(s as int), 262144, 0x40000000);
        lemma_abs_mul(n@.z, -(s as int), 262144, 0x40000000);
        lemma_div_trunc_bound(n@.x * -(s as int), SCALE as int, 0x4000000000000);
        lemma_div_trunc_bound(n@.y * -(s as int), SCALE as int, 0x4000000000000);
        lemma_div_trunc_bound(n@.z * -(s as int), SCALE as int, 0x4000000000000);
    }
    let r_out_parallel = n.scale(-s);
    r_out_perp.add(r_out_parallel)
}

/// For every vector, its dot product with itself is its squared length.
pub proof fn lemma_dot_self_is_length_squared(v: V3)
    ensures
        dot_spec(v, v) == len_sq_spec(v),
{
}

/// For every vector, its length is the integer square root of its scaled
/// squared length.
pub proof fn lemma_length_is_sqrt_of_length_squared(v: V3)
    ensures
        len_spec(v) == crate::fixed::sqrt_spec(len_sq_spec(v) * SCALE),
{
}

} // verus!
