//! Fixed-point scalar arithmetic.
//!
//! A scalar is an `i64` counting units of `1 / SCALE`. Multiplication and
//! division rescale their exact integer result and round it toward zero,
//! which `div_trunc` captures at the spec level. The square root is the
//! integer square root of the rescaled radicand.

use vstd::prelude::*;

verus! {

/// Number of raw units in the real number one.
pub const SCALE: i64 = 65536;

/// Largest magnitude the product of two raw operands may take (2^78), so
/// that every rescaled product fits comfortably in an `i64`.
pub const PRODUCT_CAP: i128 = 0x40000000000000000000;

/// Largest magnitude of a numerator accepted by `fx_div` (2^46).
pub const DIV_NUM_CAP: i64 = 0x400000000000;

/// Quotient of `n` by `d > 0`, rounded toward zero: the rounding mode of
/// all executable fixed-point arithmetic here.
pub open spec fn div_trunc(n: int, d: int) -> int
    recommends
        d > 0,
{
    if n >= 0 {
        n / d
    } else {
        -((-n) / d)
    }
}

/// Fixed-point product of `a` and `b`, rounded toward zero.
pub open spec fn fx_mul_spec(a: int, b: int) -> int {
    div_trunc(a * b, SCALE as int)
}

/// Fixed-point quotient of `a` by a nonzero `b`, rounded toward zero.
pub open spec fn fx_div_spec(a: int, b: int) -> int
    recommends
        b != 0,
{
    if b > 0 {
        div_trunc(a * SCALE, b)
    } else {
        -div_trunc(a * SCALE, -b)
    }
}

/// `r` is the integer square root of `x`.
pub open spec fn is_int_sqrt(r: int, x: int) -> bool {
    0 <= r && r * r <= x && x < (r + 1) * (r + 1)
}

/// The integer square root of a nonnegative `x`.
pub open spec fn sqrt_spec(x: int) -> int {
    choose|r: int| is_int_sqrt(r, x)
}

/// The fixed-point square root of a nonnegative fixed-point `x` is the
/// integer square root of `x * SCALE`, since the scale of a raw product is
/// `SCALE * SCALE`.
pub open spec fn fx_sqrt_spec(x: int) -> int {
    sqrt_spec(x * SCALE)
}

/// An integer square root exists for every nonnegative integer, so `choose`
/// in `sqrt_spec` picks the (unique) one.
pub proof fn lemma_sqrt_exists(x: int)
    requires
        x >= 0,
    ensures
        is_int_sqrt(sqrt_spec(x), x),
    decreases x,
{
    if x == 0 {
        assert(is_int_sqrt(0, 0));
    } else {
        lemma_sqrt_exists(x - 1);
        let r = sqrt_spec(x - 1);
        if (r + 1) * (r + 1) <= x {
            assert(is_int_sqrt(r + 1, x)) by (nonlinear_arith)
                requires
                    0 <= r,
                    r * r <= x - 1,
                    x - 1 < (r + 1) * (r + 1),
                    (r + 1) * (r + 1) <= x;
        } else {
            assert(is_int_sqrt(r, x));
        }
    }
    assert(exists|r: int| is_int_sqrt(r, x));
}

/// The integer square root is unique, so a witness pins `sqrt_spec` down.
pub proof fn lemma_sqrt_val(r: int, x: int)
    requires
        is_int_sqrt(r, x),
    ensures
        sqrt_spec(x) == r,
{
    assert(exists|q: int| is_int_sqrt(q, x));
    let s = sqrt_spec(x);
    assert(is_int_sqrt(s, x));
    assert(s == r) by (nonlinear_arith)
        requires
            0 <= s,
            s * s <= x,
            x < (s + 1) * (s + 1),
            0 <= r,
            r * r <= x,
            x < (r + 1) * (r + 1);
}

/// A bound on both factors bounds the product.
pub proof fn lemma_abs_mul(a: int, b: int, ma: int, mb: int)
    by (nonlinear_arith)
    requires
        -ma <= a <= ma,
        -mb <= b <= mb,
        0 <= ma,
        0 <= mb,
    ensures
        -(ma * mb) <= a * b <= ma * mb,
{
}

/// A bound on the numerator bounds the truncating quotient.
pub proof fn lemma_div_trunc_bound(n: int, d: int, m: int)
    requires
        d >= 1,
        0 <= m,
        -m <= n <= m,
    ensures
        -(m / d) <= div_trunc(n, d) <= m / d,
{
    if n >= 0 {
        vstd::arithmetic::div_mod::lemma_div_is_ordered(n, m, d);
        vstd::arithmetic::div_mod::lemma_div_pos_is_pos(n, d);
        vstd::arithmetic::div_mod::lemma_div_pos_is_pos(m, d);
    } else {
        vstd::arithmetic::div_mod::lemma_div_is_ordered(-n, m, d);
        vstd::arithmetic::div_mod::lemma_div_pos_is_pos(-n, d);
        vstd::arithmetic::div_mod::lemma_div_pos_is_pos(m, d);
    }
}

/// Truncating division loses less than one divisor's worth.
pub proof fn lemma_div_trunc_err(m: int, d: int)
    requires
        d >= 1,
    ensures
        -d < m - d * div_trunc(m, d) < d,
{
    if m >= 0 {
        vstd::arithmetic::div_mod::lemma_fundamental_div_mod(m, d);
        vstd::arithmetic::div_mod::lemma_mod_bound(m, d);
        assert(m - d * div_trunc(m, d) == m % d);
    } else {
        vstd::arithmetic::div_mod::lemma_fundamental_div_mod(-m, d);
        vstd::arithmetic::div_mod::lemma_mod_bound(-m, d);
        assert(-m == d * ((-m) / d) + ((-m) % d));
        assert(d * div_trunc(m, d) == -(d * ((-m) / d))) by (nonlinear_arith)
            requires
                div_trunc(m, d) == -((-m) / d);
        assert(m - d * div_trunc(m, d) == -((-m) % d));
    }
}

/// Truncating division is odd in its numerator.
pub proof fn lemma_div_trunc_neg(n: int, d: int)
    requires
        d >= 1,
    ensures
        div_trunc(-n, d) == -div_trunc(n, d),
{
    if n == 0 {
        vstd::arithmetic::div_mod::lemma_div_of0(d);
    }
}

/// Fixed-point product, rounded toward zero.
pub fn fx_mul(a: i64, b: i64) -> (r: i64)
    requires
        -PRODUCT_CAP <= a * b <= PRODUCT_CAP,
    ensures
        r == fx_mul_spec(a as int, b as int),
        -0x4000000000000000 <= r <= 0x4000000000000000,
{
    let p: i128 = (a as i128) * (b as i128);
    proof {
        lemma_div_trunc_bound(p as int, SCALE as int, PRODUCT_CAP as int);
    }
    if p >= 0 {
        let q: u128 = (p as u128) / 65536;
        q as i64
    } else {
        let q: u128 = ((-p) as u128) / 65536;
        -(q as i64)
    }
}

/// Fixed-point quotient by a nonzero divisor, rounded toward zero.
pub fn fx_div(a: i64, b: i64) -> (r: i64)
    requires
        b != 0,
        -DIV_NUM_CAP <= a <= DIV_NUM_CAP,
    ensures
        r == fx_div_spec(a as int, b as int),
        -0x4000000000000000 <= r <= 0x4000000000000000,
{
    let n: i128 = (a as i128) * 65536;
    let bm: u128 = if b >= 0 {
        b as u128
    } else {
        (-(b as i128)) as u128
    };
    let nm: u128 = if n >= 0 {
        n as u128
    } else {
        (-n) as u128
    };
    proof {
        vstd::arithmetic::div_mod::lemma_div_nonincreasing(nm as int, bm as int);
    }
    let q: u128 = nm / bm;
    let qi: i64 = q as i64;
    if (n >= 0) == (b >= 0) {
        qi
    } else {
        -qi
    }
}

/// Integer square root by bisection.
fn isqrt(x: u128) -> (r: u64)
    requires
        x < 0x40000000000000000000000000000000,
    ensures
        is_int_sqrt(r as int, x as int),
{
    let mut lo: u128 = 0;
    let mut hi: u128 = 0x8000000000000000;
    proof {
        assert((0x8000000000000000 as int) * (0x8000000000000000 as int)
            == 0x40000000000000000000000000000000) by (nonlinear_arith);
    }
    while lo + 1 < hi
        invariant
            lo < hi <= 0x8000000000000000,
            (lo as int) * (lo as int) <= x as int,
            (x as int) < (hi as int) * (hi as int),
        decreases hi - lo,
    {
        let mid: u128 = lo + (hi - lo) / 2;
        proof {
            assert((mid as int) * (mid as int) < 0x100000000000000000000000000000000) by (nonlinear_arith)
                requires
                    mid < 0x10000000000000000;
        }
        if mid * mid <= x {
            lo = mid;
        } else {
            hi = mid;
        }
    }
    lo as u64
}

/// Fixed-point square root of a nonnegative fixed-point value.
pub fn fx_sqrt(x: i64) -> (r: i64)
    requires
        0 <= x,
    ensures
        r == fx_sqrt_spec(x as int),
        0 <= r,
        r * r <= x * SCALE,
{
    let w: u128 = (x as u128) * 65536;
    let r = isqrt(w);
    proof {
        lemma_sqrt_val(r as int, w as int);
        assert(r as int <= 0x10000000000) by (nonlinear_arith)
            requires
                (r as int) * (r as int) <= w as int,
                w as int <= 0x100000000000000000000,
                0 <= r as int;
    }
    r as i64
}

/// Clamp `x` into `[min, max]`; the bound checked first wins when the
/// interval is empty.
pub fn clamp(x: i64, min: i64, max: i64) -> (r: i64)
    ensures
        r == clamp_spec(x as int, min as int, max as int),
{
    if x > max {
        return max;
    } else if x < min {
        return min;
    }
    x
}

/// What `clamp` returns.
pub open spec fn clamp_spec(x: int, min: int, max: int) -> int {
    if x > max {
        max
    } else if x < min {
        min
    } else {
        x
    }
}

} // verus!
