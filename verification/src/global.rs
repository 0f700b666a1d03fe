//! Constants and small numeric helpers shared by the whole renderer.
use crate::fixed::{
    fx_add, fx_div, fx_max, fx_min, fx_neg, fx_sub, integer_sqrt, isqrt, lemma_isqrt_exists,
    saturate, trunc_div, Fixed, RAW_MAX, SCALE,
};
use crate::vector::{mul_raw, wide_mul};
use vstd::prelude::*;

verus! {

/// Raw value of the circle constant.
pub const PI_RAW: i64 = 13493037705;

/// Raw value of the tolerance below which lengths count as zero (about one
/// part in a hundred thousand).
pub const EPSILON_RAW: i64 = 42950;

/// Raw value that stands for an unbounded distance.
pub const INFINITY_RAW: i64 = 0x7fff_ffff_ffff_ffff;

/// The circle constant.
pub fn pi() -> (r: Fixed)
    ensures
        r@ == PI_RAW,
{
    Fixed { raw: PI_RAW }
}

/// The tolerance below which lengths count as zero.
pub fn epsilon() -> (r: Fixed)
    ensures
        r@ == EPSILON_RAW,
{
    Fixed { raw: EPSILON_RAW }
}

/// `v` limited to the interval from `low` to `hi`: the larger of `low` and
/// the smaller of `hi` and `v`.
pub open spec fn clamp_spec(low: int, hi: int, v: int) -> int {
    fx_max(low, fx_min(hi, v))
}

/// `v` limited to the interval from `low` to `hi`.
pub fn clamp(low: Fixed, hi: Fixed, v: Fixed) -> (r: Fixed)
    ensures
        r@ == clamp_spec(low@, hi@, v@),
{
    low.max(hi.min(v))
}

/// Discriminant `b^2 - 4ac`, from exact products.
pub open spec fn discriminant(a: int, b: int, c: int) -> int {
    mul_raw(b, b) - 4 * mul_raw(a, c)
}

/// Square root of a discriminant that is not negative.
pub open spec fn discriminant_root(d: int) -> int {
    saturate(isqrt(d * SCALE))
}

/// The two real roots of `a x^2 + b x + c`, the smaller first; `None` if the
/// discriminant is negative. With a zero discriminant both roots are
/// `-b / 2a`. Otherwise, with `q = -(b + sgn(b) sqrt(d)) / 2`, the roots are
/// `q / a` and `c / q`.
pub open spec fn quadratic_roots(a: int, b: int, c: int) -> Option<(int, int)> {
    let d = discriminant(a, b, c);
    if d == 0 {
        let x = fx_div(fx_neg(trunc_div(b, 2)), a);
        Some((x, x))
    } else if d < 0 {
        None
    } else {
        let root = discriminant_root(d);
        let q = if b > 0 {
            fx_neg(trunc_div(fx_add(b, root), 2))
        } else {
            fx_neg(trunc_div(fx_sub(b, root), 2))
        };
        let x0 = fx_div(q, a);
        let x1 = fx_div(c, q);
        if x0 > x1 {
            Some((x1, x0))
        } else {
            Some((x0, x1))
        }
    }
}

/// View of an optional pair of numbers.
pub open spec fn pair_view(p: Option<(Fixed, Fixed)>) -> Option<(int, int)> {
    match p {
        Some((x0, x1)) => Some((x0@, x1@)),
        None => None,
    }
}

/// Solves `a x^2 + b x + c = 0` over the reals.
pub fn solve_quadratic(a: Fixed, b: Fixed, c: Fixed) -> (r: Option<(Fixed, Fixed)>)
    ensures
        pair_view(r) == quadratic_roots(a@, b@, c@),
{
    let d: i128 = wide_mul(b, b) - 4 * wide_mul(a, c);
    if d == 0 {
        let x: Fixed = b.half().saturating_neg().saturating_div(a);
        Some((x, x))
    } else if d < 0 {
        None
    } else {
        let root: Fixed = wide_sqrt(d);
        let q: Fixed = if b.raw > 0 {
            b.saturating_add(root).half().saturating_neg()
        } else {
            b.saturating_sub(root).half().saturating_neg()
        };
        let x0: Fixed = q.saturating_div(a);
        let x1: Fixed = c.saturating_div(q);
        if x0.raw > x1.raw {
            Some((x1, x0))
        } else {
            Some((x0, x1))
        }
    }
}

/// Square root of a wide positive number.
fn wide_sqrt(d: i128) -> (r: Fixed)
    requires
        0 < d,
    ensures
        r@ == discriminant_root(d as int),
{
    if d >= 0x4000_0000_0000_0000_0000_0000 {
        proof {
            let n = d * SCALE;
            assert(n >= 0x4000_0000_0000_0000_0000_0000 * 0x1_0000_0000) by (nonlinear_arith)
                requires
                    n == d * SCALE,
                    d >= 0x4000_0000_0000_0000_0000_0000,
                    SCALE == 0x1_0000_0000,
            ;
            lemma_isqrt_exists(n);
            let root = isqrt(n);
            assert(root + 1 > 0x8000_0000_0000_0000) by (nonlinear_arith)
                requires
                    0 <= root,
                    (root + 1) * (root + 1) > 0x4000_0000_0000_0000_0000_0000 * 0x1_0000_0000,
            ;
        }
        Fixed { raw: RAW_MAX }
    } else {
        assert(d * SCALE < 0x4000_0000_0000_0000_0000_0000 * 0x1_0000_0000) by (nonlinear_arith)
            requires
                0 < d < 0x4000_0000_0000_0000_0000_0000,
                SCALE == 0x1_0000_0000,
        ;
        let n: u128 = (d as u128) * (SCALE as u128);
        let root: u64 = integer_sqrt(n);
        assert(root < 0x8000_0000_0000_0000) by (nonlinear_arith)
            requires
                0 <= root,
                root * root <= n,
                n < 0x4000_0000_0000_0000_0000_0000 * 0x1_0000_0000,
        ;
        Fixed { raw: root as i64 }
    }
}

/// Thirty-two random bits from the generator of the current thread, by
/// `rand::random`. Nothing is promised of the value.
#[verifier::external_body]
fn random_bits() -> (bits: u32) {
    rand::random::<u32>()
}

/// A random number, uniform on the interval from zero to one, one excluded.
pub fn get_random_float() -> (r: Fixed)
    ensures
        0 <= r@ < SCALE,
{
    let bits: u32 = random_bits();
    unit_from_bits(bits)
}

/// The number of the interval from zero to one that thirty-two bits stand
/// for: `bits / 2^32`.
pub fn unit_from_bits(bits: u32) -> (r: Fixed)
    ensures
        r@ == bits,
        0 <= r@ < SCALE,
{
    Fixed { raw: bits as i64 }
}

} // verus!
