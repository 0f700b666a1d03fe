//! Sine and cosine of an angle given as a fraction of a full turn.
//!
//! The turn is cut into quadrants and each quadrant folded at its middle, so
//! that the polynomials are evaluated on `[0, pi/4]` only, where five terms
//! of the power series are accurate to a few parts in a hundred million.
use crate::fixed::{fx_max, fx_min, fx_mul, fx_sub, trunc_div, Fixed, SCALE};
use vstd::prelude::*;

verus! {

/// Raw value of a quarter turn, `pi / 2`.
pub const HALF_PI_RAW: i64 = 6746518852;

/// Raw value of a quarter of a full turn.
pub const QUARTER_TURN: i64 = 0x4000_0000;

/// One step of Horner's rule: `1 - x2 * inner / k`.
pub open spec fn horner_step(x2: int, inner: int, k: int) -> int {
    fx_sub(SCALE as int, trunc_div(fx_mul(x2, inner), k))
}

/// Sine by its power series up to the ninth power.
pub open spec fn sin_poly(x: int) -> int {
    let x2 = fx_mul(x, x);
    fx_mul(
        x,
        horner_step(
            x2,
            horner_step(x2, horner_step(x2, horner_step(x2, SCALE as int, 72), 42), 20),
            6,
        ),
    )
}

/// Cosine by its power series up to the eighth power.
pub open spec fn cos_poly(x: int) -> int {
    let x2 = fx_mul(x, x);
    horner_step(x2, horner_step(x2, horner_step(x2, horner_step(x2, SCALE as int, 56), 30), 12), 2)
}

/// Clamps to the interval from minus one to one.
pub open spec fn unit_clamp(x: int) -> int {
    fx_max(-(SCALE as int), fx_min(SCALE as int, x))
}

/// Angle in radians that the position `r` within a quadrant stands for,
/// where `QUARTER_TURN` is the whole quadrant.
pub open spec fn quadrant_angle(r: int) -> int {
    trunc_div(HALF_PI_RAW * r, QUARTER_TURN as int)
}

/// Sine and cosine of the position `r` within the first quadrant.
#[verifier::opaque]
pub open spec fn first_quadrant(r: int) -> (int, int) {
    if r <= QUARTER_TURN / 2 {
        (unit_clamp(sin_poly(quadrant_angle(r))), unit_clamp(cos_poly(quadrant_angle(r))))
    } else {
        (
            unit_clamp(cos_poly(quadrant_angle(QUARTER_TURN - r))),
            unit_clamp(sin_poly(quadrant_angle(QUARTER_TURN - r))),
        )
    }
}

/// Sine and cosine of `turns` full turns; only the fractional part of
/// `turns` counts.
pub open spec fn sin_cos_of_turns(turns: int) -> (int, int) {
    let f = turns % (SCALE as int);
    let q = f / (QUARTER_TURN as int);
    let (s, c) = first_quadrant(f % (QUARTER_TURN as int));
    if q == 0 {
        (s, c)
    } else if q == 1 {
        (c, -s)
    } else if q == 2 {
        (-s, -c)
    } else {
        (-c, s)
    }
}

/// One step of Horner's rule.
fn horner(x2: Fixed, inner: Fixed, k: i64) -> (r: Fixed)
    requires
        k > 0,
    ensures
        r@ == horner_step(x2@, inner@, k as int),
{
    let term: Fixed = x2.saturating_mul(inner);
    Fixed::one().saturating_sub(Fixed { raw: term.raw / k })
}

/// Sine by its power series.
fn sine_series(x: Fixed) -> (r: Fixed)
    ensures
        r@ == sin_poly(x@),
{
    let x2: Fixed = x.saturating_mul(x);
    let inner: Fixed = horner(x2, horner(x2, horner(x2, horner(x2, Fixed::one(), 72), 42), 20), 6);
    x.saturating_mul(inner)
}

/// Cosine by its power series.
fn cosine_series(x: Fixed) -> (r: Fixed)
    ensures
        r@ == cos_poly(x@),
{
    let x2: Fixed = x.saturating_mul(x);
    horner(x2, horner(x2, horner(x2, horner(x2, Fixed::one(), 56), 30), 12), 2)
}

/// Limits to the interval from minus one to one.
fn clamp_unit(x: Fixed) -> (r: Fixed)
    ensures
        r@ == unit_clamp(x@),
        -SCALE <= r@ <= SCALE,
{
    Fixed { raw: -SCALE }.max(Fixed::one().min(x))
}

/// Angle in radians of a position within a quadrant.
fn angle_in_quadrant(r: i64) -> (a: Fixed)
    requires
        0 <= r <= QUARTER_TURN,
    ensures
        a@ == quadrant_angle(r as int),
{
    assert(0 <= HALF_PI_RAW * r <= HALF_PI_RAW * QUARTER_TURN) by (nonlinear_arith)
        requires
            0 <= r <= QUARTER_TURN,
            HALF_PI_RAW == 6746518852,
    ;
    let wide: i128 = (HALF_PI_RAW as i128) * (r as i128);
    let q: i128 = wide / (QUARTER_TURN as i128);
    Fixed { raw: q as i64 }
}

/// Sine and cosine of the position `r` within the first quadrant.
fn quadrant_values(r: i64) -> (v: (Fixed, Fixed))
    requires
        0 <= r < QUARTER_TURN,
    ensures
        (v.0@, v.1@) == first_quadrant(r as int),
        -SCALE <= v.0@ <= SCALE,
        -SCALE <= v.1@ <= SCALE,
{
    reveal(first_quadrant);
    if r <= QUARTER_TURN / 2 {
        let a: Fixed = angle_in_quadrant(r);
        (clamp_unit(sine_series(a)), clamp_unit(cosine_series(a)))
    } else {
        let a: Fixed = angle_in_quadrant(QUARTER_TURN - r);
        (clamp_unit(cosine_series(a)), clamp_unit(sine_series(a)))
    }
}

/// Sine and cosine of the angle `turns * 2 pi`. Only the fractional part of
/// `turns` counts; both results lie between minus one and one.
pub fn sin_cos_turns(turns: Fixed) -> (r: (Fixed, Fixed))
    ensures
        (r.0@, r.1@) == sin_cos_of_turns(turns@),
        -SCALE <= r.0@ <= SCALE,
        -SCALE <= r.1@ <= SCALE,
{
    let m: i64 = turns.raw % SCALE;
    let f: i64 = if m < 0 {
        m + SCALE
    } else {
        m
    };
    let q: i64 = f / QUARTER_TURN;
    let (s, c): (Fixed, Fixed) = quadrant_values(f % QUARTER_TURN);
    if q == 0 {
        (s, c)
    } else if q == 1 {
        (c, Fixed { raw: -s.raw })
    } else if q == 2 {
        (Fixed { raw: -s.raw }, Fixed { raw: -c.raw })
    } else {
        (Fixed { raw: -c.raw }, s)
    }
}

} // verus!
