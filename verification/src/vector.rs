//! Three-component vectors of fixed-point numbers.
use crate::fixed::{
    fx_add, fx_div, fx_max, fx_min, fx_mul, fx_neg, fx_sub, integer_sqrt, isqrt, saturate,
    trunc_div, Fixed, RAW_MAX, RAW_MIN, SCALE,
};
use vstd::prelude::*;

verus! {

/// Mathematical model of a vector: the raw values of its components.
pub struct V3 {
    pub x: int,
    pub y: int,
    pub z: int,
}

/// Product of two raw values before saturation.
pub open spec fn mul_raw(a: int, b: int) -> int {
    trunc_div(a * b, SCALE as int)
}

/// Sum by component.
pub open spec fn v3_add(a: V3, b: V3) -> V3 {
    V3 { x: fx_add(a.x, b.x), y: fx_add(a.y, b.y), z: fx_add(a.z, b.z) }
}

/// Difference by component.
pub open spec fn v3_sub(a: V3, b: V3) -> V3 {
    V3 { x: fx_sub(a.x, b.x), y: fx_sub(a.y, b.y), z: fx_sub(a.z, b.z) }
}

/// Negation by component.
pub open spec fn v3_neg(a: V3) -> V3 {
    V3 { x: fx_neg(a.x), y: fx_neg(a.y), z: fx_neg(a.z) }
}

/// The vector times a scalar.
pub open spec fn v3_scale(a: V3, s: int) -> V3 {
    V3 { x: fx_mul(a.x, s), y: fx_mul(a.y, s), z: fx_mul(a.z, s) }
}

/// The vector divided by a scalar.
pub open spec fn v3_div(a: V3, s: int) -> V3 {
    V3 { x: fx_div(a.x, s), y: fx_div(a.y, s), z: fx_div(a.z, s) }
}

/// Component-wise product.
pub open spec fn v3_hadamard(a: V3, b: V3) -> V3 {
    V3 { x: fx_mul(a.x, b.x), y: fx_mul(a.y, b.y), z: fx_mul(a.z, b.z) }
}

/// Dot product: the three products are summed exactly and the sum saturates.
pub open spec fn v3_dot(a: V3, b: V3) -> int {
    saturate(mul_raw(a.x, b.x) + mul_raw(a.y, b.y) + mul_raw(a.z, b.z))
}

/// Cross product: each component is the exact difference of two products,
/// saturated.
pub open spec fn v3_cross(a: V3, b: V3) -> V3 {
    V3 {
        x: saturate(mul_raw(a.y, b.z) - mul_raw(a.z, b.y)),
        y: saturate(mul_raw(a.z, b.x) - mul_raw(a.x, b.z)),
        z: saturate(mul_raw(a.x, b.y) - mul_raw(a.y, b.x)),
    }
}

/// Euclidean length: the integer square root of the exact sum of squares.
pub open spec fn v3_norm(a: V3) -> int {
    saturate(isqrt(a.x * a.x + a.y * a.y + a.z * a.z))
}

/// Squared Euclidean length.
pub open spec fn v3_norm_squared(a: V3) -> int {
    v3_dot(a, a)
}

/// The vector divided by its length; the zero vector stays zero.
pub open spec fn v3_normalize(a: V3) -> V3 {
    v3_div(a, v3_norm(a))
}

/// Minimum by component.
pub open spec fn v3_min(a: V3, b: V3) -> V3 {
    V3 { x: fx_min(a.x, b.x), y: fx_min(a.y, b.y), z: fx_min(a.z, b.z) }
}

/// Maximum by component.
pub open spec fn v3_max(a: V3, b: V3) -> V3 {
    V3 { x: fx_max(a.x, b.x), y: fx_max(a.y, b.y), z: fx_max(a.z, b.z) }
}

/// Component of `a` on axis 0, 1 or 2; `z` for any other axis.
pub open spec fn v3_axis(a: V3, axis: int) -> int {
    if axis == 0 {
        a.x
    } else if axis == 1 {
        a.y
    } else {
        a.z
    }
}

/// Every component is zero or more.
pub open spec fn v3_nonnegative(a: V3) -> bool {
    a.x >= 0 && a.y >= 0 && a.z >= 0
}

/// The zero vector.
pub open spec fn v3_zero() -> V3 {
    V3 { x: 0, y: 0, z: 0 }
}

/// A vector of three fixed-point numbers.
#[derive(Clone, Copy, Debug, PartialEq, Eq, Structural)]
pub struct Vector3 {
    pub x: Fixed,
    pub y: Fixed,
    pub z: Fixed,
}

impl View for Vector3 {
    type V = V3;

    open spec fn view(&self) -> V3 {
        V3 { x: self.x@, y: self.y@, z: self.z@ }
    }
}

/// Product of two numbers before saturation.
pub(crate) fn wide_mul(a: Fixed, b: Fixed) -> (r: i128)
    ensures
        r == mul_raw(a@, b@),
        -0x4000_0000_0000_0000_0000_0000 <= r <= 0x4000_0000_0000_0000_0000_0000,
{
    let x: i128 = a.raw as i128;
    let y: i128 = b.raw as i128;
    assert(-0x4000_0000_0000_0000_0000_0000_0000_0000 <= x * y
        <= 0x4000_0000_0000_0000_0000_0000_0000_0000) by (nonlinear_arith)
        requires
            -0x8000_0000_0000_0000 <= x <= 0x7fff_ffff_ffff_ffff,
            -0x8000_0000_0000_0000 <= y <= 0x7fff_ffff_ffff_ffff,
    ;
    let product: i128 = x * y;
    product / (SCALE as i128)
}

/// Clamps a wide integer to the raw range.
pub(crate) fn narrow(x: i128) -> (r: Fixed)
    ensures
        r@ == saturate(x as int),
{
    if x < RAW_MIN as i128 {
        Fixed { raw: RAW_MIN }
    } else if x > RAW_MAX as i128 {
        Fixed { raw: RAW_MAX }
    } else {
        Fixed { raw: x as i64 }
    }
}

/// Square of a raw value.
fn square(a: Fixed) -> (r: u128)
    ensures
        r == a@ * a@,
        r <= 0x4000_0000_0000_0000_0000_0000_0000_0000,
{
    let m: u128 = if a.raw < 0 {
        (-(a.raw as i128)) as u128
    } else {
        a.raw as u128
    };
    assert(m * m <= 0x4000_0000_0000_0000_0000_0000_0000_0000 && m * m == a@ * a@)
        by (nonlinear_arith)
        requires
            0 <= m <= 0x8000_0000_0000_0000,
            m == a@ || m == -a@,
    ;
    m * m
}

impl Vector3 {
    /// The vector with the given components.
    pub fn new(x: Fixed, y: Fixed, z: Fixed) -> (r: Vector3)
        ensures
            r == (Vector3 { x, y, z }),
    {
        Vector3 { x, y, z }
    }

    /// The vector whose three components are `value`.
    pub fn from_element(value: Fixed) -> (r: Vector3)
        ensures
            r == (Vector3 { x: value, y: value, z: value }),
    {
        Vector3 { x: value, y: value, z: value }
    }

    /// The zero vector.
    pub fn zero() -> (r: Vector3)
        ensures
            r@ == v3_zero(),
    {
        Vector3 { x: Fixed::zero(), y: Fixed::zero(), z: Fixed::zero() }
    }

    /// The vector with the given whole-number components.
    pub fn from_ints(x: i32, y: i32, z: i32) -> (r: Vector3)
        ensures
            r@ == (V3 { x: x * SCALE, y: y * SCALE, z: z * SCALE }),
    {
        Vector3 { x: Fixed::from_int(x), y: Fixed::from_int(y), z: Fixed::from_int(z) }
    }

    /// Component on axis 0, 1 or 2; `z` for any other axis.
    pub fn axis(&self, axis: usize) -> (r: Fixed)
        ensures
            r@ == v3_axis(self@, axis as int),
    {
        if axis == 0 {
            self.x
        } else if axis == 1 {
            self.y
        } else {
            self.z
        }
    }

    /// Sum by component.
    pub fn saturating_add(self, rhs: Vector3) -> (r: Vector3)
        ensures
            r@ == v3_add(self@, rhs@),
    {
        Vector3 {
            x: self.x.saturating_add(rhs.x),
            y: self.y.saturating_add(rhs.y),
            z: self.z.saturating_add(rhs.z),
        }
    }

    /// Difference by component.
    pub fn saturating_sub(self, rhs: Vector3) -> (r: Vector3)
        ensures
            r@ == v3_sub(self@, rhs@),
    {
        Vector3 {
            x: self.x.saturating_sub(rhs.x),
            y: self.y.saturating_sub(rhs.y),
            z: self.z.saturating_sub(rhs.z),
        }
    }

    /// Negation by component.
    pub fn saturating_neg(self) -> (r: Vector3)
        ensures
            r@ == v3_neg(self@),
    {
        Vector3 {
            x: self.x.saturating_neg(),
            y: self.y.saturating_neg(),
            z: self.z.saturating_neg(),
        }
    }

    /// The vector times the scalar `s`.
    pub fn scale(self, s: Fixed) -> (r: Vector3)
        ensures
            r@ == v3_scale(self@, s@),
    {
        Vector3 {
            x: self.x.saturating_mul(s),
            y: self.y.saturating_mul(s),
            z: self.z.saturating_mul(s),
        }
    }

    /// The vector divided by the scalar `s`.
    pub fn unscale(self, s: Fixed) -> (r: Vector3)
        ensures
            r@ == v3_div(self@, s@),
    {
        Vector3 {
            x: self.x.saturating_div(s),
            y: self.y.saturating_div(s),
            z: self.z.saturating_div(s),
        }
    }

    /// Component-wise product.
    pub fn component_mul(self, rhs: Vector3) -> (r: Vector3)
        ensures
            r@ == v3_hadamard(self@, rhs@),
    {
        Vector3 {
            x: self.x.saturating_mul(rhs.x),
            y: self.y.saturating_mul(rhs.y),
            z: self.z.saturating_mul(rhs.z),
        }
    }

    /// Dot product.
    pub fn dot(&self, rhs: &Vector3) -> (r: Fixed)
        ensures
            r@ == v3_dot(self@, rhs@),
    {
        let sum: i128 = wide_mul(self.x, rhs.x) + wide_mul(self.y, rhs.y) + wide_mul(
            self.z,
            rhs.z,
        );
        narrow(sum)
    }

    /// Cross product.
    pub fn cross(&self, rhs: &Vector3) -> (r: Vector3)
        ensures
            r@ == v3_cross(self@, rhs@),
    {
        Vector3 {
            x: narrow(wide_mul(self.y, rhs.z) - wide_mul(self.z, rhs.y)),
            y: narrow(wide_mul(self.z, rhs.x) - wide_mul(self.x, rhs.z)),
            z: narrow(wide_mul(self.x, rhs.y) - wide_mul(self.y, rhs.x)),
        }
    }

    /// Euclidean length.
    pub fn norm(&self) -> (r: Fixed)
        ensures
            r@ == v3_norm(self@),
            r@ >= 0,
    {
        let sum: u128 = square(self.x) + square(self.y) + square(self.z);
        let root: u64 = integer_sqrt(sum);
        if root > RAW_MAX as u64 {
            Fixed { raw: RAW_MAX }
        } else {
            Fixed { raw: root as i64 }
        }
    }

    /// Squared Euclidean length.
    pub fn norm_squared(&self) -> (r: Fixed)
        ensures
            r@ == v3_norm_squared(self@),
    {
        self.dot(self)
    }

    /// The vector divided by its length; the zero vector stays zero.
    pub fn normalize(&self) -> (r: Vector3)
        ensures
            r@ == v3_normalize(self@),
    {
        let length: Fixed = self.norm();
        self.unscale(length)
    }
}

/// Component-wise minimum of two vectors.
pub fn v3min(a: &Vector3, b: &Vector3) -> (r: Vector3)
    ensures
        r@ == v3_min(a@, b@),
{
    Vector3 { x: a.x.min(b.x), y: a.y.min(b.y), z: a.z.min(b.z) }
}

/// Component-wise maximum of two vectors.
pub fn v3max(a: &Vector3, b: &Vector3) -> (r: Vector3)
    ensures
        r@ == v3_max(a@, b@),
{
    Vector3 { x: a.x.max(b.x), y: a.y.max(b.y), z: a.z.max(b.z) }
}

} // verus!
