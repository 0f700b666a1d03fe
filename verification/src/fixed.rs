//! Signed fixed-point numbers with 32 fractional bits.
//!
//! Every scalar of the renderer (coordinates, distances, areas, radiance,
//! densities) is a [`Fixed`]. All arithmetic saturates at the ends of the
//! 64-bit range instead of wrapping, and products and quotients round toward
//! zero, so each operation is a total function with a closed-form meaning.
use vstd::prelude::*;

verus! {

/// Raw value that stands for the number one.
pub const SCALE: i64 = 0x1_0000_0000;

/// Largest raw value.
pub const RAW_MAX: i64 = 0x7fff_ffff_ffff_ffff;

/// Smallest raw value.
pub const RAW_MIN: i64 = -0x8000_0000_0000_0000;

/// Clamps an integer to the raw range.
pub open spec fn saturate(x: int) -> int {
    if x < RAW_MIN as int {
        RAW_MIN as int
    } else if x > RAW_MAX as int {
        RAW_MAX as int
    } else {
        x
    }
}

/// Quotient of `n` by `d`, rounded toward zero.
pub open spec fn trunc_div(n: int, d: int) -> int
    recommends
        d != 0,
{
    if d > 0 {
        if n >= 0 {
            n / d
        } else {
            -((-n) / d)
        }
    } else {
        if n >= 0 {
            -(n / (-d))
        } else {
            (-n) / (-d)
        }
    }
}

/// Sum, saturated.
pub open spec fn fx_add(a: int, b: int) -> int {
    saturate(a + b)
}

/// Difference, saturated.
pub open spec fn fx_sub(a: int, b: int) -> int {
    saturate(a - b)
}

/// Negation; that of the smallest number is the largest.
pub open spec fn fx_neg(a: int) -> int {
    saturate(-a)
}

/// Absolute value; that of the smallest number is the largest.
pub open spec fn fx_abs(a: int) -> int {
    saturate(if a < 0 { -a } else { a })
}

/// Product, rounded toward zero and saturated.
pub open spec fn fx_mul(a: int, b: int) -> int {
    saturate(trunc_div(a * b, SCALE as int))
}

/// Division; a zero divisor gives the end of the range on the side of the
/// dividend's sign, and zero for a zero dividend.
pub open spec fn fx_div(a: int, b: int) -> int {
    if b == 0 {
        if a > 0 {
            RAW_MAX as int
        } else if a < 0 {
            RAW_MIN as int
        } else {
            0
        }
    } else {
        saturate(trunc_div(a * SCALE, b))
    }
}

/// The smaller of two numbers.
pub open spec fn fx_min(a: int, b: int) -> int {
    if a <= b {
        a
    } else {
        b
    }
}

/// The larger of two numbers.
pub open spec fn fx_max(a: int, b: int) -> int {
    if a >= b {
        a
    } else {
        b
    }
}

/// `r` is the integer square root of `n`: the largest integer whose square
/// does not exceed `n`.
pub open spec fn is_isqrt(n: int, r: int) -> bool {
    0 <= r && r * r <= n < (r + 1) * (r + 1)
}

/// Integer square root of a non-negative integer.
pub open spec fn isqrt(n: int) -> int {
    choose|r: int| is_isqrt(n, r)
}

/// Square root; zero for arguments that are not positive.
pub open spec fn fx_sqrt(a: int) -> int {
    if a <= 0 {
        0
    } else {
        isqrt(a * SCALE)
    }
}

/// At most one integer is the integer square root of `n`.
pub proof fn lemma_isqrt_unique(n: int, r1: int, r2: int)
    requires
        is_isqrt(n, r1),
        is_isqrt(n, r2),
    ensures
        r1 == r2,
{
    if r1 < r2 {
        assert((r1 + 1) * (r1 + 1) <= r2 * r2) by (nonlinear_arith)
            requires
                0 <= r1,
                r1 + 1 <= r2,
        ;
    } else if r2 < r1 {
        assert((r2 + 1) * (r2 + 1) <= r1 * r1) by (nonlinear_arith)
            requires
                0 <= r2,
                r2 + 1 <= r1,
        ;
    }
}

/// An integer with the defining property is the integer square root.
pub proof fn lemma_isqrt_is(n: int, r: int)
    requires
        is_isqrt(n, r),
    ensures
        isqrt(n) == r,
{
    lemma_isqrt_unique(n, r, isqrt(n));
}

/// Every non-negative integer has an integer square root.
pub proof fn lemma_isqrt_exists(n: int)
    requires
        n >= 0,
    ensures
        is_isqrt(n, isqrt(n)),
    decreases n,
{
    if n == 0 {
        assert(is_isqrt(0, 0));
    } else {
        lemma_isqrt_exists(n - 1);
        let r = isqrt(n - 1);
        if (r + 1) * (r + 1) <= n {
            assert((r + 2) * (r + 2) > n) by (nonlinear_arith)
                requires
                    0 <= r,
                    (r + 1) * (r + 1) <= n,
                    n - 1 < (r + 1) * (r + 1),
            ;
            assert(is_isqrt(n, r + 1));
        } else {
            assert(is_isqrt(n, r));
        }
    }
}

/// A fixed-point number: `raw / 2^32`.
#[derive(Clone, Copy, Debug, PartialEq, Eq, Structural)]
pub struct Fixed {
    pub raw: i64,
}

impl View for Fixed {
    type V = int;

    open spec fn view(&self) -> int {
        self.raw as int
    }
}

/// Clamps a wide integer to the raw range.
fn saturate_wide(x: i128) -> (r: i64)
    ensures
        r == saturate(x as int),
{
    if x < RAW_MIN as i128 {
        RAW_MIN
    } else if x > RAW_MAX as i128 {
        RAW_MAX
    } else {
        x as i64
    }
}

/// Floor of the square root of `n`, by bisection.
pub fn integer_sqrt(n: u128) -> (r: u64)
    ensures
        is_isqrt(n as int, r as int),
        r as int == isqrt(n as int),
{
    let mut lo: u128 = 0;
    let mut hi: u128 = 0x1_0000_0000_0000_0000;
    assert(hi * hi > n) by (nonlinear_arith)
        requires
            hi == 0x1_0000_0000_0000_0000,
            n <= 0xffff_ffff_ffff_ffff_ffff_ffff_ffff_ffff,
    ;
    while hi - lo > 1
        invariant
            lo < hi <= 0x1_0000_0000_0000_0000,
            lo * lo <= n < hi * hi,
        decreases hi - lo,
    {
        let mid: u128 = lo + (hi - lo) / 2;
        assert(mid * mid <= 0xffff_ffff_ffff_ffff * 0xffff_ffff_ffff_ffff) by (nonlinear_arith)
            requires
                0 <= mid <= 0xffff_ffff_ffff_ffff,
        ;
        let sq: u128 = mid * mid;
        if sq <= n {
            lo = mid;
        } else {
            hi = mid;
        }
    }
    proof {
        lemma_isqrt_is(n as int, lo as int);
    }
    lo as u64
}

impl Fixed {
    /// The number zero.
    pub fn zero() -> (r: Fixed)
        ensures
            r@ == 0,
    {
        Fixed { raw: 0 }
    }

    /// The number one.
    pub fn one() -> (r: Fixed)
        ensures
            r@ == SCALE,
    {
        Fixed { raw: SCALE }
    }

    /// The largest number.
    pub fn max_value() -> (r: Fixed)
        ensures
            r@ == RAW_MAX,
    {
        Fixed { raw: RAW_MAX }
    }

    /// The smallest number.
    pub fn min_value() -> (r: Fixed)
        ensures
            r@ == RAW_MIN,
    {
        Fixed { raw: RAW_MIN }
    }

    /// The number with the given raw value.
    pub fn from_raw(raw: i64) -> (r: Fixed)
        ensures
            r@ == raw,
    {
        Fixed { raw }
    }

    /// The whole number `n`.
    pub fn from_int(n: i32) -> (r: Fixed)
        ensures
            r@ == n * SCALE,
    {
        let wide: i64 = n as i64;
        assert(RAW_MIN <= wide * SCALE <= RAW_MAX) by (nonlinear_arith)
            requires
                -0x8000_0000 <= wide <= 0x7fff_ffff,
        ;
        Fixed { raw: wide * SCALE }
    }

    /// The quotient `num / den` of two whole numbers.
    pub fn from_ratio(num: i32, den: i32) -> (r: Fixed)
        ensures
            r@ == fx_div(num * SCALE, den * SCALE),
    {
        Fixed::from_int(num).saturating_div(Fixed::from_int(den))
    }

    /// Sum; beyond the range, the end of the range.
    pub fn saturating_add(self, rhs: Fixed) -> (r: Fixed)
        ensures
            r@ == fx_add(self@, rhs@),
    {
        Fixed { raw: saturate_wide(self.raw as i128 + rhs.raw as i128) }
    }

    /// Difference; beyond the range, the end of the range.
    pub fn saturating_sub(self, rhs: Fixed) -> (r: Fixed)
        ensures
            r@ == fx_sub(self@, rhs@),
    {
        Fixed { raw: saturate_wide(self.raw as i128 - rhs.raw as i128) }
    }

    /// Negation; that of the smallest number is the largest.
    pub fn saturating_neg(self) -> (r: Fixed)
        ensures
            r@ == fx_neg(self@),
    {
        Fixed { raw: saturate_wide(-(self.raw as i128)) }
    }

    /// Absolute value; that of the smallest number is the largest.
    pub fn saturating_abs(self) -> (r: Fixed)
        ensures
            r@ == fx_abs(self@),
    {
        if self.raw < 0 {
            Fixed { raw: saturate_wide(-(self.raw as i128)) }
        } else {
            self
        }
    }

    /// Product, rounded toward zero; beyond the range, the end of the range.
    pub fn saturating_mul(self, rhs: Fixed) -> (r: Fixed)
        ensures
            r@ == fx_mul(self@, rhs@),
    {
        let a: i128 = self.raw as i128;
        let b: i128 = rhs.raw as i128;
        assert(-0x4000_0000_0000_0000_0000_0000_0000_0000 <= a * b
            <= 0x4000_0000_0000_0000_0000_0000_0000_0000) by (nonlinear_arith)
            requires
                -0x8000_0000_0000_0000 <= a <= 0x7fff_ffff_ffff_ffff,
                -0x8000_0000_0000_0000 <= b <= 0x7fff_ffff_ffff_ffff,
        ;
        let product: i128 = a * b;
        Fixed { raw: saturate_wide(product / (SCALE as i128)) }
    }

    /// Quotient, rounded toward zero; beyond the range, and for a zero divisor,
    /// the end of the range on the side of the quotient's sign. Zero by zero is zero.
    pub fn saturating_div(self, rhs: Fixed) -> (r: Fixed)
        ensures
            r@ == fx_div(self@, rhs@),
    {
        if rhs.raw == 0 {
            if self.raw > 0 {
                Fixed::max_value()
            } else if self.raw < 0 {
                Fixed::min_value()
            } else {
                Fixed::zero()
            }
        } else {
            let a: i128 = self.raw as i128;
            let b: i128 = rhs.raw as i128;
            assert(-0x8000_0000_0000_0000_0000_0000 <= a * SCALE <= 0x8000_0000_0000_0000_0000_0000)
                by (nonlinear_arith)
                requires
                    -0x8000_0000_0000_0000 <= a <= 0x7fff_ffff_ffff_ffff,
                    SCALE == 0x1_0000_0000,
            ;
            let n: i128 = a * (SCALE as i128);
            if b > 0 {
                Fixed { raw: saturate_wide(n / b) }
            } else {
                let d: i128 = -b;
                let q: i128 = n / d;
                Fixed { raw: saturate_wide(-q) }
            }
        }
    }

    /// Square root; zero for arguments that are not positive.
    pub fn sqrt(self) -> (r: Fixed)
        ensures
            r@ == fx_sqrt(self@),
    {
        if self.raw <= 0 {
            Fixed::zero()
        } else {
            let n: u128 = (self.raw as u128) * (SCALE as u128);
            let root: u64 = integer_sqrt(n);
            assert(root < 0x8000_0000_0000_0000) by (nonlinear_arith)
                requires
                    root * root <= n,
                    n < 0x8000_0000_0000_0000 * 0x1_0000_0000,
                    root >= 0,
            ;
            Fixed { raw: root as i64 }
        }
    }

    /// The smaller of the two numbers.
    pub fn min(self, rhs: Fixed) -> (r: Fixed)
        ensures
            r@ == fx_min(self@, rhs@),
    {
        if self.raw <= rhs.raw {
            self
        } else {
            rhs
        }
    }

    /// The larger of the two numbers.
    pub fn max(self, rhs: Fixed) -> (r: Fixed)
        ensures
            r@ == fx_max(self@, rhs@),
    {
        if self.raw >= rhs.raw {
            self
        } else {
            rhs
        }
    }

    /// Half of the number, rounded toward zero.
    pub fn half(self) -> (r: Fixed)
        ensures
            r@ == trunc_div(self@, 2),
    {
        Fixed { raw: self.raw / 2 }
    }
}

} // verus!
