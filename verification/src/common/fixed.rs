//! Fixed-point numbers with 32 integer and 32 fractional bits, the
//! simulation's deterministic replacement for floating point.
//!
//! A value is kept as its raw bits: the number `bits / 2^32`. Addition,
//! subtraction and comparison act on the bits directly; multiplication,
//! division and square roots are computed by the `fixed` crate's `I32F32`.

use fixed::types::I32F32;
use vstd::prelude::*;

verus! {

/// `2^32`: the raw bits of the number one.
pub const ONE_BITS: i64 = 0x1_0000_0000;

/// Division rounding toward zero, as Rust's integer division does.
pub open spec fn trunc_div(x: int, y: int) -> int {
    let q = (if x < 0 { -x } else { x }) / (if y < 0 { -y } else { y });
    if (x < 0) != (y < 0) { -q } else { q }
}

/// `x` fits in an `i64`.
pub open spec fn fits_i64(x: int) -> bool {
    i64::MIN <= x <= i64::MAX
}

/// The raw bits of the product of the numbers with raw bits `a` and `b`:
/// the exact product, rounded toward negative infinity.
pub open spec fn mul_bits(a: int, b: int) -> int {
    (a * b) / (ONE_BITS as int)
}

/// The raw bits of the quotient of the numbers with raw bits `a` and `b`:
/// the exact quotient, rounded toward zero.
pub open spec fn div_bits(a: int, b: int) -> int {
    trunc_div(a * (ONE_BITS as int), b)
}

/// `r` is the raw bits of the square root of the number with raw bits `a`,
/// rounded down: `r / 2^32 <= sqrt(a / 2^32) < (r + 1) / 2^32`.
pub open spec fn is_sqrt_bits(a: int, r: int) -> bool {
    &&& 0 <= r
    &&& r * r <= a * (ONE_BITS as int)
    &&& a * (ONE_BITS as int) < (r + 1) * (r + 1)
}

/// The raw bits of the square root of the number with raw bits `a`, rounded
/// down (see [`is_sqrt_bits`]).
pub open spec fn sqrt_bits(a: int) -> int {
    choose|r: int| is_sqrt_bits(a, r)
}

/// The rounded-down square root is unique: any `r` meeting
/// [`is_sqrt_bits`] is [`sqrt_bits`].
pub proof fn lemma_sqrt_bits_unique(a: int, r: int)
    requires
        is_sqrt_bits(a, r),
    ensures
        sqrt_bits(a) == r,
{
    let s = sqrt_bits(a);
    assert(is_sqrt_bits(a, s));
    let x = a * (ONE_BITS as int);
    assert(s == r) by (nonlinear_arith)
        requires
            0 <= r,
            r * r <= x,
            x < (r + 1) * (r + 1),
            0 <= s,
            s * s <= x,
            x < (s + 1) * (s + 1),
    {
        if s < r {
            assert((s + 1) * (s + 1) <= r * r);
        } else if r < s {
            assert((r + 1) * (r + 1) <= s * s);
        }
    }
}

/// Multiplies two `I32F32` numbers given by their bits. Calls `Mul` of
/// `I32F32`; the contract claims the product rounded toward negative
/// infinity, on the inputs where it fits (the crate panics otherwise when
/// debug assertions are on).
#[verifier::external_body]
fn i32f32_mul(a: i64, b: i64) -> (r: i64)
    requires
        fits_i64(mul_bits(a as int, b as int)),
    ensures
        r == mul_bits(a as int, b as int),
{
    (I32F32::from_bits(a) * I32F32::from_bits(b)).to_bits()
}

/// Divides two `I32F32` numbers given by their bits. Calls `Div` of
/// `I32F32`; the contract claims the quotient rounded toward zero, on the
/// inputs where the divisor is not zero and the quotient fits (the crate
/// panics otherwise).
#[verifier::external_body]
fn i32f32_div(a: i64, b: i64) -> (r: i64)
    requires
        b != 0,
        fits_i64(div_bits(a as int, b as int)),
    ensures
        r == div_bits(a as int, b as int),
{
    (I32F32::from_bits(a) / I32F32::from_bits(b)).to_bits()
}

/// Divides an `I32F32` number, given by its bits, by an integer. Calls
/// `Div<i64>` of `I32F32`, which divides the bits; the contract claims the
/// bits' quotient rounded toward zero, on the inputs where it is defined.
#[verifier::external_body]
fn i32f32_div_int(a: i64, n: i64) -> (r: i64)
    requires
        n != 0,
        !(a == i64::MIN && n == -1),
    ensures
        r == trunc_div(a as int, n as int),
{
    (I32F32::from_bits(a) / n).to_bits()
}

/// The square root of a non-negative `I32F32` number, given by its bits.
/// Calls `I32F32::sqrt`, documented to round down with an error below the
/// smallest step; the crate panics on negative input.
#[verifier::external_body]
fn i32f32_sqrt(a: i64) -> (r: i64)
    requires
        a >= 0,
    ensures
        is_sqrt_bits(a as int, r as int),
{
    I32F32::from_bits(a).sqrt().to_bits()
}

/// A fixed-point number: `bits / 2^32`.
#[derive(Clone, Copy, Debug, Default, PartialEq, Eq, Structural, Hash)]
pub struct Fixed {
    pub bits: i64,
}

impl Fixed {
    pub fn from_bits(bits: i64) -> (f: Fixed)
        ensures
            f.bits == bits,
    {
        Fixed { bits }
    }

    pub fn to_bits(self) -> (bits: i64)
        ensures
            bits == self.bits,
    {
        self.bits
    }

    /// The number `n`.
    pub fn from_int(n: i32) -> (f: Fixed)
        ensures
            f.bits == n * ONE_BITS,
    {
        Fixed { bits: (n as i64) * ONE_BITS }
    }

    pub fn zero() -> (f: Fixed)
        ensures
            f.bits == 0,
    {
        Fixed { bits: 0 }
    }

    pub fn add(self, rhs: Fixed) -> (r: Fixed)
        requires
            fits_i64(self.bits + rhs.bits),
        ensures
            r.bits == self.bits + rhs.bits,
    {
        Fixed { bits: self.bits + rhs.bits }
    }

    pub fn sub(self, rhs: Fixed) -> (r: Fixed)
        requires
            fits_i64(self.bits - rhs.bits),
        ensures
            r.bits == self.bits - rhs.bits,
    {
        Fixed { bits: self.bits - rhs.bits }
    }

    pub fn mul(self, rhs: Fixed) -> (r: Fixed)
        requires
            fits_i64(mul_bits(self.bits as int, rhs.bits as int)),
        ensures
            r.bits == mul_bits(self.bits as int, rhs.bits as int),
    {
        Fixed { bits: i32f32_mul(self.bits, rhs.bits) }
    }

    pub fn div(self, rhs: Fixed) -> (r: Fixed)
        requires
            rhs.bits != 0,
            fits_i64(div_bits(self.bits as int, rhs.bits as int)),
        ensures
            r.bits == div_bits(self.bits as int, rhs.bits as int),
    {
        Fixed { bits: i32f32_div(self.bits, rhs.bits) }
    }

    /// Divides by the integer `n`.
    pub fn div_int(self, n: i64) -> (r: Fixed)
        requires
            n != 0,
            !(self.bits == i64::MIN && n == -1),
        ensures
            r.bits == trunc_div(self.bits as int, n as int),
    {
        Fixed { bits: i32f32_div_int(self.bits, n) }
    }

    pub fn sqrt(self) -> (r: Fixed)
        requires
            self.bits >= 0,
        ensures
            is_sqrt_bits(self.bits as int, r.bits as int),
    {
        Fixed { bits: i32f32_sqrt(self.bits) }
    }
}

/// A two-dimensional vector of fixed-point numbers.
#[derive(Clone, Copy, Debug, Default, PartialEq, Eq, Structural, Hash)]
pub struct Vec2F {
    pub x: Fixed,
    pub y: Fixed,
}

/// A three-dimensional vector of fixed-point numbers; in physics quantities
/// the third component is the angular part.
#[derive(Clone, Copy, Debug, Default, PartialEq, Eq, Structural, Hash)]
pub struct Vec3F {
    pub x: Fixed,
    pub y: Fixed,
    pub z: Fixed,
}

impl Vec2F {
    pub fn new(x: Fixed, y: Fixed) -> (v: Vec2F)
        ensures
            v.x == x && v.y == y,
    {
        Vec2F { x, y }
    }
}

impl Vec3F {
    pub fn new(x: Fixed, y: Fixed, z: Fixed) -> (v: Vec3F)
        ensures
            v.x == x && v.y == y && v.z == z,
    {
        Vec3F { x, y, z }
    }

    pub fn zero() -> (v: Vec3F)
        ensures
            v.x.bits == 0 && v.y.bits == 0 && v.z.bits == 0,
    {
        Vec3F { x: Fixed::zero(), y: Fixed::zero(), z: Fixed::zero() }
    }
}

} // verus!
