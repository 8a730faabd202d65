//! Real numbers as the library holds them: by bit pattern.

use vstd::prelude::*;

verus! {

/// Bit pattern of single-precision `-0.0`: the sign bit alone.
pub const SINGLE_SIGN: u32 = 0x8000_0000;

/// Bit pattern of single-precision negative infinity, the least number.
pub const SINGLE_NEG_INFINITY: u32 = 0xFF80_0000;

/// Bit pattern of single-precision `1.0`.
pub const SINGLE_ONE: u32 = 0x3F80_0000;

/// Bit pattern of single-precision `-1.0`.
pub const SINGLE_MINUS_ONE: u32 = 0xBF80_0000;

/// Bit pattern of double-precision `-0.0`: the sign bit alone.
pub const DOUBLE_SIGN: u64 = 0x8000_0000_0000_0000;

/// Bit pattern of double-precision negative infinity, the least number.
pub const DOUBLE_NEG_INFINITY: u64 = 0xFFF0_0000_0000_0000;

/// A single-precision number, held by its IEEE 754 bit pattern.
///
/// Two values are equal when their bit patterns are, so `0.0` and `-0.0`
/// differ here and a NaN equals itself.
#[derive(Clone, Copy, Debug, PartialEq, Eq, Structural)]
pub struct Single {
    pub bits: u32,
}

impl Single {
    /// Whether the number is strictly below zero. The negative numbers are
    /// the patterns from just above `-0.0` up to negative infinity; the
    /// patterns beyond that are NaNs, which are below nothing.
    pub open spec fn is_negative(self) -> bool {
        SINGLE_SIGN < self.bits <= SINGLE_NEG_INFINITY
    }

    pub open spec fn spec_zero() -> Single {
        Single { bits: 0 }
    }

    pub open spec fn spec_one() -> Single {
        Single { bits: SINGLE_ONE }
    }

    pub open spec fn spec_minus_one() -> Single {
        Single { bits: SINGLE_MINUS_ONE }
    }

    /// The number with the given bit pattern.
    pub fn from_bits(bits: u32) -> (r: Single)
        ensures
            r.bits == bits,
    {
        Single { bits }
    }

    /// The bit pattern of the number.
    pub fn to_bits(&self) -> (r: u32)
        ensures
            r == self.bits,
    {
        self.bits
    }

    /// Positive zero.
    #[verifier::when_used_as_spec(spec_zero)]
    pub fn zero() -> (r: Single)
        ensures
            r == Single::spec_zero(),
    {
        Single { bits: 0 }
    }

    /// The number one.
    #[verifier::when_used_as_spec(spec_one)]
    pub fn one() -> (r: Single)
        ensures
            r == Single::spec_one(),
    {
        Single { bits: SINGLE_ONE }
    }

    /// The number minus one.
    #[verifier::when_used_as_spec(spec_minus_one)]
    pub fn minus_one() -> (r: Single)
        ensures
            r == Single::spec_minus_one(),
    {
        Single { bits: SINGLE_MINUS_ONE }
    }

    /// Tests whether the number is strictly below zero.
    pub fn below_zero(&self) -> (r: bool)
        ensures
            r == self.is_negative(),
    {
        SINGLE_SIGN < self.bits && self.bits <= SINGLE_NEG_INFINITY
    }
}

/// A double-precision number, held by its IEEE 754 bit pattern.
#[derive(Clone, Copy, Debug, PartialEq, Eq, Structural)]
pub struct Double {
    pub bits: u64,
}

impl Double {
    /// Whether the number is zero or below: either zero, or a pattern from
    /// just above `-0.0` up to negative infinity. A NaN is not.
    pub open spec fn is_at_most_zero(self) -> bool {
        self.bits == 0 || (DOUBLE_SIGN <= self.bits <= DOUBLE_NEG_INFINITY)
    }

    /// The number with the given bit pattern.
    pub fn from_bits(bits: u64) -> (r: Double)
        ensures
            r.bits == bits,
    {
        Double { bits }
    }

    /// The bit pattern of the number.
    pub fn to_bits(&self) -> (r: u64)
        ensures
            r == self.bits,
    {
        self.bits
    }

    /// Tests whether the number is zero or below.
    pub fn at_most_zero(&self) -> (r: bool)
        ensures
            r == self.is_at_most_zero(),
    {
        self.bits == 0 || (DOUBLE_SIGN <= self.bits && self.bits <= DOUBLE_NEG_INFINITY)
    }
}

/// A point or a direction of the plane.
#[derive(Clone, Copy, Debug, PartialEq, Eq, Structural)]
pub struct Vec2 {
    pub x: Single,
    pub y: Single,
}

impl Vec2 {
    pub open spec fn spec_zero() -> Vec2 {
        Vec2 { x: Single::spec_zero(), y: Single::spec_zero() }
    }

    /// The origin.
    #[verifier::when_used_as_spec(spec_zero)]
    pub fn zero() -> (r: Vec2)
        ensures
            r == Vec2::spec_zero(),
    {
        Vec2 { x: Single::zero(), y: Single::zero() }
    }
}

} // verus!
