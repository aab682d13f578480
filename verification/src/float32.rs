//! Single-precision IEEE-754 values carried by their bit pattern.
//!
//! The protocol carries `f32` payloads (sizes, colors, offsets). The library never does
//! arithmetic on them; it only stores, compares and classifies them, which is exact on
//! the 32-bit encoding.

use vstd::prelude::*;

verus! {

/// Biased exponent field of an IEEE-754 binary32 encoding.
pub open spec fn exponent_of(bits: u32) -> int {
    (bits as int / 0x80_0000) % 0x100
}

/// Mantissa (fraction) field of an IEEE-754 binary32 encoding.
pub open spec fn mantissa_of(bits: u32) -> int {
    bits as int % 0x80_0000
}

/// The sign bit of the encoding is set.
pub open spec fn sign_of(bits: u32) -> bool {
    bits as int >= 0x8000_0000
}

/// The encoding is a NaN.
pub open spec fn is_nan_bits(bits: u32) -> bool {
    exponent_of(bits) == 0xff && mantissa_of(bits) != 0
}

/// The encoding is neither infinite nor NaN.
pub open spec fn is_finite_bits(bits: u32) -> bool {
    exponent_of(bits) != 0xff
}

/// The encoding is `+0.0` or `-0.0`.
pub open spec fn is_zero_bits(bits: u32) -> bool {
    bits as int % 0x8000_0000 == 0
}

/// `x < 0.0` under IEEE-754 comparison.
pub open spec fn is_below_zero_bits(bits: u32) -> bool {
    sign_of(bits) && !is_zero_bits(bits) && !is_nan_bits(bits)
}

/// `a == b` under IEEE-754 comparison: NaN equals nothing, and the two zeros are equal.
pub open spec fn ieee_eq_bits(a: u32, b: u32) -> bool {
    !is_nan_bits(a) && !is_nan_bits(b) && (a == b || (is_zero_bits(a) && is_zero_bits(b)))
}

/// A single-precision float, stored as its IEEE-754 bit pattern.
#[derive(Clone, Copy, Debug)]
pub struct Fp32 {
    pub bits: u32,
}

impl Fp32 {
    /// The value whose encoding is `bits` (`f32::from_bits`).
    pub fn from_bits(bits: u32) -> (r: Fp32)
        ensures
            r.bits == bits,
    {
        Fp32 { bits }
    }

    /// The encoding of the value (`f32::to_bits`).
    pub fn to_bits(self) -> (r: u32)
        ensures
            r == self.bits,
    {
        self.bits
    }

    /// `+0.0`.
    pub fn zero() -> (r: Fp32)
        ensures
            r.bits == 0,
            is_zero_bits(r.bits),
    {
        Fp32 { bits: 0 }
    }

    /// `f32::is_finite`.
    pub fn is_finite(self) -> (r: bool)
        ensures
            r == is_finite_bits(self.bits),
    {
        self.bits / 0x80_0000 % 0x100 != 0xff
    }

    /// `f32::is_nan`.
    pub fn is_nan(self) -> (r: bool)
        ensures
            r == is_nan_bits(self.bits),
    {
        self.bits / 0x80_0000 % 0x100 == 0xff && self.bits % 0x80_0000 != 0
    }

    /// `self < 0.0`.
    pub fn is_below_zero(self) -> (r: bool)
        ensures
            r == is_below_zero_bits(self.bits),
    {
        self.bits >= 0x8000_0000 && self.bits % 0x8000_0000 != 0 && !self.is_nan()
    }

    /// `self == other` under IEEE-754 comparison.
    pub fn same_value(self, other: Fp32) -> (r: bool)
        ensures
            r == ieee_eq_bits(self.bits, other.bits),
    {
        !self.is_nan() && !other.is_nan() && (self.bits == other.bits || (self.bits % 0x8000_0000
            == 0 && other.bits % 0x8000_0000 == 0))
    }
}

impl PartialEq for Fp32 {
    fn eq(&self, other: &Fp32) -> (r: bool) {
        self.same_value(*other)
    }
}

impl vstd::std_specs::cmp::PartialEqSpecImpl for Fp32 {
    open spec fn obeys_eq_spec() -> bool {
        true
    }

    open spec fn eq_spec(&self, other: &Fp32) -> bool {
        ieee_eq_bits(self.bits, other.bits)
    }
}

} // verus!
