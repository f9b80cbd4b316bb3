//! Floating-point numbers carried by their IEEE 754 bit patterns.

use vstd::prelude::*;

verus! {

/// A single-precision number, held as its bit pattern.
///
/// The derived `==` compares bit patterns; [`F32Bits::equals`] compares numbers.
#[derive(Clone, Copy, Debug, PartialEq, Eq, Structural)]
pub struct F32Bits {
    pub bits: u32,
}

/// A double-precision number, held as its bit pattern.
#[derive(Clone, Copy, Debug, PartialEq, Eq, Structural)]
pub struct F64Bits {
    pub bits: u64,
}

/// The bit pattern of positive infinity: any larger magnitude is not a number.
pub const INFINITY_BITS: u32 = 0x7f80_0000;

/// The bit that holds the sign.
pub const SIGN_BIT: u32 = 0x8000_0000;

/// The bit pattern of one.
pub const ONE_BITS: u32 = 0x3f80_0000;

/// The bit pattern of one in double precision.
pub const DOUBLE_ONE_BITS: u64 = 0x3ff0_0000_0000_0000;

impl F32Bits {
    /// The pattern without its sign; ordered as absolute values are.
    pub open spec fn magnitude(self) -> int {
        if self.bits >= SIGN_BIT {
            self.bits - SIGN_BIT
        } else {
            self.bits as int
        }
    }

    pub open spec fn is_nan(self) -> bool {
        self.magnitude() > INFINITY_BITS
    }

    pub open spec fn is_zero(self) -> bool {
        self.magnitude() == 0
    }

    /// Both stand for the same number: zeros of either sign are one number, and
    /// what is not a number equals nothing, itself included.
    pub open spec fn same_number(self, other: F32Bits) -> bool {
        &&& !self.is_nan()
        &&& !other.is_nan()
        &&& self.bits == other.bits || (self.is_zero() && other.is_zero())
    }

    /// The number is greater than zero; infinity counts, what is not a number
    /// does not.
    pub open spec fn above_zero(self) -> bool {
        !self.is_nan() && !self.is_zero() && self.bits < SIGN_BIT
    }

    /// The `==` of floating-point numbers.
    pub fn equals(self, other: F32Bits) -> (r: bool)
        ensures
            r == self.same_number(other),
    {
        let a: u32 = if self.bits >= SIGN_BIT { self.bits - SIGN_BIT } else { self.bits };
        let b: u32 = if other.bits >= SIGN_BIT { other.bits - SIGN_BIT } else { other.bits };
        a <= INFINITY_BITS && b <= INFINITY_BITS && (self.bits == other.bits || (a == 0 && b == 0))
    }

    /// Whether the number is greater than zero.
    pub fn is_positive(self) -> (r: bool)
        ensures
            r == self.above_zero(),
    {
        0 < self.bits && self.bits <= INFINITY_BITS
    }
}

} // verus!
