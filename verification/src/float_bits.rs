//! IEEE 754 numbers carried as bit patterns.
//!
//! Scores and samples are ordered by this crate but never added or multiplied,
//! so a number is kept as the integer that encodes it.  The order of two
//! numbers is the order of their sign-and-magnitude keys.

use vstd::prelude::*;

verus! {

/// Bit pattern of a binary32 infinity without its sign.
pub const F32_INFINITY: u32 = 0x7f80_0000;

/// Sign bit of a binary32 number.
pub const F32_SIGN: u32 = 0x8000_0000;

/// Bit pattern of a binary64 infinity without its sign.
pub const F64_INFINITY: u64 = 0x7ff0_0000_0000_0000;

/// Sign bit of a binary64 number.
pub const F64_SIGN: u64 = 0x8000_0000_0000_0000;

/// A binary32 number, held as its bit pattern.
///
/// `==` compares bit patterns: the two zeros differ and a NaN equals itself.
#[derive(Clone, Copy, Debug, PartialEq, Eq, Structural)]
pub struct F32 {
    pub bits: u32,
}

/// A binary64 number, held as its bit pattern.
#[derive(Clone, Copy, Debug, PartialEq, Eq, Structural)]
pub struct F64 {
    pub bits: u64,
}

impl F32 {
    /// The bits below the sign bit.
    pub open spec fn magnitude(self) -> int {
        if self.bits >= F32_SIGN {
            self.bits - F32_SIGN
        } else {
            self.bits as int
        }
    }

    /// Whether the number is a NaN: an all-ones exponent with a non-zero fraction.
    pub open spec fn nan(self) -> bool {
        self.magnitude() > F32_INFINITY
    }

    /// Position of the number in the numeric order; both zeros have key 0.
    pub open spec fn key(self) -> int {
        if self.bits >= F32_SIGN {
            -self.magnitude()
        } else {
            self.magnitude()
        }
    }

    /// `self < other` as IEEE 754 has it: false as soon as one side is a NaN.
    pub open spec fn less(self, other: F32) -> bool {
        !self.nan() && !other.nan() && self.key() < other.key()
    }

    /// Negative infinity.
    pub open spec fn neg_infinity() -> F32 {
        F32 { bits: 0xff80_0000 }
    }

    /// Whether the number is a NaN.
    pub fn is_nan(&self) -> (res: bool)
        ensures
            res == self.nan(),
    {
        if self.bits >= F32_SIGN {
            self.bits - F32_SIGN > F32_INFINITY
        } else {
            self.bits > F32_INFINITY
        }
    }

    /// The numeric `<` of two numbers.
    pub fn lt(&self, other: &F32) -> (res: bool)
        ensures
            res == self.less(*other),
    {
        if self.is_nan() || other.is_nan() {
            false
        } else if self.bits >= F32_SIGN {
            if other.bits >= F32_SIGN {
                self.bits > other.bits
            } else {
                self.bits > F32_SIGN || other.bits > 0
            }
        } else if other.bits >= F32_SIGN {
            false
        } else {
            self.bits < other.bits
        }
    }
}

impl F64 {
    /// The bits below the sign bit.
    pub open spec fn magnitude(self) -> int {
        if self.bits >= F64_SIGN {
            self.bits - F64_SIGN
        } else {
            self.bits as int
        }
    }

    /// Whether the number is a NaN: an all-ones exponent with a non-zero fraction.
    pub open spec fn nan(self) -> bool {
        self.magnitude() > F64_INFINITY
    }

    /// Position of the number in the numeric order; both zeros have key 0.
    pub open spec fn key(self) -> int {
        if self.bits >= F64_SIGN {
            -self.magnitude()
        } else {
            self.magnitude()
        }
    }

    /// Whether the number is a NaN.
    pub fn is_nan(&self) -> (res: bool)
        ensures
            res == self.nan(),
    {
        if self.bits >= F64_SIGN {
            self.bits - F64_SIGN > F64_INFINITY
        } else {
            self.bits > F64_INFINITY
        }
    }

    /// Whether `self` comes after `other` in the numeric order.
    pub fn gt(&self, other: &F64) -> (res: bool)
        ensures
            res == (self.key() > other.key()),
    {
        if self.bits >= F64_SIGN {
            if other.bits >= F64_SIGN {
                self.bits < other.bits
            } else {
                false
            }
        } else if other.bits >= F64_SIGN {
            self.bits > 0 || other.bits > F64_SIGN
        } else {
            self.bits > other.bits
        }
    }
}

} // verus!
