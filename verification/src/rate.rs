//! Binary floating-point numbers, held by their bit patterns. Numbers can be
//! compared here; arithmetic on them is left to the caller.

use vstd::prelude::*;

verus! {

/// Bit pattern of the largest finite single-precision magnitude, plus one: the
/// pattern of infinity.
pub const INFINITY_32: u32 = 0x7F80_0000;

/// Bit pattern of the double-precision infinity.
pub const INFINITY_64: u64 = 0x7FF0_0000_0000_0000;

/// Weight of the sign in a single-precision pattern.
pub const SIGN_32: u32 = 0x8000_0000;

/// Weight of the sign in a double-precision pattern.
pub const SIGN_64: u64 = 0x8000_0000_0000_0000;

/// Weight of the lowest exponent bit in a double-precision pattern.
pub const EXPONENT_UNIT_64: u64 = 0x0010_0000_0000_0000;

/// A single-precision number.
#[derive(Clone, Copy, Debug, PartialEq, Eq, Structural)]
pub struct Float32 {
    /// Bit pattern of the number.
    pub bits: u32,
}

/// A double-precision number.
#[derive(Clone, Copy, Debug, PartialEq, Eq, Structural)]
pub struct Float64 {
    /// Bit pattern of the number.
    pub bits: u64,
}

impl Float32 {
    /// Position of the number on the number line, in patterns from zero. What is
    /// not a number has none.
    pub open spec fn rank(self) -> Option<int> {
        if self.bits <= INFINITY_32 {
            Some(self.bits as int)
        } else if SIGN_32 <= self.bits && self.bits <= SIGN_32 + INFINITY_32 {
            Some(SIGN_32 - self.bits)
        } else {
            None
        }
    }

    /// Whether this number is greater than the other one.
    pub open spec fn above(self, other: Float32) -> bool {
        self.rank() matches Some(a) && other.rank() matches Some(b) && a > b
    }

    /// Position of the number on the number line.
    fn position(&self) -> (r: Option<i64>)
        ensures
            r is Some <==> self.rank() is Some,
            r matches Some(p) ==> self.rank() == Some(p as int),
    {
        if self.bits <= INFINITY_32 {
            Some(self.bits as i64)
        } else if SIGN_32 <= self.bits && self.bits <= SIGN_32 + INFINITY_32 {
            Some(SIGN_32 as i64 - self.bits as i64)
        } else {
            None
        }
    }

    /// Whether this number is greater than the other one.
    pub fn is_above(&self, other: Float32) -> (r: bool)
        ensures
            r == self.above(other),
    {
        match (self.position(), other.position()) {
            (Some(a), Some(b)) => a > b,
            _ => false,
        }
    }
}

impl Float64 {
    /// Position of the number on the number line, in patterns from zero. What is
    /// not a number has none.
    pub open spec fn rank(self) -> Option<int> {
        if self.bits <= INFINITY_64 {
            Some(self.bits as int)
        } else if SIGN_64 <= self.bits && self.bits <= SIGN_64 + INFINITY_64 {
            Some(SIGN_64 - self.bits)
        } else {
            None
        }
    }

    /// Whether this number is greater than the other one.
    pub open spec fn above(self, other: Float64) -> bool {
        self.rank() matches Some(a) && other.rank() matches Some(b) && a > b
    }

    /// Position of the number on the number line.
    fn position(&self) -> (r: Option<i128>)
        ensures
            r is Some <==> self.rank() is Some,
            r matches Some(p) ==> self.rank() == Some(p as int),
    {
        if self.bits <= INFINITY_64 {
            Some(self.bits as i128)
        } else if SIGN_64 <= self.bits && self.bits <= SIGN_64 + INFINITY_64 {
            Some(SIGN_64 as i128 - self.bits as i128)
        } else {
            None
        }
    }

    /// Whether this number is greater than the other one.
    pub fn is_above(&self, other: Float64) -> (r: bool)
        ensures
            r == self.above(other),
    {
        match (self.position(), other.position()) {
            (Some(a), Some(b)) => a > b,
            _ => false,
        }
    }

    /// Twice the number: the magnitude of a subnormal number doubles as a
    /// pattern, that of another finite number gets the next exponent, up to
    /// infinity. What is infinite or not a number stays as it is.
    pub open spec fn twice(self) -> Float64 {
        let sign: int = if self.bits >= SIGN_64 {
            SIGN_64 as int
        } else {
            0
        };
        let magnitude = self.bits - sign;
        let doubled = if magnitude < EXPONENT_UNIT_64 {
            2 * magnitude
        } else if magnitude + EXPONENT_UNIT_64 < INFINITY_64 {
            magnitude + EXPONENT_UNIT_64
        } else if magnitude < INFINITY_64 {
            INFINITY_64 as int
        } else {
            magnitude
        };
        Float64 { bits: (sign + doubled) as u64 }
    }

    /// Twice the number.
    pub fn double(&self) -> (r: Float64)
        ensures
            r == self.twice(),
    {
        let sign: u64 = if self.bits >= SIGN_64 {
            SIGN_64
        } else {
            0
        };
        let magnitude: u64 = self.bits - sign;
        let doubled: u64 = if magnitude < EXPONENT_UNIT_64 {
            2 * magnitude
        } else if magnitude < INFINITY_64 - EXPONENT_UNIT_64 {
            magnitude + EXPONENT_UNIT_64
        } else if magnitude < INFINITY_64 {
            INFINITY_64
        } else {
            magnitude
        };
        Float64 { bits: sign + doubled }
    }
}

/// Comparison of numbers is irreflexive and transitive.
pub proof fn above_is_an_order(a: Float64, b: Float64, c: Float64)
    ensures
        !a.above(a),
        a.above(b) && b.above(c) ==> a.above(c),
{
}

/// Numbers compare as their patterns do, the sign apart: of two that are not negative the one
/// with the larger pattern is greater, of two negative ones the other one, and a negative
/// number is not greater than one that is not negative. The two zeroes are equal, and
/// nothing compares with what is not a number.
pub proof fn patterns_compare_as_numbers(a: Float64, b: Float64)
    ensures
        ({
            let sign = 0x8000_0000_0000_0000u64;
            let infinity = 0x7FF0_0000_0000_0000u64;
            let a_minus = sign <= a.bits <= 0xFFF0_0000_0000_0000;
            let b_minus = sign <= b.bits <= 0xFFF0_0000_0000_0000;
            &&& a.bits <= infinity && b.bits <= infinity ==> (a.above(b) <==> a.bits > b.bits)
            &&& a_minus && b_minus ==> (a.above(b) <==> a.bits < b.bits)
            &&& a_minus && b.bits <= infinity ==> !a.above(b)
            &&& a.bits <= infinity && b_minus ==> (a.above(b) <==> !(a.bits == 0 && b.bits
                == sign))
            &&& !a_minus && a.bits > infinity ==> !a.above(b) && !b.above(a)
        }),
{
}

/// Single-precision numbers compare as their patterns do, the sign apart.
pub proof fn single_patterns_compare_as_numbers(a: Float32, b: Float32)
    ensures
        ({
            let sign = 0x8000_0000u32;
            let infinity = 0x7F80_0000u32;
            let a_minus = sign <= a.bits <= 0xFF80_0000;
            let b_minus = sign <= b.bits <= 0xFF80_0000;
            &&& a.bits <= infinity && b.bits <= infinity ==> (a.above(b) <==> a.bits > b.bits)
            &&& a_minus && b_minus ==> (a.above(b) <==> a.bits < b.bits)
            &&& a_minus && b.bits <= infinity ==> !a.above(b)
            &&& a.bits <= infinity && b_minus ==> (a.above(b) <==> !(a.bits == 0 && b.bits
                == sign))
            &&& !a_minus && a.bits > infinity ==> !a.above(b) && !b.above(a)
        }),
{
}

/// A normal number is doubled by the next exponent, a subnormal one by twice its pattern, and
/// one that has no double is infinite; the sign stays.
pub proof fn doubling_keeps_the_sign(a: Float64)
    ensures
        a.bits < 0x0010_0000_0000_0000 ==> a.twice().bits == 2 * a.bits,
        0x0010_0000_0000_0000 <= a.bits < 0x7FE0_0000_0000_0000 ==> a.twice().bits == a.bits
            + 0x0010_0000_0000_0000,
        0x7FE0_0000_0000_0000 <= a.bits <= 0x7FF0_0000_0000_0000 ==> a.twice().bits
            == 0x7FF0_0000_0000_0000,
        0x7FF0_0000_0000_0000 < a.bits < 0x8000_0000_0000_0000 ==> a.twice() == a,
        a.bits < 0x8000_0000_0000_0000 ==> (Float64 {
            bits: (a.bits + 0x8000_0000_0000_0000) as u64,
        }).twice().bits == a.twice().bits + 0x8000_0000_0000_0000,
{
}

} // verus!
