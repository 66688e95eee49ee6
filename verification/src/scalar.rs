//! Single-precision numbers as the library holds them: by their bit patterns.
//!
//! A [`Scalar`] is the 32-bit pattern of an IEEE-754 binary32 number: one sign
//! bit, eight exponent bits, twenty-three fraction bits. The library never
//! does arithmetic on such a number. It compares two of them, tests and flips
//! the sign, and moves them about, and each of these is exact on the pattern:
//! apart from the sign, a larger pattern is a larger magnitude.
use vstd::prelude::*;

verus! {

/// The pattern with only the sign bit set.
pub const SIGN_BIT: u32 = 0x8000_0000;

/// The magnitude of infinity. A larger magnitude is no number (NaN).
pub const INFINITY_BITS: u32 = 0x7F80_0000;

/// A single-precision number, held by its bit pattern.
#[derive(Clone, Copy, Debug)]
pub struct Scalar {
    pub bits: u32,
}

impl Scalar {
    /// The sign bit is set. That holds of negative numbers, of the negative
    /// zero, and of half of the patterns that are no number.
    pub open spec fn negative(self) -> bool {
        self.bits >= SIGN_BIT
    }

    /// The pattern without its sign bit.
    pub open spec fn magnitude(self) -> int {
        if self.bits >= SIGN_BIT {
            self.bits - SIGN_BIT
        } else {
            self.bits as int
        }
    }

    /// The pattern is no number.
    pub open spec fn nan(self) -> bool {
        self.magnitude() > INFINITY_BITS
    }

    /// Where the number stands on the number line: of two numbers the one
    /// with the lesser rank is the lesser number, and both zeros have rank 0.
    /// It says nothing of a pattern that is no number.
    pub open spec fn rank(self) -> int {
        if self.negative() {
            -self.magnitude()
        } else {
            self.magnitude()
        }
    }

    /// `self < other` as IEEE-754 orders numbers: false whenever either side
    /// is no number, and false between the two zeros.
    pub open spec fn less(self, other: Scalar) -> bool {
        !self.nan() && !other.nan() && self.rank() < other.rank()
    }

    /// The same magnitude with the other sign.
    pub open spec fn negated(self) -> Scalar {
        Scalar {
            bits: if self.bits >= SIGN_BIT {
                (self.bits - SIGN_BIT) as u32
            } else {
                (self.bits + SIGN_BIT) as u32
            },
        }
    }

    /// The same magnitude with the sign bit cleared.
    pub open spec fn absolute(self) -> Scalar {
        Scalar { bits: self.magnitude() as u32 }
    }

    /// The number with the pattern `bits`.
    pub fn from_bits(bits: u32) -> (s: Scalar)
        ensures
            s.bits == bits,
    {
        Scalar { bits }
    }

    /// The pattern of the number.
    pub fn to_bits(self) -> (bits: u32)
        ensures
            bits == self.bits,
    {
        self.bits
    }

    /// Positive zero.
    pub fn zero() -> (s: Scalar)
        ensures
            s.bits == 0,
    {
        Scalar { bits: 0 }
    }

    /// The number one.
    pub fn one() -> (s: Scalar)
        ensures
            s.bits == 0x3F80_0000,
    {
        Scalar { bits: 0x3F80_0000 }
    }

    /// Positive infinity.
    pub fn infinity() -> (s: Scalar)
        ensures
            s.bits == INFINITY_BITS,
    {
        Scalar { bits: INFINITY_BITS }
    }

    /// Whether the pattern is no number.
    pub fn is_nan(self) -> (r: bool)
        ensures
            r == self.nan(),
    {
        self.magnitude_bits() > INFINITY_BITS
    }

    /// Whether `self < other`.
    pub fn lt(self, other: Scalar) -> (r: bool)
        ensures
            r == self.less(other),
    {
        if self.is_nan() || other.is_nan() {
            return false;
        }
        let a = self.magnitude_bits();
        let b = other.magnitude_bits();
        if self.bits >= SIGN_BIT {
            if other.bits >= SIGN_BIT {
                b < a
            } else {
                a > 0 || b > 0
            }
        } else {
            if other.bits >= SIGN_BIT {
                false
            } else {
                a < b
            }
        }
    }

    /// Whether `self > other`.
    pub fn gt(self, other: Scalar) -> (r: bool)
        ensures
            r == other.less(self),
    {
        other.lt(self)
    }

    /// The number with the sign flipped. This is exact for every pattern,
    /// those that are no number included.
    pub fn neg(self) -> (s: Scalar)
        ensures
            s == self.negated(),
            s.magnitude() == self.magnitude(),
            s.negative() != self.negative(),
    {
        if self.bits >= SIGN_BIT {
            Scalar { bits: self.bits - SIGN_BIT }
        } else {
            Scalar { bits: self.bits + SIGN_BIT }
        }
    }

    /// The magnitude of the number: the same pattern with the sign bit
    /// cleared.
    pub fn abs(self) -> (s: Scalar)
        ensures
            s == self.absolute(),
            s.magnitude() == self.magnitude(),
            !s.negative(),
    {
        Scalar { bits: self.magnitude_bits() }
    }

    fn magnitude_bits(self) -> (m: u32)
        ensures
            m == self.magnitude(),
            m < SIGN_BIT,
    {
        if self.bits >= SIGN_BIT {
            self.bits - SIGN_BIT
        } else {
            self.bits
        }
    }
}

/// The order of numbers is strict: nothing is less than itself, and of two
/// numbers at most one is less than the other.
pub proof fn lemma_less_is_strict(a: Scalar, b: Scalar)
    ensures
        !a.less(a),
        a.less(b) ==> !b.less(a),
{
}

/// The order of numbers is transitive.
pub proof fn lemma_less_is_transitive(a: Scalar, b: Scalar, c: Scalar)
    requires
        a.less(b),
        b.less(c),
    ensures
        a.less(c),
{
}

/// Flipping the signs of two numbers turns their order round.
pub proof fn lemma_negation_reverses(a: Scalar, b: Scalar)
    ensures
        a.less(b) <==> b.negated().less(a.negated()),
{
}

} // verus!
