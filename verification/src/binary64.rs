//! Double-precision values, held by their IEEE 754 encoding.
//!
//! The rules of this crate test and order such values but never add or multiply them. Both only
//! need the encoding: the low 63 bits are the magnitude, which grows with the absolute value, and
//! the top bit is the sign.
use vstd::prelude::*;

verus! {

/// The magnitude of the infinities. Larger magnitudes encode no number.
pub const INFINITE_MAGNITUDE: u64 = 0x7FF0_0000_0000_0000;

/// The sign bit.
pub const SIGN: u64 = 0x8000_0000_0000_0000;

/// The encoding of 0.
pub const ZERO: u64 = 0x0000_0000_0000_0000;

/// The encoding of 1.
pub const ONE: u64 = 0x3FF0_0000_0000_0000;

/// The encoding of a full turn in radians, rounded to double precision.
pub const TAU: u64 = 0x4019_21FB_5444_2D18;

/// A double-precision value, by its encoding.
#[derive(Debug, Clone, Copy, PartialEq, Eq, Structural)]
pub struct Binary64 {
    pub bits: u64,
}

impl Binary64 {
    /// The absolute value's encoding.
    pub open spec fn magnitude(self) -> int {
        if self.bits >= SIGN {
            self.bits - SIGN
        } else {
            self.bits as int
        }
    }

    /// The value's place in the order of all values; both zeros share one place.
    pub open spec fn rank(self) -> int {
        if self.bits >= SIGN {
            -self.magnitude()
        } else {
            self.magnitude()
        }
    }

    pub open spec fn spec_is_nan(self) -> bool {
        self.magnitude() > INFINITE_MAGNITUDE
    }

    pub open spec fn spec_is_finite(self) -> bool {
        self.magnitude() < INFINITE_MAGNITUDE
    }

    /// `self < other`, which is false when either is not a number.
    pub open spec fn spec_less_than(self, other: Binary64) -> bool {
        !self.spec_is_nan() && !other.spec_is_nan() && self.rank() < other.rank()
    }

    /// `self <= other`, which is false when either is not a number.
    pub open spec fn spec_at_most(self, other: Binary64) -> bool {
        !self.spec_is_nan() && !other.spec_is_nan() && self.rank() <= other.rank()
    }

    pub open spec fn spec_is_positive(self) -> bool {
        (Binary64 { bits: ZERO }).spec_less_than(self)
    }

    pub open spec fn spec_is_nonnegative(self) -> bool {
        (Binary64 { bits: ZERO }).spec_at_most(self)
    }

    /// Whether the value lies in the closed interval from 0 to 1.
    pub open spec fn spec_is_probability(self) -> bool {
        self.spec_is_nonnegative() && self.spec_at_most(Binary64 { bits: ONE })
    }

    /// The larger of two values; what is not a number gives way to the other.
    pub open spec fn spec_max(self, other: Binary64) -> Binary64 {
        if self.spec_is_nan() || self.spec_less_than(other) {
            other
        } else {
            self
        }
    }

    fn split(self) -> (parts: (bool, u64))
        ensures
            parts.0 == (self.bits >= SIGN),
            parts.1 == self.magnitude(),
    {
        if self.bits >= SIGN {
            (true, self.bits - SIGN)
        } else {
            (false, self.bits)
        }
    }

    #[verifier::when_used_as_spec(spec_is_nan)]
    pub fn is_nan(self) -> (answer: bool)
        ensures
            answer == self.spec_is_nan(),
    {
        self.split().1 > INFINITE_MAGNITUDE
    }

    #[verifier::when_used_as_spec(spec_is_finite)]
    pub fn is_finite(self) -> (answer: bool)
        ensures
            answer == self.spec_is_finite(),
    {
        self.split().1 < INFINITE_MAGNITUDE
    }

    #[verifier::when_used_as_spec(spec_less_than)]
    pub fn less_than(self, other: Binary64) -> (answer: bool)
        ensures
            answer == self.spec_less_than(other),
    {
        !self.is_nan() && !other.is_nan() && !other.at_most_as_numbers(self)
    }

    #[verifier::when_used_as_spec(spec_at_most)]
    pub fn at_most(self, other: Binary64) -> (answer: bool)
        ensures
            answer == self.spec_at_most(other),
    {
        !self.is_nan() && !other.is_nan() && self.at_most_as_numbers(other)
    }

    fn at_most_as_numbers(self, other: Binary64) -> (answer: bool)
        ensures
            answer == (self.rank() <= other.rank()),
    {
        let (negative, size) = self.split();
        let (other_negative, other_size) = other.split();
        if negative && other_negative {
            other_size <= size
        } else if negative {
            true
        } else if other_negative {
            size == 0 && other_size == 0
        } else {
            size <= other_size
        }
    }

    #[verifier::when_used_as_spec(spec_is_positive)]
    pub fn is_positive(self) -> (answer: bool)
        ensures
            answer == self.spec_is_positive(),
    {
        (Binary64 { bits: ZERO }).less_than(self)
    }

    #[verifier::when_used_as_spec(spec_is_nonnegative)]
    pub fn is_nonnegative(self) -> (answer: bool)
        ensures
            answer == self.spec_is_nonnegative(),
    {
        (Binary64 { bits: ZERO }).at_most(self)
    }

    #[verifier::when_used_as_spec(spec_is_probability)]
    pub fn is_probability(self) -> (answer: bool)
        ensures
            answer == self.spec_is_probability(),
    {
        self.is_nonnegative() && self.at_most(Binary64 { bits: ONE })
    }

    #[verifier::when_used_as_spec(spec_max)]
    pub fn max(self, other: Binary64) -> (larger: Binary64)
        ensures
            larger == self.spec_max(other),
    {
        if self.is_nan() || self.less_than(other) {
            other
        } else {
            self
        }
    }
}

/// Among numbers the order is total: of two, one is below the other or they share a rank.
/// What is not a number is neither below nor at most anything.
pub proof fn law_numbers_are_ordered(a: Binary64, b: Binary64, c: Binary64)
    ensures
        !a.is_nan() && !b.is_nan() ==> (a.at_most(b) || b.less_than(a)),
        a.less_than(b) ==> a.at_most(b) && !b.at_most(a),
        a.at_most(b) && b.at_most(c) ==> a.at_most(c),
        a.is_nan() ==> !a.at_most(b) && !b.at_most(a) && !a.less_than(b) && !b.less_than(a),
        a.is_finite() ==> !a.is_nan(),
{
}

/// The larger of two values is one of them, no number among them exceeds it, and it is a number
/// whenever either is.
pub proof fn law_max_is_an_upper_bound(a: Binary64, b: Binary64)
    ensures
        a.max(b) == a || a.max(b) == b,
        !a.is_nan() ==> a.at_most(a.max(b)),
        !b.is_nan() ==> b.at_most(a.max(b)),
{
}

} // verus!
