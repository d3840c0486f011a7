//! Telemetry readings.
//!
//! A reading is a single-precision binary floating-point number (IEEE 754
//! binary32). It is held by its bit pattern, and ordered as the standard
//! orders the numbers: by sign and magnitude, the two zeros equal, and a NaN
//! neither below nor above anything.

use vstd::prelude::*;

verus! {

/// One reading, by the 32 bits of its binary32 form.
#[derive(Debug, Clone, Copy, PartialEq, Eq, Structural)]
pub struct Sample {
    pub bits: u32,
}

/// The sign bit of the binary32 form.
pub const SIGN_BIT: u32 = 0x8000_0000;

/// The bit pattern of positive infinity; every larger magnitude is a NaN.
pub const INFINITY_BITS: u32 = 0x7f80_0000;

impl Sample {
    /// The bits without the sign.
    pub open spec fn magnitude(self) -> int {
        if self.bits >= SIGN_BIT {
            self.bits - SIGN_BIT
        } else {
            self.bits as int
        }
    }

    /// Whether the reading is no number.
    pub open spec fn is_nan(self) -> bool {
        self.magnitude() > INFINITY_BITS
    }

    /// The place of the reading on the number line, counted in steps of the
    /// format: the magnitude, negated under a sign bit. Both zeros are at 0.
    pub open spec fn rank(self) -> int {
        if self.bits >= SIGN_BIT {
            -self.magnitude()
        } else {
            self.magnitude()
        }
    }

    /// `self < other` as numbers.
    pub open spec fn below(self, other: Sample) -> bool {
        !self.is_nan() && !other.is_nan() && self.rank() < other.rank()
    }

    /// `self > other` as numbers.
    pub open spec fn above(self, other: Sample) -> bool {
        other.below(self)
    }

    /// The reading with the given bit pattern.
    pub fn from_bits(bits: u32) -> (r: Sample)
        ensures
            r.bits == bits,
    {
        Sample { bits }
    }

    /// The bit pattern of the reading.
    pub fn to_bits(&self) -> (r: u32)
        ensures
            r == self.bits,
    {
        self.bits
    }

    fn split(&self) -> (r: (bool, u32))
        ensures
            r.0 == (self.bits >= SIGN_BIT),
            r.1 == self.magnitude(),
    {
        if self.bits >= SIGN_BIT {
            (true, self.bits - SIGN_BIT)
        } else {
            (false, self.bits)
        }
    }

    /// Whether `self` is strictly less than `other`.
    pub fn lt(&self, other: &Sample) -> (r: bool)
        ensures
            r == self.below(*other),
    {
        let (negative, magnitude): (bool, u32) = self.split();
        let (other_negative, other_magnitude): (bool, u32) = other.split();
        if magnitude > INFINITY_BITS || other_magnitude > INFINITY_BITS {
            false
        } else if negative && other_negative {
            magnitude > other_magnitude
        } else if negative {
            magnitude > 0 || other_magnitude > 0
        } else if other_negative {
            false
        } else {
            magnitude < other_magnitude
        }
    }

    /// Whether `self` is strictly greater than `other`.
    pub fn gt(&self, other: &Sample) -> (r: bool)
        ensures
            r == self.above(*other),
    {
        other.lt(self)
    }
}

/// No reading is below itself, and none is both below and above another.
pub proof fn lemma_order_is_strict(a: Sample, b: Sample)
    ensures
        !a.below(a),
        !(a.below(b) && a.above(b)),
{
}

/// The order is transitive.
pub proof fn lemma_order_is_transitive(a: Sample, b: Sample, c: Sample)
    requires
        a.below(b),
        b.below(c),
    ensures
        a.below(c),
{
}

} // verus!
