//! Depth values as IEEE-754 single-precision bit patterns.
//!
//! The depth buffer stores exactly the 32 bits a caller hands in. Ordering
//! and range checks are defined on those bits and agree with the numeric
//! comparison of the numbers they encode: a value is a sign bit followed by
//! a 31-bit magnitude, magnitudes of non-NaN values are ordered like the
//! absolute values they encode, and every magnitude above that of infinity
//! encodes a NaN.

use vstd::prelude::*;

verus! {

/// The sign bit of a single-precision bit pattern.
pub const SIGN_BIT: u32 = 0x8000_0000;

/// Magnitude bits of infinity; larger magnitudes encode NaN.
pub const INFINITY_MAGNITUDE: u32 = 0x7F80_0000;

/// Magnitude bits of the largest finite value.
pub const LARGEST_FINITE_MAGNITUDE: u32 = 0x7F7F_FFFF;

/// Magnitude bits of `1 + ε`, the successor of one.
pub const CLIP_MAGNITUDE: u32 = 0x3F80_0001;

/// A depth value, held as the bit pattern of a single-precision number.
/// Equality of two `Depth` values is equality of their bits.
#[derive(Copy, Clone, PartialEq, Eq, Debug, Structural)]
pub struct Depth {
    pub bits: u32,
}

impl Depth {
    /// The sign bit is set.
    pub open spec fn is_negative(self) -> bool {
        self.bits >= SIGN_BIT
    }

    /// The bit pattern without its sign bit.
    pub open spec fn magnitude(self) -> int {
        if self.bits >= SIGN_BIT {
            self.bits - SIGN_BIT
        } else {
            self.bits as int
        }
    }

    /// The pattern encodes a NaN, which compares false against everything.
    pub open spec fn is_nan(self) -> bool {
        self.magnitude() > INFINITY_MAGNITUDE
    }

    /// An integer that orders non-NaN depths like the numbers they encode.
    /// Both zeros share the key 0.
    pub open spec fn key(self) -> int {
        if self.is_negative() {
            -self.magnitude()
        } else {
            self.magnitude()
        }
    }

    /// Numeric `self > other`: false as soon as either side is a NaN.
    pub open spec fn gt_spec(self, other: Depth) -> bool {
        !self.is_nan() && !other.is_nan() && self.key() > other.key()
    }

    /// The value lies in `[-1 - ε, 1 + ε]`, the range a depth must fall in
    /// to take part in the depth test. No NaN is in range.
    pub open spec fn in_clip_range(self) -> bool {
        self.magnitude() <= CLIP_MAGNITUDE
    }

    /// The most negative finite value, which every in-range depth exceeds.
    pub open spec fn lowest() -> Depth {
        Depth { bits: 0xFF7F_FFFF }
    }

    /// The largest finite value, which no in-range depth exceeds.
    pub open spec fn highest() -> Depth {
        Depth { bits: 0x7F7F_FFFF }
    }

    pub fn from_bits(bits: u32) -> (d: Depth)
        ensures
            d == (Depth { bits }),
    {
        Depth { bits }
    }

    pub fn to_bits(self) -> (bits: u32)
        ensures
            bits == self.bits,
    {
        self.bits
    }

    /// The most negative finite value: the "nothing drawn yet" depth.
    pub fn min_value() -> (d: Depth)
        ensures
            d == Depth::lowest(),
    {
        Depth { bits: SIGN_BIT + LARGEST_FINITE_MAGNITUDE }
    }

    /// The largest finite value: the "farthest possible" depth.
    pub fn max_value() -> (d: Depth)
        ensures
            d == Depth::highest(),
    {
        Depth { bits: LARGEST_FINITE_MAGNITUDE }
    }

    fn magnitude_bits(self) -> (m: u32)
        ensures
            m == self.magnitude(),
    {
        if self.bits >= SIGN_BIT {
            self.bits - SIGN_BIT
        } else {
            self.bits
        }
    }

    pub fn is_nan_value(self) -> (b: bool)
        ensures
            b == self.is_nan(),
    {
        self.magnitude_bits() > INFINITY_MAGNITUDE
    }

    /// Numeric greater-than on the encoded values.
    pub fn gt(self, other: Depth) -> (b: bool)
        ensures
            b == self.gt_spec(other),
    {
        let m: u32 = self.magnitude_bits();
        let n: u32 = other.magnitude_bits();
        if m > INFINITY_MAGNITUDE || n > INFINITY_MAGNITUDE {
            false
        } else if self.bits >= SIGN_BIT {
            other.bits >= SIGN_BIT && m < n
        } else {
            other.bits >= SIGN_BIT && (m > 0 || n > 0) || other.bits < SIGN_BIT && m > n
        }
    }

    /// Whether the value may take part in the depth test.
    pub fn is_in_clip_range(self) -> (b: bool)
        ensures
            b == self.in_clip_range(),
    {
        self.magnitude_bits() <= CLIP_MAGNITUDE
    }
}

/// A non-NaN depth is never greater than itself, and of two depths at most
/// one is greater than the other.
pub proof fn lemma_gt_is_strict(a: Depth, b: Depth)
    ensures
        !a.gt_spec(a),
        !(a.gt_spec(b) && b.gt_spec(a)),
{
}

/// Greater-than is transitive.
pub proof fn lemma_gt_is_transitive(a: Depth, b: Depth, c: Depth)
    requires
        a.gt_spec(b),
        b.gt_spec(c),
    ensures
        a.gt_spec(c),
{
}

/// Every depth in the clip range exceeds the lowest depth and none exceeds
/// the highest.
pub proof fn lemma_clip_range_between_extremes(d: Depth)
    requires
        d.in_clip_range(),
    ensures
        d.gt_spec(Depth::lowest()),
        !d.gt_spec(Depth::highest()),
        Depth::highest().gt_spec(d),
{
}

} // verus!
