//! Single-precision numbers, as the library sees them: bit patterns that can be
//! compared. Arithmetic on them is done outside.

use vstd::prelude::*;

verus! {

/// A single-precision number (IEEE 754 binary32), by its bit pattern.
#[derive(Clone, Copy, Debug, PartialEq, Eq, Structural)]
pub struct Single {
    pub bits: u32,
}

/// The bit pattern of 0.0.
pub const ZERO: u32 = 0x0000_0000;

/// The bit pattern of 1.0.
pub const ONE: u32 = 0x3f80_0000;

impl Single {
    /// The bit pattern without the sign bit.
    pub open spec fn magnitude(self) -> int {
        if self.bits >= 0x8000_0000 {
            self.bits - 0x8000_0000
        } else {
            self.bits as int
        }
    }

    /// Not a number.
    pub open spec fn nan(self) -> bool {
        self.magnitude() > 0x7f80_0000
    }

    /// Where a number stands in the order of all numbers. Both zeros stand at
    /// the same place.
    pub open spec fn rank(self) -> int {
        if self.bits >= 0x8000_0000 {
            -self.magnitude()
        } else {
            self.magnitude()
        }
    }

    /// `self < other`, which never holds of a value that is not a number.
    pub open spec fn less(self, other: Single) -> bool {
        !self.nan() && !other.nan() && self.rank() < other.rank()
    }

    /// `self <= other`, which never holds of a value that is not a number.
    pub open spec fn at_most(self, other: Single) -> bool {
        !self.nan() && !other.nan() && self.rank() <= other.rank()
    }

    /// The value kept inside `lo..=hi`; a value that is not a number stays.
    pub open spec fn clamped(self, lo: Single, hi: Single) -> Single {
        if self.less(lo) {
            lo
        } else if hi.less(self) {
            hi
        } else {
            self
        }
    }

    /// The larger of two values, or the one that is a number; of two at one
    /// rank, the first.
    pub open spec fn larger(self, other: Single) -> Single {
        if self.nan() || self.less(other) {
            other
        } else {
            self
        }
    }

    fn signed_magnitude(self) -> (r: i64)
        ensures
            r == self.rank(),
    {
        if self.bits >= 0x8000_0000 {
            -((self.bits - 0x8000_0000) as i64)
        } else {
            self.bits as i64
        }
    }

    /// Whether the value is not a number.
    pub fn is_nan(self) -> (r: bool)
        ensures
            r == self.nan(),
    {
        let m: i64 = self.signed_magnitude();
        m > 0x7f80_0000 || m < -0x7f80_0000
    }

    /// Whether `self < other`.
    pub fn lt(self, other: Single) -> (r: bool)
        ensures
            r == self.less(other),
    {
        !self.is_nan() && !other.is_nan() && self.signed_magnitude() < other.signed_magnitude()
    }

    /// Whether `self <= other`.
    pub fn le(self, other: Single) -> (r: bool)
        ensures
            r == self.at_most(other),
    {
        !self.is_nan() && !other.is_nan() && self.signed_magnitude() <= other.signed_magnitude()
    }

    /// Keeps the value inside `lo..=hi`.
    pub fn clamp(self, lo: Single, hi: Single) -> (r: Single)
        requires
            lo.at_most(hi),
        ensures
            r == self.clamped(lo, hi),
    {
        if self.lt(lo) {
            lo
        } else if hi.lt(self) {
            hi
        } else {
            self
        }
    }

    /// The larger of two values.
    pub fn max(self, other: Single) -> (r: Single)
        ensures
            r == self.larger(other),
    {
        if self.is_nan() || self.lt(other) {
            other
        } else {
            self
        }
    }
}

/// A clamped number lies inside the limits, and a number inside them is left
/// as it is.
pub proof fn clamped_lies_inside(x: Single, lo: Single, hi: Single)
    requires
        lo.at_most(hi),
        !x.nan(),
    ensures
        lo.at_most(x.clamped(lo, hi)),
        x.clamped(lo, hi).at_most(hi),
        lo.at_most(x) && x.at_most(hi) ==> x.clamped(lo, hi) == x,
{
}

/// What is not a number has all exponent bits set and a fraction, under either
/// sign.
pub proof fn what_is_not_a_number(x: Single, r: bool)
    requires
        call_ensures(Single::is_nan, (x,), r),
    ensures
        r <==> (0x7f80_0000 < x.bits < 0x8000_0000 || 0xff80_0000 < x.bits),
{
}

/// Numbers compare as their bit patterns do: below the sign bit upwards, above it
/// downwards, and every negative number is below every other one, but for the two
/// zeros, which are equal. What is not a number compares with nothing.
pub proof fn order_follows_the_patterns(a: Single, b: Single, r: bool)
    requires
        call_ensures(Single::lt, (a, b), r),
    ensures
        a.bits <= 0x7f80_0000 && b.bits <= 0x7f80_0000 ==> r == (a.bits < b.bits),
        0x8000_0000 <= a.bits <= 0xff80_0000 && 0x8000_0000 <= b.bits <= 0xff80_0000 ==> r == (
        b.bits < a.bits),
        0x8000_0000 <= a.bits <= 0xff80_0000 && b.bits <= 0x7f80_0000 ==> r == !(a.bits
            == 0x8000_0000 && b.bits == 0),
        a.bits <= 0x7f80_0000 && 0x8000_0000 <= b.bits ==> !r,
        0x7f80_0000 < a.bits < 0x8000_0000 || 0xff80_0000 < a.bits ==> !r,
        0x7f80_0000 < b.bits < 0x8000_0000 || 0xff80_0000 < b.bits ==> !r,
{
}

/// One number is at most another if both are numbers and the other is not below it.
pub proof fn at_most_is_not_above(
    a: Single,
    b: Single,
    r: bool,
    above: bool,
    a_nan: bool,
    b_nan: bool,
)
    requires
        call_ensures(Single::le, (a, b), r),
        call_ensures(Single::lt, (b, a), above),
        call_ensures(Single::is_nan, (a,), a_nan),
        call_ensures(Single::is_nan, (b,), b_nan),
    ensures
        r == (!a_nan && !b_nan && !above),
{
}

/// The larger of two values is one of them, with neither above it; a number is
/// preferred to what is not one, and the first value to an equal one.
pub proof fn the_larger_is_not_below_either(a: Single, b: Single, r: Single)
    requires
        call_ensures(Single::max, (a, b), r),
    ensures
        r == a || r == b,
        !r.less(a) && !r.less(b),
        a.nan() ==> r == b,
        b.nan() && !a.nan() ==> r == a,
        !a.nan() && !b.nan() && !a.less(b) ==> r == a,
{
}

/// Clamping moves a value to the limit that it is beyond, and no other value.
pub proof fn clamping_moves_to_the_nearer_limit(x: Single, lo: Single, hi: Single, r: Single)
    requires
        lo.at_most(hi),
        call_ensures(Single::clamp, (x, lo, hi), r),
    ensures
        x.less(lo) ==> r == lo,
        hi.less(x) ==> r == hi,
        !x.less(lo) && !hi.less(x) ==> r == x,
        !x.nan() ==> lo.at_most(r) && r.at_most(hi),
{
}

} // verus!
