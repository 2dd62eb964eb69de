//! The order of single precision numbers, by their bit patterns.

use vstd::prelude::*;

verus! {

/// A single precision number (IEEE 754 binary32), given by its bit pattern.
///
/// Heights, angles and surfaces are measured as such numbers. What the library needs of them is
/// their order, and for anything but NaN that is the order of whole numbers.
#[derive(Clone, Copy, Debug, PartialEq, Eq, Structural)]
pub struct Single(pub u32);

impl Single {
    /// The bits without the sign.
    pub open spec fn magnitude(self) -> int {
        self.0 as int % 0x8000_0000
    }

    /// Whether the sign is set.
    pub open spec fn is_negative(self) -> bool {
        self.0 >= 0x8000_0000
    }

    /// Whether all exponent bits are set, and some bit of the fraction is.
    pub open spec fn spec_is_nan(self) -> bool {
        self.magnitude() > 0x7f80_0000
    }

    /// Where the number is in the order of numbers. The two zeroes are equal.
    pub open spec fn order(self) -> int {
        if self.is_negative() {
            -self.magnitude()
        } else {
            self.magnitude()
        }
    }

    /// Whether the number is greater. Nothing is greater than NaN, nor NaN than anything.
    pub open spec fn spec_gt(self, other: Single) -> bool {
        !self.spec_is_nan() && !other.spec_is_nan() && self.order() > other.order()
    }

    /// Whether this is not a number.
    pub fn is_nan(self) -> (nan: bool)
        ensures
            nan == self.spec_is_nan(),
    {
        self.0 % 0x8000_0000 > 0x7f80_0000
    }

    /// The whole number that stands for the number in comparisons.
    pub fn key(self) -> (key: i32)
        ensures
            key == self.order(),
    {
        let magnitude: u32 = self.0 % 0x8000_0000;
        if self.0 >= 0x8000_0000 {
            -(magnitude as i32)
        } else {
            magnitude as i32
        }
    }

    /// Whether the number is greater than another.
    pub fn gt(self, other: Single) -> (greater: bool)
        ensures
            greater == self.spec_gt(other),
    {
        !self.is_nan() && !other.is_nan() && self.key() > other.key()
    }
}

/// Numbers are ordered as they are on the number line: without the sign, more bits are more. With
/// the sign it is the other way round, and the two zeroes are equal.
pub proof fn law_order_of_numbers(left: Single, right: Single)
    requires
        left.0 < 0x8000_0000,
        right.0 < 0x8000_0000,
    ensures
        left.order() < right.order() <==> left.0 < right.0,
        Single((left.0 + 0x8000_0000) as u32).order() == -left.order(),
        left.order() >= 0,
        Single(0).order() == Single(0x8000_0000).order(),
{
}

/// Of two numbers one is greater, unless they are equal. Nothing is greater than NaN, and NaN is
/// greater than nothing.
pub proof fn law_greater_is_an_order(left: Single, right: Single, third: Single)
    ensures
        left.spec_is_nan() || right.spec_is_nan() ==> !left.spec_gt(right),
        !left.spec_is_nan() && !right.spec_is_nan() ==> (left.spec_gt(right) || right.spec_gt(left)
            || left.order() == right.order()),
        left.spec_gt(right) ==> !right.spec_gt(left) && left.order() > right.order(),
        left.spec_gt(right) && right.spec_gt(third) ==> left.spec_gt(third),
        left.spec_is_nan() <==> vstd::math::abs(left.order()) > 0x7f80_0000,
{
}

} // verus!
