//! Pack line of sight distance and angle into 32 bits. This makes storing and transferring the data
//! easier for viewing on the web.

use crate::integers;
use crate::integers::decimal;
use vstd::prelude::*;

verus! {

/// The max and bitmask for a u22: 4,194,303.
pub const U22_MAX: u32 = 4_194_303;

/// The max and bitmask for a u10: 1023.
pub const U10_MAX: u32 = 1023;

/// Why a line of sight cannot be packed.
#[derive(Clone, Copy, Debug, PartialEq, Eq, Structural)]
pub enum PackError {
    /// The distance does not fit into 22 bits.
    Distance(u32),
    /// The angle does not fit into 10 bits.
    Angle(u16),
}

impl PackError {
    /// What to tell the user.
    pub fn message(&self) -> (text: String)
        ensures
            text@ == (match *self {
                PackError::Distance(distance) => integers::decimal_digits(distance as int)
                    + " is greater than u22 max 4194303"@,
                PackError::Angle(angle) => integers::decimal_digits(angle as int)
                    + " is greater than u10 max 1023"@,
            }),
    {
        match self {
            PackError::Distance(distance) => {
                decimal(*distance).concat(" is greater than u22 max 4194303")
            },
            PackError::Angle(angle) => {
                decimal(*angle as u32).concat(" is greater than u10 max 1023")
            },
        }
    }
}

/// Line of sight data that can be packed within 32 bits.
///
/// The bits can be handed on as those of a single precision number, because the `.bt` format only
/// supports `i16` and single precision. At the end of the day, they're just bits that are neither
/// valid as one nor the other.
#[derive(Clone, Copy, Debug, Default, PartialEq, Eq, Structural)]
pub struct LineOfSightPacked(pub u32);

impl LineOfSightPacked {
    /// The upper 22 bits.
    pub open spec fn spec_distance(self) -> int {
        self.0 as int / 1024
    }

    /// The lower 10 bits.
    pub open spec fn spec_angle(self) -> int {
        self.0 as int % 1024
    }

    /// Pack line of sight data.
    pub fn new(distance: u32, angle: u16) -> (packed: Result<Self, PackError>)
        ensures
            match packed {
                Ok(packed) => {
                    &&& distance <= U22_MAX
                    &&& angle <= U10_MAX
                    &&& packed.spec_distance() == distance
                    &&& packed.spec_angle() == angle
                },
                Err(PackError::Distance(found)) => distance > U22_MAX && found == distance,
                Err(PackError::Angle(found)) => distance <= U22_MAX && angle > U10_MAX && found
                    == angle,
            },
    {
        if distance > U22_MAX {
            return Err(PackError::Distance(distance));
        }
        if angle as u32 > U10_MAX {
            return Err(PackError::Angle(angle));
        }
        Ok(Self::new_unchecked(distance, angle))
    }

    /// Pack as many bits of the line of sight data as fit.
    pub fn new_unchecked(distance: u32, angle: u16) -> (packed: Self)
        ensures
            packed.spec_distance() == distance as int % 0x40_0000,
            packed.spec_angle() == angle as int % 1024,
    {
        let angle_u32: u32 = angle as u32;
        let distance_bits: u32 = (distance & U22_MAX) << 10;
        let angle_bits: u32 = angle_u32 & U10_MAX;
        let packed: u32 = distance_bits | angle_bits;
        assert(packed == (distance % 0x40_0000) * 1024 + angle_u32 % 1024) by (bit_vector)
            requires
                packed == ((distance & 4_194_303u32) << 10) | (angle_u32 & 1023u32),
        ;
        LineOfSightPacked(packed)
    }

    /// The packed bits.
    pub fn to_u32(&self) -> (bits: u32)
        ensures
            bits == self.0,
    {
        self.0
    }

    /// Distance in meters from the point of view to the visible point.
    pub fn distance(&self) -> (distance: u32)
        ensures
            distance == self.spec_distance(),
    {
        let packed: u32 = self.to_u32();
        assert((packed >> 10) & 4_194_303u32 == packed / 1024) by (bit_vector);
        (packed >> 10) & U22_MAX
    }

    /// The angle of the line of sight from the point of view.
    pub fn angle(&self) -> (angle: u16)
        ensures
            angle == self.spec_angle(),
    {
        let packed: u32 = self.to_u32();
        assert(packed & 1023u32 == packed % 1024) by (bit_vector);
        (packed & U10_MAX) as u16
    }

    /// The longer line. Of two lines that are as long, that is the first one.
    pub open spec fn spec_max(self, other: Self) -> Self {
        if other.spec_distance() > self.spec_distance() {
            other
        } else {
            self
        }
    }

    /// The longer of two lines of sight. We always want the first ever occurrence of a longest
    /// line to take precedence.
    pub fn max(self, other: Self) -> (longer: Self)
        ensures
            longer == self.spec_max(other),
    {
        if other.distance() > self.distance() {
            other
        } else {
            self
        }
    }
}

/// A packed line of sight is what its distance and its angle make it.
pub proof fn law_packed_parts(left: LineOfSightPacked, right: LineOfSightPacked)
    requires
        left.spec_distance() == right.spec_distance(),
        left.spec_angle() == right.spec_angle(),
    ensures
        left == right,
{
}

/// It does not matter in which groups lines are compared.
pub proof fn law_max_is_associative(
    first: LineOfSightPacked,
    second: LineOfSightPacked,
    third: LineOfSightPacked,
)
    ensures
        first.spec_max(second).spec_max(third) == first.spec_max(second.spec_max(third)),
{
}

/// Nor does it matter for the distance in which order.
pub proof fn law_max_distance_is_commutative(left: LineOfSightPacked, right: LineOfSightPacked)
    ensures
        left.spec_max(right).spec_distance() == right.spec_max(left).spec_distance(),
{
}

/// The longer line is one of the two, and none of them is longer. Of two lines that are as long, it
/// is the first one.
pub proof fn law_max_is_the_longer_one(first: LineOfSightPacked, second: LineOfSightPacked)
    ensures
        first.spec_max(second) == first || first.spec_max(second) == second,
        first.spec_max(second).spec_distance() >= first.spec_distance(),
        first.spec_max(second).spec_distance() >= second.spec_distance(),
        first.spec_distance() == second.spec_distance() ==> first.spec_max(second) == first,
{
}

/// Distances go before angles: what is packed of a longer line is greater, whatever the angles are,
/// and of two lines that are as long, what is packed of the greater angle is.
pub proof fn law_packed_go_by_distance(left: LineOfSightPacked, right: LineOfSightPacked)
    ensures
        left.0 < right.0 <==> left.spec_distance() < right.spec_distance() || (left.spec_distance()
            == right.spec_distance() && left.spec_angle() < right.spec_angle()),
        0 <= left.spec_angle() <= U10_MAX,
        0 <= left.spec_distance() <= U22_MAX,
{
}

} // verus!
