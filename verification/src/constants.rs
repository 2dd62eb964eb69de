//! What is the same for every invocation of a kernel.

use vstd::prelude::*;

verus! {

/// What a kernel can be asked to compute.
#[derive(Clone, Copy, Debug, PartialEq, Eq, Structural)]
pub enum Flag {
    /// The total visible surfaces.
    TotalSurfaces,
    /// The visibility regions that viewsheds are reconstructed from.
    RingData,
    /// The longest lines of sight.
    LongestLines,
}

impl Flag {
    /// The bit of each flag.
    pub open spec fn spec_bit(self) -> u32 {
        match self {
            Flag::TotalSurfaces => 1,
            Flag::RingData => 2,
            Flag::LongestLines => 4,
        }
    }

    /// The bit that stands for the flag.
    pub fn bit(self) -> (bit: u32)
        ensures
            bit == self.spec_bit(),
    {
        match self {
            Flag::TotalSurfaces => 1,
            Flag::RingData => 2,
            Flag::LongestLines => 4,
        }
    }
}

/// The number whose bits are the given flags.
pub open spec fn bitmask(total_surfaces: bool, ring_data: bool, longest_lines: bool) -> u32 {
    ((if total_surfaces {
        Flag::TotalSurfaces.spec_bit()
    } else {
        0
    }) + (if ring_data {
        Flag::RingData.spec_bit()
    } else {
        0
    }) + (if longest_lines {
        Flag::LongestLines.spec_bit()
    } else {
        0
    })) as u32
}

/// The number of invocations in each direction.
#[derive(Clone, Copy, Debug, Default, PartialEq, Eq, Structural)]
pub struct Dimensions {
    /// The number of invocations along the first direction.
    pub x: u32,
    /// The number of invocations along the second direction.
    pub y: u32,
    /// The number of invocations along the third direction.
    pub z: u32,
    /// The number of invocations that have something to do.
    pub w: u32,
}

/// The constants for each kernel computation.
#[derive(Clone, Copy, Debug, Default, PartialEq, Eq, Structural)]
pub struct Constants {
    /// The number of bands: a forward and a backward one for each point.
    pub total_bands: u32,
    /// The maximum distance in terms of points to search.
    pub max_los_as_points: u32,
    /// The width of the DEM.
    pub dem_width: u32,
    /// The width of the computable sub-grid within the DEM.
    pub tvs_width: u32,
    /// The amount of reserved space in the ring data buffer for each band.
    pub reserved_rings_per_band: u32,
    /// What to compute.
    pub process: u32,
    /// The number of invocations in each direction.
    pub dimensions: Dimensions,
}

impl Constants {
    /// Whether the bit of a flag is set.
    pub open spec fn has(self, flag: Flag) -> bool {
        self.process as int / flag.spec_bit() as int % 2 == 1
    }

    /// Whether the bit of a flag is set.
    fn is_set(&self, flag: Flag) -> (set: bool)
        ensures
            set == self.has(flag),
    {
        let process: u32 = self.process;
        assert((process & 1 != 0) == (process / 1 % 2 == 1)) by (bit_vector);
        assert((process & 2 != 0) == (process / 2 % 2 == 1)) by (bit_vector);
        assert((process & 4 != 0) == (process / 4 % 2 == 1)) by (bit_vector);
        process & flag.bit() != 0
    }

    /// Are we computing total surface areas?
    pub fn is_total_surfaces(&self) -> (set: bool)
        ensures
            set == self.has(Flag::TotalSurfaces),
    {
        self.is_set(Flag::TotalSurfaces)
    }

    /// Are we collecting ring data?
    pub fn is_ring_data(&self) -> (set: bool)
        ensures
            set == self.has(Flag::RingData),
    {
        self.is_set(Flag::RingData)
    }

    /// Are we computing the longest lines of sight?
    pub fn is_longest_lines(&self) -> (set: bool)
        ensures
            set == self.has(Flag::LongestLines),
    {
        self.is_set(Flag::LongestLines)
    }

    /// The number of an invocation: planes of rows, one after the other.
    pub open spec fn spec_linear_id(self, x: int, y: int, z: int) -> int {
        x + y * self.dimensions.x + z * self.dimensions.x * self.dimensions.y
    }

    /// The kernel ID of an invocation, if it has something to do.
    pub fn linear_id(&self, x: u32, y: u32, z: u32) -> (id: Option<u32>)
        requires
            y * self.dimensions.x <= u32::MAX,
            z * self.dimensions.x <= u32::MAX,
            x + y * self.dimensions.x + z * self.dimensions.x * self.dimensions.y <= u32::MAX,
        ensures
            id == (if self.spec_linear_id(x as int, y as int, z as int) >= self.dimensions.w {
                None::<u32>
            } else {
                Some(self.spec_linear_id(x as int, y as int, z as int) as u32)
            }),
    {
        assert(0 <= y * self.dimensions.x) by (nonlinear_arith)
            requires
                0 <= y,
                0 <= self.dimensions.x,
        ;
        assert(0 <= z * self.dimensions.x) by (nonlinear_arith)
            requires
                0 <= z,
                0 <= self.dimensions.x,
        ;
        let plane: u32 = z * self.dimensions.x;
        assert(0 <= plane * self.dimensions.y) by (nonlinear_arith)
            requires
                0 <= plane,
                0 <= self.dimensions.y,
        ;
        let linear_id: u32 = x + y * self.dimensions.x + plane * self.dimensions.y;
        if linear_id >= self.dimensions.w {
            None
        } else {
            Some(linear_id)
        }
    }
}

/// Every set of flags is told apart by its bits.
pub proof fn law_bitmask_has_flags(
    constants: Constants,
    total_surfaces: bool,
    ring_data: bool,
    longest_lines: bool,
)
    requires
        constants.process == bitmask(total_surfaces, ring_data, longest_lines),
    ensures
        constants.has(Flag::TotalSurfaces) == total_surfaces,
        constants.has(Flag::RingData) == ring_data,
        constants.has(Flag::LongestLines) == longest_lines,
{
}

/// What to compute is told by three bits: the lowest is that of surfaces, then come rings, and then
/// the longest lines.
pub proof fn law_process_is_made_of_bits(constants: Constants)
    requires
        constants.process < 8,
    ensures
        constants.process == (if constants.has(Flag::TotalSurfaces) {
            1int
        } else {
            0
        }) + (if constants.has(Flag::RingData) {
            2int
        } else {
            0
        }) + (if constants.has(Flag::LongestLines) {
            4int
        } else {
            0
        }),
{
    let process = constants.process as int;
    assert(constants.has(Flag::TotalSurfaces) <==> process % 2 == 1);
    assert(constants.has(Flag::RingData) <==> process / 2 % 2 == 1);
    assert(constants.has(Flag::LongestLines) <==> process / 4 % 2 == 1);
}

/// Invocations are counted along the first direction, then along the second and then along the
/// third.
pub proof fn law_invocations_are_counted(constants: Constants, x: int, y: int, z: int)
    ensures
        constants.spec_linear_id(0, 0, 0) == 0,
        constants.spec_linear_id(x + 1, y, z) == constants.spec_linear_id(x, y, z) + 1,
        constants.spec_linear_id(x, y + 1, z) == constants.spec_linear_id(x, y, z)
            + constants.dimensions.x,
        constants.spec_linear_id(x, y, z + 1) == constants.spec_linear_id(x, y, z)
            + constants.dimensions.x * constants.dimensions.y,
{
    let (across, down) = (constants.dimensions.x as int, constants.dimensions.y as int);
    assert((y + 1) * across == y * across + across) by (nonlinear_arith);
    assert((z + 1) * across * down == z * across * down + across * down) by (nonlinear_arith);
    assert(0 * across == 0 && 0 * across * down == 0) by (nonlinear_arith);
}

/// No two invocations have the same ID.
pub proof fn law_invocations_are_distinct(
    constants: Constants,
    left: (int, int, int),
    right: (int, int, int),
)
    requires
        0 <= left.0 < constants.dimensions.x,
        0 <= right.0 < constants.dimensions.x,
        0 <= left.1 < constants.dimensions.y,
        0 <= right.1 < constants.dimensions.y,
        constants.spec_linear_id(left.0, left.1, left.2) == constants.spec_linear_id(
            right.0,
            right.1,
            right.2,
        ),
    ensures
        left == right,
{
    let (across, down) = (constants.dimensions.x as int, constants.dimensions.y as int);
    let (one, other) = (left.1 + left.2 * down, right.1 + right.2 * down);
    assert(left.0 + left.1 * across + left.2 * across * down == one * across + left.0)
        by (nonlinear_arith)
        requires
            one == left.1 + left.2 * down,
    ;
    assert(right.0 + right.1 * across + right.2 * across * down == other * across + right.0)
        by (nonlinear_arith)
        requires
            other == right.1 + right.2 * down,
    ;
    crate::dem::law_coordinates_of_index(left.0, one, across);
    crate::dem::law_coordinates_of_index(right.0, other, across);
    crate::dem::law_coordinates_of_index(left.1, left.2, down);
    crate::dem::law_coordinates_of_index(right.1, right.2, down);
}

} // verus!
