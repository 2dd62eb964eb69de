//! DEM: Digital Elevation Model
//! <https://en.wikipedia.org/wiki/Digital_elevation_model>
//!
//! A 1D array of 2D data. Each item represents the height of a point above sea level. It doesn't
//! contain coordinates itself. But they can be derived from the position of the item in the array
//! and the known location of the DEM origins itself.

use vstd::arithmetic::div_mod::{lemma_fundamental_div_mod, lemma_fundamental_div_mod_converse};
use vstd::prelude::*;

verus! {

/// The coordinate space of the DEM:
///   * 0,0 is the top-left.
///   * Each integer maps exactly to a point in the DEM data.
///
/// These coordinates are used by the kernel and tests.
#[derive(Debug, Clone, Copy, PartialEq, Eq, Structural)]
pub struct Coordinate {
    /// The distance from the left.
    pub x: i64,
    /// The distance from the top.
    pub y: i64,
}

/// Why there cannot be such a DEM.
#[derive(Debug, Clone, Copy, PartialEq, Eq, Structural)]
pub enum DemError {
    /// The maximum line of sight is longer than the maximum distance that any point can completely
    /// see, which is given, in points.
    LineOfSightTooLong(u32),
    /// The width, which is given, is not divisible by 3.
    NotDivisibleByThree(u32),
}

/// `DEM`
pub struct DEM {
    /// All the elevation data.
    pub elevations: Vec<i16>,
    /// The width of the DEM.
    pub width: u32,
    /// The width of the computable sub-grid within the DEM. Consider a point on the edge of the
    /// DEM, whilst we cannot calculate its viewshed, it is required to calculate a truly computable
    /// point further inside the DEM.
    pub tvs_width: u32,
    /// The total number of points in the DEM.
    pub size: u64,
    /// The maximum distance in terms of points to search.
    pub max_los_as_points: u32,
    /// The total number of points that can have full viewsheds calculated for them.
    pub computable_points_count: u32,
}

/// The column of a point, by its index into the rows of a grid one after another.
pub open spec fn column_of(index: int, width: int) -> int {
    index % width
}

/// The row of a point, by its index into the rows of a grid one after another.
pub open spec fn row_of(index: int, width: int) -> int {
    index / width
}

/// The index of a point into the rows of a grid one after another.
pub open spec fn index_of(column: int, row: int, width: int) -> int {
    row * width + column
}

/// Indexes and coordinates go both ways.
pub proof fn law_index_of_coordinates(index: int, width: int)
    requires
        width > 0,
    ensures
        index_of(column_of(index, width), row_of(index, width), width) == index,
        0 <= column_of(index, width) < width,
{
    lemma_fundamental_div_mod(index, width);
    assert(width * row_of(index, width) == row_of(index, width) * width) by (nonlinear_arith);
}

/// Coordinates and indexes go both ways.
pub proof fn law_coordinates_of_index(column: int, row: int, width: int)
    requires
        0 <= column < width,
    ensures
        column_of(index_of(column, row, width), width) == column,
        row_of(index_of(column, row, width), width) == row,
{
    lemma_fundamental_div_mod_converse(index_of(column, row, width), width, row, column);
}

impl DEM {
    /// Whether the sizes fit together.
    pub open spec fn wf(self) -> bool {
        &&& self.width % 3 == 0
        &&& self.tvs_width == self.width / 3
        &&& self.size == self.width * self.width
        &&& self.max_los_as_points <= self.width / 2
        &&& self.computable_points_count == self.tvs_width * self.tvs_width
    }

    /// `Instantiate`
    pub fn new(width: u32, max_los_as_points: u32) -> (dem: Result<Self, DemError>)
        requires
            max_los_as_points <= width / 2 && width % 3 == 0 ==> width / 3 <= 0xffff,
        ensures
            match dem {
                Ok(dem) => {
                    &&& max_los_as_points <= width / 2
                    &&& width % 3 == 0
                    &&& dem.wf()
                    &&& dem.width == width
                    &&& dem.max_los_as_points == max_los_as_points
                    &&& dem.elevations@ == Seq::<i16>::empty()
                },
                Err(DemError::LineOfSightTooLong(possible)) => {
                    &&& max_los_as_points > width / 2
                    &&& possible == width / 2
                },
                Err(DemError::NotDivisibleByThree(found)) => {
                    &&& max_los_as_points <= width / 2
                    &&& width % 3 != 0
                    &&& found == width
                },
            },
    {
        let wide: u64 = width as u64;
        assert(wide * wide <= u64::MAX) by (nonlinear_arith)
            requires
                wide <= u32::MAX,
        ;
        let size: u64 = wide * wide;
        let max_possible_los_as_points: u32 = width / 2;
        if max_los_as_points > max_possible_los_as_points {
            return Err(DemError::LineOfSightTooLong(max_possible_los_as_points));
        }
        if width % 3 != 0 {
            return Err(DemError::NotDivisibleByThree(width));
        }
        let tvs_width: u32 = width / 3;
        assert(tvs_width * tvs_width <= u32::MAX) by (nonlinear_arith)
            requires
                tvs_width <= 0xffff,
        ;
        let computable_points_count: u32 = tvs_width * tvs_width;
        Ok(
            DEM {
                elevations: Vec::new(),
                width,
                tvs_width,
                size,
                max_los_as_points,
                computable_points_count,
            },
        )
    }

    /// Whether a point is no closer to any edge of the DEM than a line of sight is long.
    pub open spec fn spec_is_computable(self, dem_id: int) -> bool {
        let lower = self.max_los_as_points as int;
        let upper = self.width - 1 - self.max_los_as_points;
        &&& lower <= column_of(dem_id, self.width as int) <= upper
        &&& lower <= row_of(dem_id, self.width as int) <= upper
    }

    /// Is the DEM ID within the DEM such that a valid viewshed can be made for it?
    pub fn is_point_computable(&self, dem_id: u32) -> (computable: bool)
        requires
            self.wf(),
            self.width > 0,
        ensures
            computable == self.spec_is_computable(dem_id as int),
    {
        let coord = self.convert_dem_id_to_coord(dem_id);
        let lower: i64 = self.max_los_as_points as i64;
        let upper: i64 = ((self.width - 1) - self.max_los_as_points) as i64;
        coord.x >= lower && coord.x <= upper && coord.y >= lower && coord.y <= upper
    }

    /// The computable points sub-DEM's ID of a point.
    pub open spec fn spec_pov_id_to_tvs_id(self, pov_id: int) -> int {
        index_of(
            column_of(pov_id, self.width as int) - self.max_los_as_points,
            row_of(pov_id, self.width as int) - self.max_los_as_points,
            self.tvs_width as int,
        )
    }

    /// Convert an original DEM ID to the coordinate system of the computable points sub-DEM.
    pub fn pov_id_to_tvs_id(&self, pov_id: u64) -> (tvs_id: u64)
        requires
            self.wf(),
            self.width > 0,
            column_of(pov_id as int, self.width as int) >= self.max_los_as_points,
            row_of(pov_id as int, self.width as int) >= self.max_los_as_points,
        ensures
            tvs_id == self.spec_pov_id_to_tvs_id(pov_id as int),
    {
        let max_los_as_points_u64: u64 = self.max_los_as_points as u64;
        let width_u64: u64 = self.width as u64;
        let tvs_width_u64: u64 = self.tvs_width as u64;
        let x: u64 = pov_id % width_u64 - max_los_as_points_u64;
        let y: u64 = pov_id / width_u64 - max_los_as_points_u64;
        proof {
            lemma_fundamental_div_mod(pov_id as int, width_u64 as int);
            assert(0 <= y * tvs_width_u64 && y * tvs_width_u64 + x <= pov_id) by (nonlinear_arith)
                requires
                    pov_id == width_u64 * (pov_id as int / width_u64 as int) + (pov_id as int
                        % width_u64 as int),
                    0 <= y <= pov_id as int / width_u64 as int,
                    0 <= x <= pov_id as int % width_u64 as int,
                    0 <= tvs_width_u64 <= width_u64,
            ;
        }
        (y * tvs_width_u64) + x
    }

    /// Convert a DEM 1D index to a 2D coordinate.
    pub fn convert_dem_id_to_coord(&self, dem_id: u32) -> (coord: Coordinate)
        requires
            self.width > 0,
        ensures
            coord.x == column_of(dem_id as int, self.width as int),
            coord.y == row_of(dem_id as int, self.width as int),
    {
        Coordinate { x: (dem_id % self.width) as i64, y: (dem_id / self.width) as i64 }
    }

    /// Convert a DEM coordinate to a DEM ID. Where there is no such ID, it is the closest one.
    pub fn dem_coord_to_id(&self, coord: Coordinate) -> (dem_id: u32)
        ensures
            dem_id == crate::rotator::clamped(
                index_of(coord.x as int, coord.y as int, self.width as int),
                0,
                u32::MAX as int,
            ),
    {
        let wide: i128 = self.width as i128;
        let down: i128 = coord.y as i128;
        assert(-0x1_0000_0000_0000_0000_0000_0000 <= down * wide
            <= 0x1_0000_0000_0000_0000_0000_0000) by (nonlinear_arith)
            requires
                0 <= wide <= 0xffff_ffff,
                -0x8000_0000_0000_0000 <= down <= 0x7fff_ffff_ffff_ffff,
        ;
        let index: i128 = down * wide + coord.x as i128;
        if index < 0 {
            0
        } else if index > u32::MAX as i128 {
            u32::MAX
        } else {
            index as u32
        }
    }
}

/// A point of the sub-grid of computable points is in the middle third of the DEM, in either
/// direction.
pub open spec fn dem_id_of_tvs_id(tvs_id: int, tvs_width: int) -> int {
    index_of(
        column_of(tvs_id, tvs_width) + tvs_width,
        row_of(tvs_id, tvs_width) + tvs_width,
        3 * tvs_width,
    )
}

/// Where the line of sight is as long as the sub-grid is wide, the IDs of its points go to and from
/// the DEM.
pub proof fn law_tvs_id_round_trip(dem: DEM, tvs_id: int)
    requires
        dem.wf(),
        dem.width > 0,
        dem.max_los_as_points == dem.tvs_width,
        0 <= tvs_id < dem.computable_points_count,
    ensures
        dem.spec_pov_id_to_tvs_id(dem_id_of_tvs_id(tvs_id, dem.tvs_width as int)) == tvs_id,
        0 <= dem_id_of_tvs_id(tvs_id, dem.tvs_width as int) < dem.size,
        ({
            let dem_id = dem_id_of_tvs_id(tvs_id, dem.tvs_width as int);
            let upper = dem.width - 1 - dem.max_los_as_points;
            &&& dem.max_los_as_points <= column_of(dem_id, dem.width as int) <= upper
            &&& dem.max_los_as_points <= row_of(dem_id, dem.width as int) <= upper
        }),
{
    let tvs_width = dem.tvs_width as int;
    let column = column_of(tvs_id, tvs_width);
    let row = row_of(tvs_id, tvs_width);
    law_index_of_coordinates(tvs_id, tvs_width);
    assert(0 <= row < tvs_width) by (nonlinear_arith)
        requires
            row * tvs_width + column == tvs_id,
            0 <= column < tvs_width,
            0 <= tvs_id < tvs_width * tvs_width,
    ;
    law_coordinates_of_index(column + tvs_width, row + tvs_width, 3 * tvs_width);
    assert(0 <= (row + tvs_width) * (3 * tvs_width) + (column + tvs_width) < (3 * tvs_width) * (3
        * tvs_width)) by (nonlinear_arith)
        requires
            0 <= row < tvs_width,
            0 <= column < tvs_width,
    ;
}

/// Indexes count the points of a grid row by row: the next column is the next index, the next row
/// is as many indexes further as a row is wide, and they start at 0.
pub proof fn law_indexes_go_by_rows(column: int, row: int, width: int)
    ensures
        index_of(0, 0, width) == 0,
        index_of(column + 1, row, width) == index_of(column, row, width) + 1,
        index_of(column, row + 1, width) == index_of(column, row, width) + width,
{
    assert((row + 1) * width == row * width + width) by (nonlinear_arith);
    assert(0 * width == 0) by (nonlinear_arith);
}

/// The IDs of the sub-grid of computable points go by its rows: a point is as far from the top and
/// from the left of the sub-grid as it is beyond the maximum line of sight in the DEM.
pub proof fn law_tvs_id_goes_by_rows(dem: DEM, pov_id: int)
    requires
        dem.wf(),
        dem.width > 0,
        dem.max_los_as_points <= pov_id % (dem.width as int) < dem.max_los_as_points + dem.tvs_width,
    ensures
        dem.spec_pov_id_to_tvs_id(pov_id) / (dem.tvs_width as int) == pov_id / (dem.width as int)
            - dem.max_los_as_points,
        dem.spec_pov_id_to_tvs_id(pov_id) % (dem.tvs_width as int) == pov_id % (dem.width as int)
            - dem.max_los_as_points,
{
    law_coordinates_of_index(
        pov_id % (dem.width as int) - dem.max_los_as_points,
        pov_id / (dem.width as int) - dem.max_los_as_points,
        dem.tvs_width as int,
    );
}

/// A point of the sub-grid is a third of the DEM further down and further right in the DEM.
pub proof fn law_dem_id_goes_by_rows(tvs_id: int, tvs_width: int)
    requires
        0 < tvs_width,
    ensures
        dem_id_of_tvs_id(tvs_id, tvs_width) / (3 * tvs_width) == tvs_id / tvs_width + tvs_width,
        dem_id_of_tvs_id(tvs_id, tvs_width) % (3 * tvs_width) == tvs_id % tvs_width + tvs_width,
{
    law_index_of_coordinates(tvs_id, tvs_width);
    law_coordinates_of_index(
        tvs_id % tvs_width + tvs_width,
        tvs_id / tvs_width + tvs_width,
        3 * tvs_width,
    );
}

/// A viewshed can be made for a point exactly when the lines of sight in all four directions, along
/// its row and along its column, stay within the DEM.
pub proof fn law_computable_points_see_all_around(dem: DEM, dem_id: int)
    requires
        dem.wf(),
        dem.width > 0,
        0 <= dem_id < dem.size,
    ensures
        dem.spec_is_computable(dem_id) <==> {
            let column = dem_id % (dem.width as int);
            let row = dem_id / (dem.width as int);
            &&& 0 <= column - dem.max_los_as_points
            &&& column + dem.max_los_as_points < dem.width
            &&& 0 <= row - dem.max_los_as_points
            &&& row + dem.max_los_as_points < dem.width
        },
{
}

/// The computable points are those of a square in the middle third of the DEM, in either direction.
pub proof fn law_sizes_fit_together(dem: DEM)
    requires
        dem.wf(),
    ensures
        3 * dem.tvs_width == dem.width,
        dem.size == dem.width * dem.width,
        dem.computable_points_count == dem.tvs_width * dem.tvs_width,
        2 * dem.max_los_as_points <= dem.width,
{
}

} // verus!
