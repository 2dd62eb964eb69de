//! For every sector (angle of the viewshed) we only need to rotate a horizontal rectangular
//! region of the DEM. We refer to this as the "Chocolate Box". This saves both computation and
//! memory.
//!
//! Consider this _rotated_ DEM, where:
//!   `·` is unused elevation data
//!   `x` is auxiliary data
//!   `o` is the TVS
//!
//!   · · · · · · · · ·
//!   · · · · · · · · ·
//!   · · · · · · · · ·
//!   x x x o o o x x x
//!   x x x o o o x x x
//!   x x x o o o x x x
//!   · · · · · · · · ·
//!   · · · · · · · · ·
//!   · · · · · · · · ·
//!
//! The Chocolate Box is the region made up of the `x` and `o`. Note that this is how it looks for
//! every single angle. The difference is that for each angle the source of the elevations is
//! different.

use crate::constants::Constants;
use crate::dem;
use vstd::prelude::*;

verus! {

/// A DEM ID for which a rotation cannot be made.
pub const NOOP_DEM_ID: usize = usize::MAX;

/// A point of a grid.
#[derive(Clone, Copy, Debug, PartialEq, Eq, Structural)]
pub struct GridPoint {
    /// The distance from the left.
    pub x: u32,
    /// The distance from the top.
    pub y: u32,
}

/// Rotate elevations to the Chocolate Box.
pub struct Rotator {
    /// The index of the elevation point in the Chocolate Box.
    pub index: u32,
    /// The number of points in the width of the DEM.
    pub width: u32,
    /// The number of points before reaching the Chocolate Box.
    pub offset: u32,
}

impl Rotator {
    /// Instantiate.
    pub fn new(index: u32, dem_width: u32, tvs_width: u32) -> (rotator: Self)
        requires
            3 * tvs_width <= u32::MAX,
            tvs_width / 2 <= dem_width / 2,
            spec_offset(dem_width as int, tvs_width as int) <= u32::MAX,
        ensures
            rotator.index == index,
            rotator.width == 3 * tvs_width,
            rotator.offset == spec_offset(dem_width as int, tvs_width as int),
    {
        Rotator { index, width: tvs_width * 3, offset: offset(dem_width, tvs_width) }
    }

    /// Convert an index to an x,y coordinate.
    pub fn index_to_coord(&self, index: u32) -> (coordinate: GridPoint)
        requires
            self.width > 0,
        ensures
            coordinate.x == dem::column_of(index as int, self.width as int),
            coordinate.y == dem::row_of(index as int, self.width as int),
    {
        GridPoint { x: index % self.width, y: index / self.width }
    }

    /// Convert an x,y coordinate to a DEM ID.
    pub fn coord_to_index(&self, coordinate: GridPoint) -> (index: u32)
        requires
            dem::index_of(coordinate.x as int, coordinate.y as int, self.width as int) <= u32::MAX,
        ensures
            index == dem::index_of(coordinate.x as int, coordinate.y as int, self.width as int),
    {
        assert(0 <= coordinate.y * self.width) by (nonlinear_arith)
            requires
                0 <= coordinate.y,
                0 <= self.width,
        ;
        coordinate.y * self.width + coordinate.x
    }

    /// Convert a Chocolate ID index to an x,y coordinate.
    pub fn chocolate_id_to_coord(&self) -> (coordinate: GridPoint)
        requires
            self.width > 0,
            self.offset + self.index <= u32::MAX,
        ensures
            coordinate.x == dem::column_of(self.offset + self.index, self.width as int),
            coordinate.y == dem::row_of(self.offset + self.index, self.width as int),
    {
        let index: u32 = self.offset + self.index;
        self.index_to_coord(index)
    }

    /// The scalar index of a rotated coordinate, if it could be rotated.
    pub fn rotate_coordinate_to_index(&self, rotated: Option<GridPoint>) -> (dem_id: usize)
        requires
            rotated matches Some(point) ==> dem::index_of(
                point.x as int,
                point.y as int,
                self.width as int,
            ) <= u32::MAX,
        ensures
            dem_id == (match rotated {
                Some(point) => dem::index_of(point.x as int, point.y as int, self.width as int),
                None => NOOP_DEM_ID as int,
            }),
    {
        match rotated {
            Some(point) => self.coord_to_index(point) as usize,
            None => NOOP_DEM_ID,
        }
    }

    /// Rotate a single point using nearest neighbour: it gets the elevation of the point that it
    /// is rotated to. There is no data where it could not be rotated.
    pub fn anti_rotate_value_nearest_neighbour(
        &self,
        rotated: Option<GridPoint>,
        elevations_in: &[i16],
        elevations_out: &mut [i16],
    )
        requires
            self.index < old(elevations_out)@.len(),
            rotated matches Some(point) ==> dem::index_of(
                point.x as int,
                point.y as int,
                self.width as int,
            ) < elevations_in@.len() && elevations_in@.len() <= u32::MAX,
        ensures
            final(elevations_out)@ == old(elevations_out)@.update(
                self.index as int,
                match rotated {
                    Some(point) => elevations_in@[dem::index_of(
                        point.x as int,
                        point.y as int,
                        self.width as int,
                    )],
                    None => crate::elevations::NODATA,
                },
            ),
    {
        let rotated_dem_id: usize = self.rotate_coordinate_to_index(rotated);
        proof {
            if let Some(point) = rotated {
                assert(0 <= point.y * self.width) by (nonlinear_arith)
                    requires
                        0 <= point.y,
                        0 <= self.width,
                ;
            }
        }
        assert(elevations_in.len() == elevations_in@.len());
        let elevation: i16 = if rotated_dem_id == NOOP_DEM_ID {
            crate::elevations::NODATA
        } else {
            elevations_in[rotated_dem_id]
        };
        elevations_out[self.index as usize] = elevation;
    }
}

/// The size of the Chocolate Box.
pub fn size(dem_width: u32, tvs_width: u32) -> (size: u32)
    requires
        dem_width * tvs_width <= u32::MAX,
    ensures
        size == dem_width * tvs_width,
{
    dem_width * tvs_width
}

/// Where the Chocolate Box starts in the DEM: half of its rows are above the centre.
pub open spec fn spec_offset(dem_width: int, tvs_width: int) -> int {
    dem::index_of(0, dem_width / 2 - tvs_width / 2, dem_width)
}

/// Where the chocolate box starts in the DEM.
pub fn offset(dem_width: u32, tvs_width: u32) -> (offset: u32)
    requires
        tvs_width / 2 <= dem_width / 2,
        spec_offset(dem_width as int, tvs_width as int) <= u32::MAX,
    ensures
        offset == spec_offset(dem_width as int, tvs_width as int),
{
    let x: u32 = 0;
    let y_centre: u32 = dem_width / 2;
    let y: u32 = y_centre - tvs_width / 2;
    (y * dem_width) + x
}

/// Where a point of the sub-grid is in the Chocolate Box: in the middle third of a row.
pub open spec fn chocolate_id(rotated_tvs_id: int, tvs_width: int, dem_width: int) -> int {
    dem::index_of(
        dem::column_of(rotated_tvs_id, tvs_width) + tvs_width,
        dem::row_of(rotated_tvs_id, tvs_width),
        dem_width,
    )
}

/// Calculate where we are in the Chocolate Box elevations array.
pub fn chocolate_id_from_tvs_id(rotated_tvs_id: u32, constants: &Constants) -> (id: usize)
    requires
        constants.tvs_width > 0,
        chocolate_id(
            rotated_tvs_id as int,
            constants.tvs_width as int,
            constants.dem_width as int,
        ) <= u32::MAX,
    ensures
        id == chocolate_id(
            rotated_tvs_id as int,
            constants.tvs_width as int,
            constants.dem_width as int,
        ),
{
    let tvs_x: u32 = rotated_tvs_id % constants.tvs_width;
    let tvs_y: u32 = rotated_tvs_id / constants.tvs_width;
    assert(0 <= tvs_y * constants.dem_width) by (nonlinear_arith)
        requires
            0 <= tvs_y,
            0 <= constants.dem_width,
    ;
    ((tvs_y * constants.dem_width) + (tvs_x + constants.tvs_width)) as usize
}

/// Nobody looks out of the Chocolate Box: around every point of the sub-grid there are as many
/// points in its row as the sub-grid is wide, in either direction.
pub proof fn law_bands_are_in_box(rotated_tvs_id: int, tvs_width: int, dem_width: int)
    requires
        0 < tvs_width,
        dem_width == 3 * tvs_width,
        0 <= rotated_tvs_id < tvs_width * tvs_width,
    ensures
        ({
            let id = chocolate_id(rotated_tvs_id, tvs_width, dem_width);
            &&& tvs_width <= id
            &&& id + tvs_width < dem_width * tvs_width
            &&& dem::row_of(id - tvs_width, dem_width) == dem::row_of(id + tvs_width, dem_width)
        }),
{
    let x = dem::column_of(rotated_tvs_id, tvs_width);
    let y = dem::row_of(rotated_tvs_id, tvs_width);
    dem::law_index_of_coordinates(rotated_tvs_id, tvs_width);
    assert(0 <= y < tvs_width) by (nonlinear_arith)
        requires
            y * tvs_width + x == rotated_tvs_id,
            0 <= x < tvs_width,
            0 <= rotated_tvs_id < tvs_width * tvs_width,
    ;
    let id = chocolate_id(rotated_tvs_id, tvs_width, dem_width);
    assert(0 <= y * dem_width && y * dem_width + dem_width <= dem_width * tvs_width)
        by (nonlinear_arith)
        requires
            0 <= y < tvs_width,
            0 <= dem_width,
    ;
    dem::law_coordinates_of_index(x, y, dem_width);
    dem::law_coordinates_of_index(x + 2 * tvs_width, y, dem_width);
}

/// The rows of the sub-grid are the rows of the Chocolate Box: a point is in the same row of both,
/// and as far from the middle third's left as from the left of the sub-grid.
pub proof fn law_rows_are_rows_of_box(rotated_tvs_id: int, tvs_width: int, dem_width: int)
    requires
        0 < tvs_width,
        dem_width == 3 * tvs_width,
        0 <= rotated_tvs_id < tvs_width * tvs_width,
    ensures
        chocolate_id(rotated_tvs_id, tvs_width, dem_width) / dem_width == rotated_tvs_id / tvs_width,
        chocolate_id(rotated_tvs_id, tvs_width, dem_width) % dem_width == rotated_tvs_id % tvs_width
            + tvs_width,
        (rotated_tvs_id + 1) % tvs_width != 0 ==> chocolate_id(
            rotated_tvs_id + 1,
            tvs_width,
            dem_width,
        ) == chocolate_id(rotated_tvs_id, tvs_width, dem_width) + 1,
        chocolate_id(rotated_tvs_id + tvs_width, tvs_width, dem_width) == chocolate_id(
            rotated_tvs_id,
            tvs_width,
            dem_width,
        ) + dem_width,
{
    let x = rotated_tvs_id % tvs_width;
    let y = rotated_tvs_id / tvs_width;
    dem::law_index_of_coordinates(rotated_tvs_id, tvs_width);
    dem::law_coordinates_of_index(x + tvs_width, y, dem_width);
    assert((y + 1) * tvs_width == y * tvs_width + tvs_width) by (nonlinear_arith);
    assert((y + 1) * dem_width == y * dem_width + dem_width) by (nonlinear_arith);
    dem::law_coordinates_of_index(x, y + 1, tvs_width);
    if x + 1 < tvs_width {
        dem::law_coordinates_of_index(x + 1, y, tvs_width);
    } else {
        dem::law_coordinates_of_index(0, y + 1, tvs_width);
    }
}

/// The Chocolate Box starts at the left of the DEM, and half of its rows are above the centre.
pub proof fn law_box_is_in_the_middle(dem_width: int, tvs_width: int)
    requires
        0 < dem_width,
        0 <= tvs_width,
    ensures
        spec_offset(dem_width, tvs_width) % dem_width == 0,
        spec_offset(dem_width, tvs_width) / dem_width + tvs_width / 2 == dem_width / 2,
{
    dem::law_coordinates_of_index(0, dem_width / 2 - tvs_width / 2, dem_width);
}

} // verus!
