//! Code for managing elevation data.

use crate::rotation;
use vstd::prelude::*;

verus! {

/// The nodata value from NASA's SRTM data.
pub const NODATA: i16 = i16::MIN;

/// The direction of a band from the observer's point of view. Whether it points North or South is
/// not relevant, they're just opposite to each other.
#[derive(Clone, Copy, Debug, PartialEq, Eq, Structural)]
pub enum Direction {
    /// A line of sight facing forward from the observer.
    Forward,
    /// A line of sight facing behind the observer.
    Backward,
}

/// The ID of the point that is `steps` away.
pub open spec fn point_after(direction: Direction, start: int, steps: int) -> int {
    match direction {
        Direction::Forward => start + steps,
        Direction::Backward => start - steps,
    }
}

/// What there is along a line of sight, gaps included, from the point of view on.
pub open spec fn elevations_along(
    elevations: Seq<i16>,
    direction: Direction,
    start: int,
    count: int,
) -> Seq<i16> {
    Seq::new(count as nat, |i: int| elevations[point_after(direction, start, i)])
}

/// Manage fetching valid elevation data.
pub struct Elevations {
    /// Whether going forwards or backwards along the line of sight.
    pub direction: Direction,
    /// The DEM ID of the current elevation point in rotated space.
    pub rotated_dem_id: usize,
    /// A record of the last valid elevation. Used to fill "nodata" regions.
    ///
    /// Note that even though most, if not all, of these "nodata" regions occur at sea, that
    /// doesn't necessarily mean that a default elevation of 0 is best. There are various reasons
    /// why the sea isn't always at a perfect 0 elevation, which we won't go into here. The
    /// point being that we need to smoothly transition into "nodata" regions to avoid visual
    /// artefacts.
    pub last_valid_elevation: i16,
}

impl Elevations {
    /// Instantiate. The last valid elevation is that of the observer.
    pub fn new(elevations: &[i16], direction: Direction, rotated_dem_id: usize) -> (fetcher: Self)
        requires
            rotated_dem_id < elevations@.len(),
        ensures
            fetcher.direction == direction,
            fetcher.rotated_dem_id == rotated_dem_id,
            fetcher.last_valid_elevation == (if elevations@[rotated_dem_id as int] == NODATA {
                0
            } else {
                elevations@[rotated_dem_id as int]
            }),
    {
        let elevation: i16 = elevations[rotated_dem_id];
        let last_valid_elevation: i16 = if Self::is_valid(elevation) {
            elevation
        } else {
            0
        };
        Elevations { direction, rotated_dem_id, last_valid_elevation }
    }

    /// Get the next elevation.
    pub fn next(&mut self, elevations: &[i16]) -> (elevation: i16)
        requires
            0 <= point_after(old(self).direction, old(self).rotated_dem_id as int, 1)
                < elevations@.len(),
        ensures
            final(self).direction == old(self).direction,
            final(self).rotated_dem_id == point_after(
                old(self).direction,
                old(self).rotated_dem_id as int,
                1,
            ),
            elevation == (if elevations@[final(self).rotated_dem_id as int] == NODATA {
                old(self).last_valid_elevation
            } else {
                elevations@[final(self).rotated_dem_id as int]
            }),
            final(self).last_valid_elevation == elevation,
    {
        assert(elevations.len() == elevations@.len());
        match self.direction {
            Direction::Forward => self.rotated_dem_id = self.rotated_dem_id + 1,
            Direction::Backward => self.rotated_dem_id = self.rotated_dem_id - 1,
        }
        let elevation: i16 = elevations[self.rotated_dem_id];
        if Self::is_valid(elevation) {
            self.last_valid_elevation = elevation;
        }
        self.last_valid_elevation
    }

    /// Is the elevation valid.
    fn is_valid(elevation: i16) -> (valid: bool)
        ensures
            valid == (elevation != NODATA),
    {
        elevation > NODATA
    }
}

/// The elevations along a line of sight, from that of the point of view on, with every gap filled.
pub fn along_band(elevations: &[i16], direction: Direction, start: usize, max_los: u32) -> (along: Vec<
    i16,
>)
    requires
        start < elevations@.len(),
        0 <= point_after(direction, start as int, max_los as int) < elevations@.len(),
    ensures
        along@ == rotation::filled(
            elevations_along(elevations@, direction, start as int, max_los + 1),
        ),
{
    let ghost raw = elevations_along(elevations@, direction, start as int, max_los + 1);
    let mut fetcher = Elevations::new(elevations, direction, start);
    let mut along: Vec<i16> = Vec::new();
    along.push(fetcher.last_valid_elevation);
    assert(rotation::last_seen(raw, 0 - 1) == 0);
    let mut index: u32 = 0;
    while index < max_los
        invariant
            index <= max_los,
            raw == elevations_along(elevations@, direction, start as int, max_los + 1),
            start < elevations@.len(),
            0 <= point_after(direction, start as int, max_los as int) < elevations@.len(),
            along@.len() == index + 1,
            fetcher.direction == direction,
            fetcher.rotated_dem_id == point_after(direction, start as int, index as int),
            fetcher.last_valid_elevation == rotation::last_seen(raw, index as int),
            forall|i: int|
                0 <= i <= index ==> #[trigger] along@[i] == rotation::last_seen(raw, i),
        decreases max_los - index,
    {
        let elevation: i16 = fetcher.next(elevations);
        index += 1;
        assert(raw[index as int] == elevations@[point_after(direction, start as int, index as int)]);
        along.push(elevation);
    }
    assert(along@ =~= rotation::filled(raw));
    along
}

/// A band goes one point at a time from the point of view on: forwards to higher IDs, and backwards
/// to lower ones.
pub proof fn law_bands_go_both_ways(elevations: Seq<i16>, start: int, count: int, i: int)
    requires
        0 <= i < count,
    ensures
        elevations_along(elevations, Direction::Forward, start, count).len() == count,
        elevations_along(elevations, Direction::Backward, start, count).len() == count,
        elevations_along(elevations, Direction::Forward, start, count)[i] == elevations[start + i],
        elevations_along(elevations, Direction::Backward, start, count)[i] == elevations[start - i],
        point_after(Direction::Backward, point_after(Direction::Forward, start, i), i) == start,
{
}

/// Looking back from the end of a band shows the same elevations in reverse.
pub proof fn law_bands_can_be_reversed(elevations: Seq<i16>, start: int, count: int)
    requires
        0 < count,
    ensures
        elevations_along(elevations, Direction::Forward, start, count).reverse()
            == elevations_along(elevations, Direction::Backward, start + count - 1, count),
{
    assert(elevations_along(elevations, Direction::Forward, start, count).reverse()
        =~= elevations_along(elevations, Direction::Backward, start + count - 1, count));
}

} // verus!
