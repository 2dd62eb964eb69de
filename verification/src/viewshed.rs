//! A viewshed is a (multi)polygon representing all the visible terrain visible from a given point.
//!
//! What has to be known to reconstruct one: what to look up, and where the observer stands.

use crate::db::ID;
use crate::dem;
use crate::dem::{Coordinate, DEM};
use crate::integers;
use crate::pre_process;
use crate::pre_process::get_neighbourhood_id;
use crate::runs;
use crate::segments;
use crate::segments::Segment;
use vstd::prelude::*;

verus! {

/// Why there is no viewshed.
#[derive(Debug, Clone, Copy, PartialEq, Eq, Structural)]
pub enum ViewshedError {
    /// The point of view is not calculable.
    NotCalculable(Coordinate),
}

/// How to look up the polar segments for a point of a DEM. Where only the biggest viewshed of each
/// neighbourhood was saved, it is that of the point's neighbourhood.
pub open spec fn lookup_of(dem_id: int, width: int, neighbourhood_size: int) -> ID {
    if neighbourhood_size == 0 {
        ID::DEM(dem_id as i64)
    } else {
        ID::Neighbourhood(
            pre_process::neighbourhood_of(
                dem_id,
                width,
                integers::square_root(neighbourhood_size),
            ) as i64,
        )
    }
}

/// How to look up the polar segments for a point of a DEM.
pub fn lookup(dem_id: u32, width: u32, neighbourhood_size: u32) -> (id: ID)
    requires
        neighbourhood_size > 0 ==> width > 0,
    ensures
        id == lookup_of(dem_id as int, width as int, neighbourhood_size as int),
{
    if neighbourhood_size == 0 {
        return ID::DEM(dem_id as i64);
    }
    proof {
        pre_process::lemma_neighbourhood_range(
            dem_id as int,
            width as int,
            integers::square_root(neighbourhood_size as int),
            neighbourhood_size as int,
        );
    }
    ID::Neighbourhood(
        get_neighbourhood_id(dem_id as i64, width as i64, neighbourhood_size as i64),
    )
}

/// Where the observer of a viewshed stands: at the requested point, or, where only the biggest
/// viewshed of each neighbourhood was saved, at the point that has it.
pub fn point_of_view(
    requested: Coordinate,
    loaded_dem_id: i64,
    width: u32,
    neighbourhood_size: u32,
) -> (point: Coordinate)
    requires
        neighbourhood_size > 0 ==> width > 0,
    ensures
        neighbourhood_size == 0 ==> point == requested,
        neighbourhood_size > 0 ==> {
            &&& point.x == dem::column_of(loaded_dem_id as int, width as int)
            &&& point.y == dem::row_of(loaded_dem_id as int, width as int)
        },
{
    if neighbourhood_size == 0 {
        return requested;
    }
    coordinate_of(loaded_dem_id, width)
}

/// Convert a DEM 1D index to a 2D coordinate.
pub fn coordinate_of(dem_id: i64, width: u32) -> (coordinate: Coordinate)
    requires
        width > 0,
    ensures
        coordinate.x == dem::column_of(dem_id as int, width as int),
        coordinate.y == dem::row_of(dem_id as int, width as int),
{
    assert(i64::MIN <= dem_id as int / width as int <= i64::MAX) by (nonlinear_arith)
        requires
            width >= 1,
            i64::MIN <= dem_id <= i64::MAX,
    ;
    Coordinate {
        x: integers::rem_euclid(dem_id, width as i64),
        y: integers::div_euclid(dem_id, width as i64),
    }
}

/// One visible region of a viewshed, in polar coordinates.
#[derive(Debug, Clone, Copy, PartialEq, Eq, Structural)]
pub struct Section {
    /// The angle it is seen at.
    pub angle: usize,
    /// The distance in points to where it opens.
    pub opening: u32,
    /// The distance in points to where it closes.
    pub closing: u32,
}

/// The region that a segment stands for.
pub open spec fn section_of(angle: int, segment: Segment) -> Section {
    Section {
        angle: angle as usize,
        opening: segment.spec_start() as u32,
        closing: (segment.spec_start() + segment.spec_distance()) as u32,
    }
}

/// The regions that the first `count` segments at an angle stand for.
pub open spec fn sections_at(angle: int, segments: Seq<Segment>, count: int) -> Seq<Section> {
    Seq::new(count as nat, |i: int| section_of(angle, segments[i]))
}

/// The regions that the segments at the first `count` angles stand for.
pub open spec fn sections_of(data: Seq<Vec<Segment>>, count: int) -> Seq<Section>
    decreases count,
{
    if count <= 0 {
        Seq::empty()
    } else {
        sections_of(data, count - 1) + sections_at(
            count - 1,
            data[count - 1]@,
            data[count - 1]@.len() as int,
        )
    }
}

/// Find the visible regions in polar segments, given for one angle after the other.
pub fn parse_polar_segments(data: &[Vec<Segment>]) -> (sections: Vec<Section>)
    requires
        forall|angle: int, i: int|
            0 <= angle < data@.len() && 0 <= i < data@[angle]@.len() ==> (
            #[trigger] data@[angle]@[i]).spec_start() + data@[angle]@[i].spec_distance()
                <= u16::MAX,
    ensures
        sections@ == sections_of(data@, data@.len() as int),
{
    let mut sections: Vec<Section> = Vec::new();
    let mut angle: usize = 0;
    while angle < data.len()
        invariant
            forall|angle: int, i: int|
                0 <= angle < data@.len() && 0 <= i < data@[angle]@.len() ==> (
                #[trigger] data@[angle]@[i]).spec_start() + data@[angle]@[i].spec_distance()
                    <= u16::MAX,
            angle <= data@.len(),
            sections@ == sections_of(data@, angle as int),
        decreases data@.len() - angle,
    {
        let segments: &Vec<Segment> = &data[angle];
        let ghost before = sections@;
        let mut index: usize = 0;
        assert(before + sections_at(angle as int, segments@, 0) =~= before);
        while index < segments.len()
            invariant
                forall|i: int|
                    0 <= i < segments@.len() ==> (#[trigger] segments@[i]).spec_start()
                        + segments@[i].spec_distance() <= u16::MAX,
                index <= segments@.len(),
                sections@ == before + sections_at(angle as int, segments@, index as int),
            decreases segments@.len() - index,
        {
            let segment: Segment = segments[index];
            let opening: u32 = segment.start() as u32;
            let closing: u32 = (segment.start() + segment.distance()) as u32;
            sections.push(Section { angle, opening, closing });
            index += 1;
            assert(sections@ =~= before + sections_at(angle as int, segments@, index as int));
        }
        angle += 1;
    }
    sections
}

/// Whether a point along the line of sight at an angle is in a region.
pub open spec fn is_in_section(section: Section, angle: int, index: int) -> bool {
    section.angle == angle && section.opening <= index < section.closing
}

/// What is seen in a viewshed is what the line of sight at each angle saw: a point is visible exactly
/// where a region at that angle covers it.
pub proof fn law_sections_tell_visibility(
    data: Seq<Vec<Segment>>,
    angle: int,
    bitmap: Seq<bool>,
    index: int,
)
    requires
        data.len() <= usize::MAX,
        0 <= angle < data.len(),
        runs::are_runs(bitmap, segments::runs_of(data[angle]@)),
        bitmap.len() <= u16::MAX,
        0 <= index < bitmap.len(),
    ensures
        bitmap[index] <==> exists|k: int|
            0 <= k < sections_of(data, data.len() as int).len() && #[trigger] is_in_section(
                sections_of(data, data.len() as int)[k],
                angle,
                index,
            ),
{
    let sections = sections_of(data, data.len() as int);
    let all = data[angle]@;
    let visible = segments::runs_of(all);
    if bitmap[index] {
        assert(runs::is_covered(visible, index));
        let i = choose|i: int| 0 <= i < visible.len() && (#[trigger] visible[i]).covers(index);
        assert(runs::is_visible_run(bitmap, visible[i]));
        let k = lemma_section_is_there(data, data.len() as int, angle, i);
        assert(is_in_section(sections[k], angle, index));
    }
    if exists|k: int| 0 <= k < sections.len() && #[trigger] is_in_section(sections[k], angle, index) {
        let k = choose|k: int|
            0 <= k < sections.len() && #[trigger] is_in_section(sections[k], angle, index);
        let (at, i) = lemma_section_is_of(data, data.len() as int, k);
        assert(at == angle);
        assert(visible[i] == all[i].run());
        assert(runs::is_visible_run(bitmap, visible[i]));
        assert(visible[i].covers(index));
    }
}

/// Every segment has its region.
proof fn lemma_section_is_there(data: Seq<Vec<Segment>>, count: int, angle: int, i: int) -> (k: int)
    requires
        0 <= angle < count <= data.len(),
        0 <= i < data[angle]@.len(),
    ensures
        0 <= k < sections_of(data, count).len(),
        sections_of(data, count)[k] == section_of(angle, data[angle]@[i]),
    decreases count,
{
    let before = sections_of(data, count - 1);
    if angle == count - 1 {
        before.len() + i
    } else {
        lemma_section_is_there(data, count - 1, angle, i)
    }
}

/// Every region has its segment.
proof fn lemma_section_is_of(data: Seq<Vec<Segment>>, count: int, k: int) -> (of: (int, int))
    requires
        0 <= count <= data.len(),
        0 <= k < sections_of(data, count).len(),
    ensures
        0 <= of.0 < count,
        0 <= of.1 < data[of.0]@.len(),
        sections_of(data, count)[k] == section_of(of.0, data[of.0]@[of.1]),
    decreases count,
{
    let before = sections_of(data, count - 1);
    if k >= before.len() {
        (count - 1, k - before.len())
    } else {
        lemma_section_is_of(data, count - 1, k)
    }
}

/// Check that a whole viewshed can be calculated for the point of view.
pub fn check_computable(dem: &DEM, point_of_view: Coordinate) -> (pov_id: Result<
    u32,
    ViewshedError,
>)
    requires
        dem.wf(),
        dem.width > 0,
    ensures
        ({
            let id = crate::rotator::clamped(
                dem::index_of(point_of_view.x as int, point_of_view.y as int, dem.width as int),
                0,
                u32::MAX as int,
            );
            pov_id == (if dem.spec_is_computable(id) {
                Ok(id as u32)
            } else {
                Err(ViewshedError::NotCalculable(point_of_view))
            })
        }),
{
    let pov_id: u32 = dem.dem_coord_to_id(point_of_view);
    if !dem.is_point_computable(pov_id) {
        return Err(ViewshedError::NotCalculable(point_of_view));
    }
    Ok(pov_id)
}

/// Points are looked up by themselves, or by their neighbourhood where only the biggest viewshed of
/// each neighbourhood was saved. Then all points of a neighbourhood are looked up alike.
pub proof fn law_lookup_by_neighbourhood(
    left: int,
    right: int,
    width: int,
    neighbourhood_size: int,
)
    requires
        neighbourhood_size >= 0,
    ensures
        neighbourhood_size == 0 ==> lookup_of(left, width, 0) == ID::DEM(left as i64),
        neighbourhood_size > 0 ==> lookup_of(left, width, neighbourhood_size) is Neighbourhood,
        neighbourhood_size > 0 && pre_process::neighbourhood_of(
            left,
            width,
            integers::square_root(neighbourhood_size),
        ) == pre_process::neighbourhood_of(
            right,
            width,
            integers::square_root(neighbourhood_size),
        ) ==> lookup_of(left, width, neighbourhood_size) == lookup_of(
            right,
            width,
            neighbourhood_size,
        ),
{
}

/// How many segments there are at the first `count` angles.
pub open spec fn segments_before(data: Seq<Vec<Segment>>, count: int) -> int {
    integers::sum(|angle: int| data[angle]@.len() as int, count)
}

/// Regions go by angles, and at each angle by segments: there is one for each segment, from where it
/// starts to where it ends.
pub proof fn law_regions_go_by_angles(data: Seq<Vec<Segment>>, count: int, angle: int, i: int)
    requires
        0 <= angle < count <= data.len() <= usize::MAX,
        0 <= i < data[angle]@.len(),
    ensures
        sections_of(data, count).len() == segments_before(data, count),
        0 <= segments_before(data, angle) + i < segments_before(data, count),
        ({
            let section = sections_of(data, count)[segments_before(data, angle) + i];
            &&& section.angle == angle
            &&& section.opening == data[angle]@[i].spec_start()
            &&& section.closing - section.opening == data[angle]@[i].spec_distance()
        }),
    decreases count,
{
    lemma_as_many_regions(data, count - 1);
    if angle < count - 1 {
        law_regions_go_by_angles(data, count - 1, angle, i);
    }
}

/// There are as many regions as segments.
proof fn lemma_as_many_regions(data: Seq<Vec<Segment>>, count: int)
    requires
        0 <= count <= data.len(),
    ensures
        sections_of(data, count).len() == segments_before(data, count),
    decreases count,
{
    if count > 0 {
        lemma_as_many_regions(data, count - 1);
    }
}

/// What was saved as the biggest viewshed of a neighbourhood is what is looked up for its point.
pub proof fn law_saved_viewsheds_are_looked_up(
    viewsheds_to_save: Map<i64, i64>,
    dem_id: int,
    width: int,
    neighbourhood_size: int,
)
    requires
        neighbourhood_size > 0,
    ensures
        pre_process::saved_as(viewsheds_to_save, dem_id, width, neighbourhood_size) matches Some(id)
            ==> lookup_of(dem_id, width, neighbourhood_size) == ID::Neighbourhood(id)
            && viewsheds_to_save.contains_key(id) && viewsheds_to_save[id] == dem_id,
{
}

} // verus!
