//! A kernel for a map of rotated points that fixes vectors of 4 angles, and looks along them without
//! unrolling.

use crate::cpu_kernel;
use crate::cpu_kernel::dem_to_pov;
use crate::dem;
use crate::unrolled_los;
use crate::unrolled_los::generate_distances;
use crate::vector;
use crate::vector::{PrefixMax, VectorLos, LOWEST_ANGLE};
use vstd::prelude::*;

verus! {

/// The width of the vectors.
pub const VECTOR_WIDTH: usize = 4;

/// What is kept from one line of sight to the next.
pub struct ViewShed {
    /// The length of a line of sight in points.
    max_los: usize,
    /// The lowest of all angles, and then those of the line.
    angles: Vec<i32>,
    /// The distance to each point.
    distances: Vec<u32>,
}

impl ViewShed {
    /// The length of a line of sight in points.
    pub closed spec fn max_los(self) -> nat {
        self.max_los as nat
    }

    /// Whether the parts fit together.
    pub closed spec fn wf(self) -> bool {
        &&& 0 < self.max_los < u32::MAX
        &&& self.angles@.len() == self.max_los + 1
        &&& self.angles@[0] == LOWEST_ANGLE
        &&& self.distances@ == Seq::new(self.max_los as nat, |i: int| (i + 1) as u32)
    }

    /// Prepare for lines of sight of a whole number of vectors.
    pub fn new(max_los: usize) -> (viewshed: Self)
        requires
            max_los as int % VECTOR_WIDTH as int == 0,
            0 < max_los < u32::MAX,
        ensures
            viewshed.wf(),
            viewshed.max_los() == max_los,
    {
        ViewShed {
            max_los,
            distances: generate_distances(max_los),
            angles: vec![LOWEST_ANGLE; max_los + 1],
        }
    }

    /// `line_of_sight` calculates the line of sight along the angles of the points directly in
    /// front of the observer: the sum of the visible distances, and which points are visible.
    pub fn line_of_sight(&mut self, line: &[i32]) -> (sight: (u64, Vec<bool>))
        requires
            old(self).wf(),
            line@.len() == old(self).max_los(),
        ensures
            final(self).wf(),
            final(self).max_los() == old(self).max_los(),
            sight.0 == unrolled_los::visible_distance(
                unrolled_los::visibility(line@),
                line@.len() as int,
            ),
            sight.1@ == unrolled_los::visibility(line@),
    {
        let max_los: usize = self.max_los;
        let mut index: usize = 0;
        while index < max_los
            invariant
                max_los == line@.len() == self.max_los(),
                index <= max_los,
                self.wf(),
                self.max_los() == old(self).max_los(),
                forall|i: int| 0 <= i < index ==> #[trigger] self.angles@[i + 1] == line@[i],
            decreases max_los - index,
        {
            self.angles[index + 1] = line[index];
            index += 1;
        }

        let mut prefix: Vec<i32> = vec![LOWEST_ANGLE; max_los];
        let before = vstd::slice::slice_subrange(self.angles.as_slice(), 0, max_los);
        VectorLos::<4>::prefix_max(LOWEST_ANGLE, before, prefix.as_mut_slice());
        let mask = VectorLos::<4>::gt(line, prefix.as_slice());
        assert forall|i: int| 0 <= i < max_los implies mask@[i] == unrolled_los::is_visible(
            line@,
            i,
        ) by {
            unrolled_los::lemma_horizon_shifted(line@, self.angles@, i + 1);
            lemma_same_horizon(before@, self.angles@, i + 1);
            unrolled_los::lemma_visible_above_horizon(line@, i);
        }
        assert(mask@ =~= unrolled_los::visibility(line@));

        let mut heatmap: u64 = 0;
        let mut position: usize = 0;
        while position < max_los
            invariant
                position <= max_los == mask@.len() == self.max_los(),
                self.wf(),
                self.max_los() == old(self).max_los(),
                heatmap == unrolled_los::visible_distance(mask@, position as int),
            decreases max_los - position,
        {
            proof {
                unrolled_los::lemma_visible_distance_bounds(mask@, position as int + 1);
                assert((position + 1) * u32::MAX <= u64::MAX) by (nonlinear_arith)
                    requires
                        0 <= position < u32::MAX,
                ;
            }
            if mask[position] {
                heatmap += self.distances[position] as u64;
            }
            position += 1;
        }
        (heatmap, mask)
    }
}

/// The horizon over the first points does not depend on what comes after them.
proof fn lemma_same_horizon(few: Seq<i32>, many: Seq<i32>, count: int)
    requires
        0 <= count <= few.len() <= many.len(),
        few == many.take(few.len() as int),
    ensures
        vector::highest_of(LOWEST_ANGLE, few, count) == vector::highest_of(
            LOWEST_ANGLE,
            many,
            count,
        ),
    decreases count,
{
    if count > 0 {
        lemma_same_horizon(few, many, count - 1);
        assert(few[count - 1] == many[count - 1]);
    }
}

/// The ID in the sub-grid of the point of view number `number`: there are `max_los` of them in each
/// line of the rotation, in its first half.
pub open spec fn pov_id(indexes: Seq<i32>, max_los: int, number: int) -> int {
    let dem_id = indexes[number / max_los * (2 * max_los) + number % max_los] as int;
    let point = cpu_kernel::sub_grid_point(dem_id, 3 * max_los, max_los);
    dem::index_of(point.1, point.0, max_los)
}

/// Whether the ID of a point of view is one of the sub-grid.
pub open spec fn is_computed(indexes: Seq<i32>, max_los: int, number: int) -> bool {
    0 <= pov_id(indexes, max_los, number) < max_los * max_los
}

/// The heatmap once the first `count` points of view were looked from.
pub open spec fn heatmap_after(
    indexes: Seq<i32>,
    angles: Seq<Vec<i32>>,
    max_los: int,
    count: int,
) -> Seq<int>
    decreases count,
{
    if count <= 0 {
        Seq::new((max_los * max_los) as nat, |i: int| 0int)
    } else {
        let before = heatmap_after(indexes, angles, max_los, count - 1);
        if is_computed(indexes, max_los, count - 1) {
            before.update(
                pov_id(indexes, max_los, count - 1),
                unrolled_los::visible_distance(
                    unrolled_los::visibility(angles[count - 1]@),
                    max_los,
                ),
            )
        } else {
            before
        }
    }
}

/// What is seen from those of the first `count` points of view that are in the sub-grid.
pub open spec fn sectors_after(
    indexes: Seq<i32>,
    angles: Seq<Vec<i32>>,
    max_los: int,
    count: int,
) -> Seq<Seq<bool>>
    decreases count,
{
    if count <= 0 {
        Seq::empty()
    } else {
        let before = sectors_after(indexes, angles, max_los, count - 1);
        if is_computed(indexes, max_los, count - 1) {
            before.push(unrolled_los::visibility(angles[count - 1]@))
        } else {
            before
        }
    }
}

/// `kernel` will calculate the heatmap for a rotation of a DEM, and what is seen from each of the
/// points of view, assuming that the maximum line of sight is `max_los`. Each line of the rotation
/// is `2 * max_los` wide.
pub fn kernel(indexes: &[i32], angles: &[Vec<i32>], max_los: usize) -> (computed: (
    Vec<u64>,
    Vec<Vec<bool>>,
))
    requires
        max_los as int % VECTOR_WIDTH as int == 0,
        0 < max_los,
        9 * max_los * max_los <= i32::MAX,
        indexes@.len() == 2 * max_los * max_los,
        forall|i: int|
            0 <= i < indexes@.len() ==> 0 <= #[trigger] indexes@[i] < 9 * max_los * max_los,
        angles@.len() == max_los * max_los,
        forall|i: int| 0 <= i < angles@.len() ==> (#[trigger] angles@[i])@.len() == max_los,
    ensures
        cpu_kernel::as_ints(computed.0@) == heatmap_after(
            indexes@,
            angles@,
            max_los as int,
            max_los * max_los,
        ),
        computed.1@.map_values(|sector: Vec<bool>| sector@) == sectors_after(
            indexes@,
            angles@,
            max_los as int,
            max_los * max_los,
        ),
{
    assert(max_los <= max_los * max_los <= i32::MAX) by (nonlinear_arith)
        requires
            0 < max_los,
            9 * max_los * max_los <= i32::MAX,
    ;
    let area: usize = max_los * max_los;
    let mut heatmap: Vec<u64> = vec![0u64; area];
    let mut sector_data: Vec<Vec<bool>> = Vec::new();
    let mut vs = ViewShed::new(max_los);
    let mut number: usize = 0;
    proof {
        assert(cpu_kernel::as_ints(heatmap@) =~= heatmap_after(
            indexes@,
            angles@,
            max_los as int,
            0,
        ));
        assert(sector_data@.map_values(|sector: Vec<bool>| sector@) =~= sectors_after(
            indexes@,
            angles@,
            max_los as int,
            0,
        ));
    }
    while number < area
        invariant
            0 < max_los <= area == max_los * max_los <= i32::MAX,
            9 * max_los * max_los <= i32::MAX,
            number <= area,
            vs.wf(),
            vs.max_los() == max_los,
            heatmap@.len() == area,
            indexes@.len() == 2 * max_los * max_los,
            forall|i: int|
                0 <= i < indexes@.len() ==> 0 <= #[trigger] indexes@[i] < 9 * max_los * max_los,
            angles@.len() == max_los * max_los,
            forall|i: int| 0 <= i < angles@.len() ==> (#[trigger] angles@[i])@.len() == max_los,
            cpu_kernel::as_ints(heatmap@) == heatmap_after(
                indexes@,
                angles@,
                max_los as int,
                number as int,
            ),
            sector_data@.map_values(|sector: Vec<bool>| sector@) == sectors_after(
                indexes@,
                angles@,
                max_los as int,
                number as int,
            ),
        decreases area - number,
    {
        let line: usize = number / max_los;
        let pov: usize = number % max_los;
        proof {
            lemma_place(number as int, max_los as int);
            assert(9 * max_los * max_los == 9 * (max_los * max_los)) by (nonlinear_arith);
            assert(2 * max_los * max_los == 2 * (max_los * max_los)) by (nonlinear_arith);
        }
        let dem_id: i32 = indexes[line * (2 * max_los) + pov];
        proof {
            lemma_pov_fits(dem_id as int, max_los as int);
        }
        let tvs_id: i32 = dem_to_pov(dem_id, 3 * max_los, max_los);
        let ghost old_heatmap = heatmap@;
        let ghost old_sectors = sector_data@;
        if 0 <= tvs_id && (tvs_id as usize) < area {
            let (pixel, sector) = vs.line_of_sight(angles[number].as_slice());
            heatmap[tvs_id as usize] = pixel;
            sector_data.push(sector);
            proof {
                assert(cpu_kernel::as_ints(heatmap@) =~= cpu_kernel::as_ints(old_heatmap).update(
                    tvs_id as int,
                    pixel as int,
                ));
                assert(sector_data@.map_values(|sector: Vec<bool>| sector@)
                    =~= old_sectors.map_values(|sector: Vec<bool>| sector@).push(sector@));
            }
        }
        number += 1;
    }
    (heatmap, sector_data)
}

/// Every point of view has a place in the rotation.
proof fn lemma_place(number: int, max_los: int)
    requires
        0 < max_los,
        0 <= number < max_los * max_los,
    ensures
        0 <= number / max_los < max_los,
        0 <= number % max_los < max_los,
        0 <= number / max_los * (2 * max_los),
        number / max_los * (2 * max_los) + number % max_los < 2 * max_los * max_los,
{
    let line = number / max_los;
    let pov = number % max_los;
    vstd::arithmetic::div_mod::lemma_fundamental_div_mod(number, max_los);
    assert(0 <= pov < max_los);
    assert(0 <= line < max_los) by (nonlinear_arith)
        requires
            number == max_los * line + pov,
            0 <= pov < max_los,
            0 <= number < max_los * max_los,
            0 < max_los,
    ;
    assert(0 <= line * (2 * max_los) && line * (2 * max_los) + pov < 2 * max_los * max_los)
        by (nonlinear_arith)
        requires
            0 <= line < max_los,
            0 <= pov < max_los,
    ;
}

/// The ID of a point of the DEM fits.
proof fn lemma_pov_fits(dem_id: int, max_los: int)
    requires
        0 < max_los,
        9 * max_los * max_los <= i32::MAX,
        0 <= dem_id < 9 * max_los * max_los,
    ensures
        ({
            let point = cpu_kernel::sub_grid_point(dem_id, 3 * max_los, max_los);
            &&& i32::MIN <= point.0 * max_los <= i32::MAX
            &&& i32::MIN <= dem::index_of(point.1, point.0, max_los) <= i32::MAX
        }),
{
    let width = 3 * max_los;
    let (row, column) = (dem_id / width, dem_id % width);
    vstd::arithmetic::div_mod::lemma_fundamental_div_mod(dem_id, width);
    assert(0 <= column < width);
    assert(0 <= row < width) by (nonlinear_arith)
        requires
            dem_id == width * row + column,
            0 <= column < width,
            width == 3 * max_los,
            0 < max_los,
            0 <= dem_id < 9 * max_los * max_los,
    ;
    let (x, y) = (row - max_los, column - max_los);
    assert(-(max_los * max_los) <= x * max_los <= 2 * (max_los * max_los) - max_los)
        by (nonlinear_arith)
        requires
            -max_los <= x < 2 * max_los,
            0 < max_los,
    ;
    assert(max_los <= max_los * max_los) by (nonlinear_arith)
        requires
            0 < max_los,
    ;
    assert(9 * max_los * max_los == 9 * (max_los * max_los)) by (nonlinear_arith);
}

/// The points of view are those in the first half of each line, and their IDs in the sub-grid go by
/// its rows.
pub proof fn law_pov_id_goes_by_rows(indexes: Seq<i32>, max_los: int, line: int, pov: int)
    requires
        0 < max_los,
        0 <= pov < max_los,
        0 <= line,
    ensures
        ({
            let dem_id = indexes[line * (2 * max_los) + pov] as int;
            pov_id(indexes, max_los, line * max_los + pov) == (dem_id / (3 * max_los) - max_los)
                * max_los + (dem_id % (3 * max_los) - max_los)
        }),
{
    dem::law_coordinates_of_index(pov, line, max_los);
}

/// The heatmap holds for each point the surface that is seen from the last point of view that stands
/// for it, and nothing where there is none.
pub proof fn law_heatmap_holds_last_surface(
    indexes: Seq<i32>,
    angles: Seq<Vec<i32>>,
    max_los: int,
    count: int,
    t: int,
)
    requires
        0 <= count,
        0 <= t < max_los * max_los,
    ensures
        heatmap_after(indexes, angles, max_los, count).len() == max_los * max_los,
        (forall|number: int| 0 <= number < count ==> #[trigger] pov_id(indexes, max_los, number) != t)
            ==> heatmap_after(indexes, angles, max_los, count)[t] == 0,
        forall|number: int|
            0 <= number < count && #[trigger] pov_id(indexes, max_los, number) == t && (forall|
                later: int,
            |
                number < later < count ==> #[trigger] pov_id(indexes, max_los, later) != t)
                ==> heatmap_after(indexes, angles, max_los, count)[t]
                == unrolled_los::visible_distance(
                unrolled_los::visibility(angles[number]@),
                max_los,
            ),
    decreases count,
{
    if count > 0 {
        law_heatmap_holds_last_surface(indexes, angles, max_los, count - 1, t);
        let last = pov_id(indexes, max_los, count - 1);
        assert(last == pov_id(indexes, max_los, count - 1));
    }
}

/// There is a sector for each point of view in the sub-grid, in order, with what is seen from it.
pub proof fn law_sectors_are_of_points_in_grid(
    indexes: Seq<i32>,
    angles: Seq<Vec<i32>>,
    max_los: int,
    count: int,
)
    requires
        0 <= count,
    ensures
        sectors_after(indexes, angles, max_los, count) == Seq::new(
            count as nat,
            |number: int| number,
        ).filter(
            |number: int| 0 <= pov_id(indexes, max_los, number) < max_los * max_los,
        ).map_values(|number: int| unrolled_los::visibility(angles[number]@)),
    decreases count,
{
    reveal(Seq::filter);
    let all = Seq::new(count as nat, |number: int| number);
    if count > 0 {
        law_sectors_are_of_points_in_grid(indexes, angles, max_los, count - 1);
        assert(all.drop_last() =~= Seq::new((count - 1) as nat, |number: int| number));
    }
    assert(sectors_after(indexes, angles, max_los, count) =~= all.filter(
        |number: int| 0 <= pov_id(indexes, max_los, number) < max_los * max_los,
    ).map_values(|number: int| unrolled_los::visibility(angles[number]@)));
}

} // verus!
