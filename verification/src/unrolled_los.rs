//! Lines of sight: which points along a line can be seen from before its first point.
//!
//! Distances are counted in points. Angles are given by their place in the order of single
//! precision numbers, see [`crate::single::Single::key`].

use crate::vector;
use crate::vector::{PrefixMax, VectorLos, LOWEST_ANGLE};
use vstd::prelude::*;

verus! {

/// Whether the point at `index` is seen: it is at a higher angle than every point before it.
pub open spec fn is_visible(angles: Seq<i32>, index: int) -> bool {
    &&& angles[index] > LOWEST_ANGLE
    &&& forall|j: int| 0 <= j < index ==> angles[index] > #[trigger] angles[j]
}

/// Which of the points along a line are seen.
pub open spec fn visibility(angles: Seq<i32>) -> Seq<bool> {
    Seq::new(angles.len(), |i: int| is_visible(angles, i))
}

/// The sum of the distances to the visible ones of the first `count` points.
pub open spec fn visible_distance(bitmap: Seq<bool>, count: int) -> int
    decreases count,
{
    if count <= 0 {
        0
    } else if bitmap[count - 1] {
        visible_distance(bitmap, count - 1) + count
    } else {
        visible_distance(bitmap, count - 1)
    }
}

/// The distance to the last visible one of the first `count` points, and 0 if there is none.
pub open spec fn longest_line(bitmap: Seq<bool>, count: int) -> int
    decreases count,
{
    if count <= 0 {
        0
    } else if bitmap[count - 1] {
        count
    } else {
        longest_line(bitmap, count - 1)
    }
}

/// The points are looked at from nowhere below the horizon: a point is seen when it rises above
/// all that came before.
pub proof fn lemma_visible_above_horizon(angles: Seq<i32>, index: int)
    requires
        0 <= index < angles.len(),
    ensures
        is_visible(angles, index) <==> angles[index] > vector::highest_of(
            LOWEST_ANGLE,
            angles,
            index,
        ),
{
    lemma_horizon(angles, index, angles[index]);
}

/// The first point is always visible, unless it is at the lowest of all angles.
pub proof fn law_first_point_is_visible(angles: Seq<i32>)
    requires
        angles.len() > 0,
        angles[0] > LOWEST_ANGLE,
    ensures
        visibility(angles)[0],
{
}

/// Points that are seen rise, one above the other.
pub proof fn law_visible_points_rise(angles: Seq<i32>, near: int, far: int)
    requires
        0 <= near < far < angles.len(),
        visibility(angles)[near],
        visibility(angles)[far],
    ensures
        angles[near] < angles[far],
{
}

/// What is seen does not depend on what comes after it.
pub proof fn law_nothing_behind_hides(angles: Seq<i32>, count: int)
    requires
        0 <= count <= angles.len(),
    ensures
        visibility(angles.take(count)) == visibility(angles).take(count),
{
    assert forall|i: int| 0 <= i < count implies is_visible(angles.take(count), i) == is_visible(
        angles,
        i,
    ) by {
        if is_visible(angles.take(count), i) {
            assert forall|j: int| 0 <= j < i implies angles[i] > #[trigger] angles[j] by {
                assert(angles.take(count)[j] == angles[j]);
            }
        }
    }
    assert(visibility(angles.take(count)) =~= visibility(angles).take(count));
}

/// Being above the horizon is being above each of its points.
proof fn lemma_horizon(angles: Seq<i32>, count: int, angle: i32)
    requires
        0 <= count,
    ensures
        angle > vector::highest_of(LOWEST_ANGLE, angles, count) <==> (angle > LOWEST_ANGLE
            && forall|j: int| 0 <= j < count ==> angle > #[trigger] angles[j]),
    decreases count,
{
    if count > 0 {
        lemma_horizon(angles, count - 1, angle);
    }
}

/// The horizon over some points with a lowest angle before them is that over those points.
pub proof fn lemma_horizon_shifted(angles: Seq<i32>, shifted: Seq<i32>, count: int)
    requires
        1 <= count <= shifted.len(),
        shifted.len() == angles.len() + 1,
        shifted[0] == LOWEST_ANGLE,
        forall|i: int| 0 <= i < angles.len() ==> #[trigger] shifted[i + 1] == angles[i],
    ensures
        vector::highest_of(LOWEST_ANGLE, shifted, count) == vector::highest_of(
            LOWEST_ANGLE,
            angles,
            count - 1,
        ),
    decreases count,
{
    if count > 1 {
        lemma_horizon_shifted(angles, shifted, count - 1);
        assert(shifted[count - 2 + 1] == angles[count - 2]);
    } else {
        assert(vector::highest_of(LOWEST_ANGLE, shifted, 0) == LOWEST_ANGLE);
    }
}

/// The horizon can be carried from one stretch to the next.
proof fn lemma_horizon_carried(angles: Seq<i32>, start: int, stretch: Seq<i32>, count: int)
    requires
        0 <= start,
        0 <= count <= stretch.len(),
        start + stretch.len() <= angles.len(),
        stretch == angles.subrange(start, start + stretch.len()),
    ensures
        vector::highest_of(
            vector::highest_of(LOWEST_ANGLE, angles, start),
            stretch,
            count,
        ) == vector::highest_of(LOWEST_ANGLE, angles, start + count),
    decreases count,
{
    if count > 0 {
        lemma_horizon_carried(angles, start, stretch, count - 1);
        assert(stretch[count - 1] == angles[start + count - 1]);
    }
}

/// Adding up numbers.
pub open spec fn sum_of(lanes: Seq<u64>, count: int) -> int
    decreases count,
{
    if count <= 0 {
        0
    } else {
        sum_of(lanes, count - 1) + lanes[count - 1]
    }
}

/// The greatest of some numbers, and 0 if there is none.
pub open spec fn greatest_of(lanes: Seq<u32>, count: int) -> int
    decreases count,
{
    if count <= 0 {
        0
    } else if lanes[count - 1] > greatest_of(lanes, count - 1) {
        lanes[count - 1] as int
    } else {
        greatest_of(lanes, count - 1)
    }
}

/// Holds an unrolled heatmap and unrolled longest line of sight calculation: lane by lane, what is
/// accumulated from every stretch of a line.
///
/// Neither addition nor maximum depends on an order, so the lanes can be put together at the end.
pub struct UnrollVector<const UNROLL: usize, const VECTOR_WIDTH: usize> {
    /// `heatmap` contains the summation of visible distances which will be reduced to a single
    /// one at the end
    pub heatmap: Vec<u64>,
    /// `longest` contains many long lines of sight which will be reduced to a single
    /// line of sight at the end
    pub longest: Vec<u32>,
}

impl<const UNROLL: usize, const VECTOR_WIDTH: usize> UnrollVector<UNROLL, VECTOR_WIDTH> {
    /// Whether there are as many lanes of one as of the other.
    pub open spec fn wf(self) -> bool {
        &&& self.heatmap@.len() == UNROLL * VECTOR_WIDTH
        &&& self.longest@.len() == UNROLL * VECTOR_WIDTH
    }

    /// Nothing accumulated yet.
    pub fn new() -> (unrolled: Self)
        requires
            UNROLL * VECTOR_WIDTH <= usize::MAX,
        ensures
            unrolled.wf(),
            unrolled.heatmap@ == Seq::new((UNROLL * VECTOR_WIDTH) as nat, |i: int| 0u64),
            unrolled.longest@ == Seq::new((UNROLL * VECTOR_WIDTH) as nat, |i: int| 0u32),
    {
        let heatmap: Vec<u64> = vec![0u64; UNROLL * VECTOR_WIDTH];
        let longest: Vec<u32> = vec![0u32; UNROLL * VECTOR_WIDTH];
        assert(heatmap@ =~= Seq::new((UNROLL * VECTOR_WIDTH) as nat, |i: int| 0u64));
        assert(longest@ =~= Seq::new((UNROLL * VECTOR_WIDTH) as nat, |i: int| 0u32));
        UnrollVector { heatmap, longest }
    }

    /// Put all the lanes together.
    pub fn totals(&self) -> (totals: (u64, u32))
        requires
            sum_of(self.heatmap@, self.heatmap@.len() as int) <= u64::MAX,
        ensures
            totals.0 == sum_of(self.heatmap@, self.heatmap@.len() as int),
            totals.1 == greatest_of(self.longest@, self.longest@.len() as int),
    {
        let mut heat: u64 = 0;
        let mut index: usize = 0;
        while index < self.heatmap.len()
            invariant
                index <= self.heatmap@.len(),
                heat == sum_of(self.heatmap@, index as int),
                sum_of(self.heatmap@, self.heatmap@.len() as int) <= u64::MAX,
            decreases self.heatmap@.len() - index,
        {
            proof {
                lemma_sum_rises(self.heatmap@, index + 1, self.heatmap@.len() as int);
            }
            heat = heat + self.heatmap[index];
            index += 1;
        }
        let mut long: u32 = 0;
        index = 0;
        while index < self.longest.len()
            invariant
                index <= self.longest@.len(),
                long == greatest_of(self.longest@, index as int),
            decreases self.longest@.len() - index,
        {
            if self.longest[index] > long {
                long = self.longest[index];
            }
            index += 1;
        }
        (heat, long)
    }
}

/// A sum of more numbers is not less.
proof fn lemma_sum_rises(lanes: Seq<u64>, few: int, many: int)
    requires
        few <= many,
    ensures
        sum_of(lanes, few) <= sum_of(lanes, many),
    decreases many,
{
    if few < many && many > 0 {
        lemma_sum_rises(lanes, few, many - 1);
    }
}

/// `accumulate` accumulates the visible distances by comparing whether a point at a distance is
/// visible (angle > prefix). It outputs a bitmap of which distances are visible at their
/// respective locations.
pub fn accumulate<const UNROLL: usize, const VECTOR_WIDTH: usize>(
    init: UnrollVector<UNROLL, VECTOR_WIDTH>,
    angles: &[i32],
    prefix: &[i32],
    distances: &[u32],
    bitmap: &mut Vec<bool>,
) -> (accumulated: UnrollVector<UNROLL, VECTOR_WIDTH>)
    requires
        init.wf(),
        angles@.len() == prefix@.len() == distances@.len(),
        angles@.len() <= UNROLL * VECTOR_WIDTH,
        forall|i: int|
            0 <= i < init.heatmap@.len() ==> #[trigger] init.heatmap@[i] + u32::MAX <= u64::MAX,
    ensures
        accumulated.wf(),
        final(bitmap)@ == old(bitmap)@ + Seq::new(
            angles@.len(),
            |i: int| angles@[i] > prefix@[i],
        ),
        forall|i: int|
            0 <= i < init.heatmap@.len() ==> #[trigger] accumulated.heatmap@[i] == init.heatmap@[i] + (
            if i < angles@.len() && angles@[i] > prefix@[i] {
                distances@[i]
            } else {
                0
            }),
        forall|i: int|
            0 <= i < init.longest@.len() ==> #[trigger] accumulated.longest@[i] == (if i < angles@.len()
                && angles@[i] > prefix@[i] && distances@[i] > init.longest@[i] {
                distances@[i]
            } else {
                init.longest@[i]
            }),
{
    let mut heatmap: Vec<u64> = init.heatmap;
    let mut longest: Vec<u32> = init.longest;
    let mask: Vec<bool> = VectorLos::<VECTOR_WIDTH>::gt(angles, prefix);
    let mut index: usize = 0;
    while index < mask.len()
        invariant
            init.wf(),
            mask@ == Seq::new(angles@.len(), |i: int| angles@[i] > prefix@[i]),
            angles@.len() == prefix@.len() == distances@.len(),
            angles@.len() <= UNROLL * VECTOR_WIDTH,
            heatmap@.len() == init.heatmap@.len(),
            longest@.len() == init.longest@.len(),
            index <= mask@.len(),
            forall|i: int|
                0 <= i < init.heatmap@.len() ==> #[trigger] init.heatmap@[i] + u32::MAX <= u64::MAX,
            bitmap@ == old(bitmap)@ + mask@.take(index as int),
            forall|i: int|
                0 <= i < init.heatmap@.len() ==> #[trigger] heatmap@[i] == init.heatmap@[i] + (if i
                    < index && angles@[i] > prefix@[i] {
                    distances@[i]
                } else {
                    0
                }),
            forall|i: int|
                0 <= i < init.longest@.len() ==> #[trigger] longest@[i] == (if i < index && angles@[i]
                    > prefix@[i] && distances@[i] > init.longest@[i] {
                    distances@[i]
                } else {
                    init.longest@[i]
                }),
        decreases mask@.len() - index,
    {
        bitmap.push(mask[index]);
        assert(mask@.take(index as int).push(mask@[index as int]) =~= mask@.take(index + 1));
        if mask[index] {
            let distance: u32 = distances[index];
            assert(init.heatmap@[index as int] + u32::MAX <= u64::MAX);
            if distance > longest[index] {
                longest[index] = distance;
            }
            heatmap[index] = heatmap[index] + distance as u64;
        }
        index += 1;
    }
    assert(mask@.take(index as int) =~= mask@);
    UnrollVector { heatmap, longest }
}

/// What is added to the lanes from a stretch of a line is the sum of the visible distances in it.
proof fn lemma_heat_of_stretch(
    before: Seq<u64>,
    after: Seq<u64>,
    seen: Seq<bool>,
    start: int,
    size: int,
    count: int,
)
    requires
        0 <= start,
        0 <= size,
        0 <= count,
        forall|i: int|
            0 <= i < count ==> #[trigger] after[i] == before[i] + (if i < size && seen[start + i] {
                start + i + 1
            } else {
                0
            }),
    ensures
        sum_of(after, count) == sum_of(before, count) + visible_distance(
            seen,
            start + (if count < size {
                count
            } else {
                size
            }),
        ) - visible_distance(seen, start),
    decreases count,
{
    if count > 0 {
        lemma_heat_of_stretch(before, after, seen, start, size, count - 1);
        assert(after[count - 1] == before[count - 1] + (if count - 1 < size && seen[start + count
            - 1] {
            start + count - 1 + 1
        } else {
            0
        }));
    }
}

/// The longest line of a stretch is longer than any that ended before it.
proof fn lemma_longest_of_stretch(
    before: Seq<u32>,
    after: Seq<u32>,
    seen: Seq<bool>,
    start: int,
    size: int,
    count: int,
)
    requires
        0 <= start,
        0 <= size,
        0 <= count,
        forall|i: int| 0 <= i < count ==> #[trigger] before[i] <= start,
        forall|i: int|
            0 <= i < count ==> #[trigger] after[i] == (if i < size && seen[start + i] {
                start + i + 1
            } else {
                before[i] as int
            }),
    ensures
        ({
            let longest = longest_line(
                seen,
                start + (if count < size {
                    count
                } else {
                    size
                }),
            );
            greatest_of(after, count) == (if longest > start {
                longest
            } else {
                greatest_of(before, count)
            })
        }),
        greatest_of(before, count) <= start,
    decreases count,
{
    if count > 0 {
        lemma_longest_of_stretch(before, after, seen, start, size, count - 1);
        assert(before[count - 1] <= start);
        assert(after[count - 1] == (if count - 1 < size && seen[start + count - 1] {
            start + count - 1 + 1
        } else {
            before[count - 1] as int
        }));
        lemma_longest_at_most(seen, start + count - 1);
        lemma_longest_at_most(seen, start + size);
    } else {
        lemma_longest_at_most(seen, start);
    }
}

/// A line is no longer than the points that were looked at.
pub proof fn lemma_longest_at_most(seen: Seq<bool>, count: int)
    ensures
        0 <= longest_line(seen, count),
        longest_line(seen, count) <= count || longest_line(seen, count) == 0,
    decreases count,
{
    if count > 0 {
        lemma_longest_at_most(seen, count - 1);
    }
}

/// The sum of the distances to `count` points is bounded, however many of them are visible.
pub proof fn lemma_visible_distance_bounds(seen: Seq<bool>, count: int)
    requires
        0 <= count <= u32::MAX,
    ensures
        0 <= visible_distance(seen, count) <= count * u32::MAX,
    decreases count,
{
    if count > 0 {
        lemma_visible_distance_bounds(seen, count - 1);
    }
}

/// `UnrolledVectorLos` implements an unrolled line of sight calculation.
pub struct UnrolledVectorLos<const UNROLL: usize, const VECTOR_WIDTH: usize> {
    /// `angles` holds a buffer for line of sight angles to be put into
    /// which is exactly `max_los+1` long. The first is the lowest of all.
    angles: Vec<i32>,
    /// `distances` holds `max_los` distances
    distances: Vec<u32>,
}

/// `generate_distances` generates the distance to each point, in points.
pub fn generate_distances(max_los: usize) -> (distances: Vec<u32>)
    requires
        max_los <= u32::MAX,
    ensures
        distances@ == Seq::new(max_los as nat, |i: int| (i + 1) as u32),
{
    let mut distances: Vec<u32> = Vec::with_capacity(max_los);
    while distances.len() < max_los
        invariant
            max_los <= u32::MAX,
            distances@.len() <= max_los,
            distances@ == Seq::new(distances@.len(), |i: int| (i + 1) as u32),
        decreases max_los - distances@.len(),
    {
        let step: u32 = (distances.len() + 1) as u32;
        distances.push(step);
    }
    distances
}

impl<const UNROLL: usize, const VECTOR_WIDTH: usize> UnrolledVectorLos<UNROLL, VECTOR_WIDTH> {
    /// The number of points along a line.
    pub closed spec fn max_los(self) -> nat {
        self.distances@.len()
    }

    /// Whether the buffers are in order.
    pub closed spec fn wf(self) -> bool {
        &&& 0 < UNROLL * VECTOR_WIDTH <= usize::MAX
        &&& self.distances@.len() <= u32::MAX
        &&& self.distances@ == Seq::new(self.distances@.len(), |i: int| (i + 1) as u32)
        &&& self.angles@.len() == self.distances@.len() + 1
        &&& self.angles@[0] == LOWEST_ANGLE
    }

    /// `new` initializes a new `UnrolledVectorLos`, and precalculates all the distances.
    ///
    /// The maximum line of sight must be divisible by the width of a vector.
    pub fn new(max_los: usize) -> (los: Self)
        requires
            0 < UNROLL * VECTOR_WIDTH <= usize::MAX,
            VECTOR_WIDTH > 0,
            max_los % VECTOR_WIDTH == 0,
            max_los < u32::MAX,
        ensures
            los.wf(),
            los.max_los() == max_los,
    {
        let distances: Vec<u32> = generate_distances(max_los);
        let angles: Vec<i32> = vec![LOWEST_ANGLE; max_los + 1];
        UnrolledVectorLos { angles, distances }
    }

    /// One stretch of a line of sight: the horizon is carried on from `highest`, and what is
    /// visible is accumulated.
    fn stretch(
        &self,
        init: UnrollVector<UNROLL, VECTOR_WIDTH>,
        highest: i32,
        start: usize,
        size: usize,
        output: &mut Vec<bool>,
        Ghost(line): Ghost<Seq<i32>>,
    ) -> (stretched: (UnrollVector<UNROLL, VECTOR_WIDTH>, i32)) where
        VectorLos<VECTOR_WIDTH>: PrefixMax,

        requires
            self.wf(),
            init.wf(),
            line.len() == self.max_los(),
            forall|i: int| 0 <= i < line.len() ==> #[trigger] self.angles@[i + 1] == line[i],
            start + size <= self.max_los(),
            size <= UNROLL * VECTOR_WIDTH,
            highest == vector::highest_of(LOWEST_ANGLE, self.angles@, start as int),
            old(output)@ == visibility(line).take(start as int),
            forall|i: int|
                0 <= i < init.heatmap@.len() ==> #[trigger] init.heatmap@[i] <= start * u32::MAX,
            forall|i: int| 0 <= i < init.longest@.len() ==> #[trigger] init.longest@[i] <= start,
            sum_of(init.heatmap@, init.heatmap@.len() as int) == visible_distance(
                visibility(line),
                start as int,
            ),
            greatest_of(init.longest@, init.longest@.len() as int) == longest_line(
                visibility(line),
                start as int,
            ),
        ensures
            stretched.0.wf(),
            stretched.1 == vector::highest_of(LOWEST_ANGLE, self.angles@, start + size),
            final(output)@ == visibility(line).take(start + size),
            size > 0 ==> forall|i: int|
                0 <= i < init.heatmap@.len() ==> #[trigger] stretched.0.heatmap@[i] <= (start + size)
                    * u32::MAX,
            forall|i: int|
                0 <= i < init.longest@.len() ==> #[trigger] stretched.0.longest@[i] <= start + size,
            sum_of(stretched.0.heatmap@, stretched.0.heatmap@.len() as int) == visible_distance(
                visibility(line),
                start + size,
            ),
            greatest_of(stretched.0.longest@, stretched.0.longest@.len() as int) == longest_line(
                visibility(line),
                start + size,
            ),
    {
        let ghost seen = visibility(line);
        let ghost lanes = init.heatmap@.len() as int;
        let prefix_angles: &[i32] = &self.angles.as_slice()[start..start + size];
        assert(start + size < self.angles.len());
        let angles: &[i32] = &self.angles.as_slice()[start + 1..start + size + 1];
        let distances: &[u32] = &self.distances.as_slice()[start..start + size];
        let mut prefix_max: Vec<i32> = vec![LOWEST_ANGLE; size];
        proof {
            vector::lemma_highest_rises(LOWEST_ANGLE, self.angles@, start as int);
        }
        VectorLos::<VECTOR_WIDTH>::prefix_max(highest, prefix_angles, prefix_max.as_mut_slice());
        assert forall|i: int| 0 <= i < size implies #[trigger] prefix_max@[i] == vector::highest_of(
            LOWEST_ANGLE,
            self.angles@,
            start + i + 1,
        ) by {
            lemma_horizon_carried(self.angles@, start as int, prefix_angles@, i + 1);
        }
        assert forall|i: int| 0 <= i < size implies seen[start + i] == (#[trigger] angles@[i]
            > prefix_max@[i]) by {
            assert(self.angles@[start + i + 1] == line[start + i]);
            lemma_horizon_shifted(line, self.angles@, start + i + 1);
            lemma_visible_above_horizon(line, start + i);
        }
        proof {
            assert(start * u32::MAX + u32::MAX <= u64::MAX) by (nonlinear_arith)
                requires
                    0 <= start <= u32::MAX,
            ;
        }
        let ghost init_heatmap = init.heatmap@;
        let ghost init_longest = init.longest@;
        let accumulated = accumulate(init, angles, prefix_max.as_slice(), distances, output);
        proof {
            assert(output@ =~= seen.take(start + size));
            assert forall|i: int|
                0 <= i < lanes implies #[trigger] accumulated.heatmap@[i] == init_heatmap[i] + (if i
                < size && seen[start + i] {
                start + i + 1
            } else {
                0
            }) by {
                if i < size {
                    assert(seen[start + i] == (angles@[i] > prefix_max@[i]));
                    assert(distances@[i] == start + i + 1);
                }
            }
            assert forall|i: int|
                0 <= i < lanes implies #[trigger] accumulated.longest@[i] == (if i < size
                && seen[start + i] {
                start + i + 1
            } else {
                init_longest[i] as int
            }) by {
                if i < size {
                    assert(seen[start + i] == (angles@[i] > prefix_max@[i]));
                    assert(distances@[i] == start + i + 1);
                }
            }
            lemma_heat_of_stretch(
                init_heatmap,
                accumulated.heatmap@,
                seen,
                start as int,
                size as int,
                lanes,
            );
            lemma_longest_of_stretch(
                init_longest,
                accumulated.longest@,
                seen,
                start as int,
                size as int,
                lanes,
            );
            lemma_longest_of_later(seen, start as int, start + size);
            if size > 0 {
                assert((start + size) * u32::MAX >= start * u32::MAX + u32::MAX) by (nonlinear_arith)
                    requires
                        size >= 1,
                ;
            }
        }
        let carried: i32 = if size == 0 {
            highest
        } else {
            prefix_max[size - 1]
        };
        (accumulated, carried)
    }

    /// `line_of_sight` calculates a line of sight for the given angles
    /// and outputs a triple of the sum of the visible distances, the longest line of sight
    /// and a bitmap of which points are visible.
    pub fn line_of_sight(&mut self, line: &[i32]) -> (sight: (u64, u32, Vec<bool>)) where
        VectorLos<VECTOR_WIDTH>: PrefixMax,

        requires
            old(self).wf(),
            line@.len() == old(self).max_los(),
        ensures
            final(self).wf(),
            final(self).max_los() == old(self).max_los(),
            sight.0 == visible_distance(visibility(line@), line@.len() as int),
            sight.1 == longest_line(visibility(line@), line@.len() as int),
            sight.2@ == visibility(line@),
    {
        let max_los: usize = line.len();
        let mut index: usize = 0;
        while index < max_los
            invariant
                max_los == line@.len() == self.max_los(),
                index <= max_los,
                self.wf(),
                self.max_los() == old(self).max_los(),
                forall|i: int| 0 <= i < index ==> #[trigger] self.angles@[i + 1] == line@[i],
            decreases max_los - index,
        {
            self.angles[index + 1] = line[index];
            index += 1;
        }

        let chunk: usize = UNROLL * VECTOR_WIDTH;
        let mut output: Vec<bool> = Vec::with_capacity(max_los);
        let mut highest: i32 = LOWEST_ANGLE;
        let mut los = UnrollVector::<UNROLL, VECTOR_WIDTH>::new();
        let mut start: usize = 0;
        proof {
            lemma_zero_lanes(los.heatmap@, los.longest@, chunk as int);
            assert(output@ =~= visibility(line@).take(0));
        }
        while max_los - start >= chunk
            invariant
                max_los == line@.len() == self.max_los(),
                start <= max_los,
                0 < chunk == UNROLL * VECTOR_WIDTH,
                self.wf(),
                los.wf(),
                forall|i: int| 0 <= i < max_los ==> #[trigger] self.angles@[i + 1] == line@[i],
                highest == vector::highest_of(LOWEST_ANGLE, self.angles@, start as int),
                output@ == visibility(line@).take(start as int),
                forall|i: int| 0 <= i < chunk ==> #[trigger] los.heatmap@[i] <= start * u32::MAX,
                forall|i: int| 0 <= i < chunk ==> #[trigger] los.longest@[i] <= start,
                sum_of(los.heatmap@, chunk as int) == visible_distance(
                    visibility(line@),
                    start as int,
                ),
                greatest_of(los.longest@, chunk as int) == longest_line(
                    visibility(line@),
                    start as int,
                ),
            decreases max_los - start,
        {
            let (accumulated, carried) = self.stretch(
                los,
                highest,
                start,
                chunk,
                &mut output,
                Ghost(line@),
            );
            los = accumulated;
            highest = carried;
            start += chunk;
        }
        let (accumulated, _) = self.stretch(
            los,
            highest,
            start,
            max_los - start,
            &mut output,
            Ghost(line@),
        );
        proof {
            lemma_visible_distance_bounds(visibility(line@), max_los as int);
            assert(max_los * u32::MAX <= u64::MAX) by (nonlinear_arith)
                requires
                    0 <= max_los <= u32::MAX,
            ;
            assert(visibility(line@).take(max_los as int) =~= visibility(line@));
        }
        let (heatmap, longest) = accumulated.totals();
        (heatmap, longest, output)
    }
}

/// Lanes that nothing was added to.
proof fn lemma_zero_lanes(heatmap: Seq<u64>, longest: Seq<u32>, count: int)
    requires
        forall|i: int| 0 <= i < count ==> #[trigger] heatmap[i] == 0,
        forall|i: int| 0 <= i < count ==> #[trigger] longest[i] == 0,
    ensures
        sum_of(heatmap, count) == 0,
        greatest_of(longest, count) == 0,
    decreases count,
{
    if count > 0 {
        lemma_zero_lanes(heatmap, longest, count - 1);
        assert(heatmap[count - 1] == 0 && longest[count - 1] == 0);
    }
}

/// Looking further does not shorten the longest line.
proof fn lemma_longest_of_later(seen: Seq<bool>, few: int, many: int)
    requires
        0 <= few <= many,
    ensures
        longest_line(seen, many) <= few ==> longest_line(seen, many) == longest_line(seen, few),
    decreases many,
{
    if few < many {
        lemma_longest_of_later(seen, few, many - 1);
    }
}

/// A point is hidden exactly when a point before it is at the same angle or at a higher one, or when
/// it is at none that is looked at.
pub proof fn law_points_are_hidden_by_points_before(angles: Seq<i32>, index: int)
    requires
        0 <= index < angles.len(),
    ensures
        visibility(angles).len() == angles.len(),
        !visibility(angles)[index] <==> angles[index] <= LOWEST_ANGLE || exists|j: int|
            0 <= j < index && #[trigger] angles[j] >= angles[index],
{
}

/// The visible surface is the sum of the distances to all visible points. The point at `i` is
/// `i + 1` points away.
pub proof fn law_surface_is_a_sum(bitmap: Seq<bool>, count: int)
    requires
        0 <= count <= bitmap.len(),
    ensures
        visible_distance(bitmap, count) == crate::integers::sum(
            |i: int|
                if bitmap[i] {
                    i + 1
                } else {
                    0
                },
            count,
        ),
    decreases count,
{
    if count > 0 {
        law_surface_is_a_sum(bitmap, count - 1);
    }
}

/// One more visible point makes the visible surface greater by the distance to it.
pub proof fn law_each_visible_point_counts(bitmap: Seq<bool>, count: int, index: int)
    requires
        0 <= index < count <= bitmap.len(),
        !bitmap[index],
    ensures
        visible_distance(bitmap.update(index, true), count) == visible_distance(bitmap, count)
            + index + 1,
    decreases count,
{
    let more = bitmap.update(index, true);
    if index < count - 1 {
        law_each_visible_point_counts(bitmap, count - 1, index);
        assert(more[count - 1] == bitmap[count - 1]);
    } else {
        lemma_same_surface(bitmap, more, count - 1);
    }
}

/// What is visible among the first points decides on their surface.
proof fn lemma_same_surface(left: Seq<bool>, right: Seq<bool>, count: int)
    requires
        0 <= count <= left.len(),
        count <= right.len(),
        forall|i: int| 0 <= i < count ==> #[trigger] left[i] == right[i],
    ensures
        visible_distance(left, count) == visible_distance(right, count),
    decreases count,
{
    if count > 0 {
        lemma_same_surface(left, right, count - 1);
        assert(left[count - 1] == right[count - 1]);
    }
}

/// The longest line goes to the last visible point: the point at its end is visible and no point
/// after it is. Where it has no length, no point is visible.
pub proof fn law_longest_line_ends_at_last_visible(bitmap: Seq<bool>, count: int)
    requires
        0 <= count <= bitmap.len(),
    ensures
        0 <= longest_line(bitmap, count) <= count,
        longest_line(bitmap, count) > 0 ==> bitmap[longest_line(bitmap, count) - 1],
        forall|i: int| longest_line(bitmap, count) <= i < count ==> !#[trigger] bitmap[i],
    decreases count,
{
    if count > 0 {
        law_longest_line_ends_at_last_visible(bitmap, count - 1);
    }
}

} // verus!
