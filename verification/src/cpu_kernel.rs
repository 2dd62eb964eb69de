//! The kernel that looks along every line of a rotated DEM from every one of its points.

use crate::db::Row;
use crate::dem;
use crate::los_pack::LineOfSightPacked;
use crate::rotation::Line;
use crate::unrolled_los;
use crate::unrolled_los::UnrolledVectorLos;
use crate::worker;
use crate::worker::Worker;
use vstd::prelude::*;

verus! {

/// The width of the vectors that lines of sight are calculated with.
pub const DEFAULT_VECTOR_LENGTH: usize = 4;

/// The number of vectors in each stretch of a line of sight.
pub const DEFAULT_UNROLL: usize = 10;

/// The elevations ahead of a point of view: those of the points up to the furthest one that can be
/// looked at, the nearest one first.
pub fn ahead(line: &Line, pov: usize, max_los: usize) -> (window: &[i16])
    requires
        pov + 1 + max_los <= line.elevations@.len(),
    ensures
        window@ == line.elevations@.subrange(pov + 1, pov + 1 + max_los),
{
    let elevations: &[i16] = line.elevations.as_slice();
    assert(elevations.len() == elevations@.len());
    &elevations[pov + 1..pov + 1 + max_los]
}

/// The data output by a single angle.
pub struct OutputData {
    /// The visible surface area, as the sum of the distances to visible points, in points.
    pub surfaces: Vec<u64>,
    /// The longest lines of sight.
    pub longest: Vec<LineOfSightPacked>,
}

/// The column and row of a point in the sub-grid of computable points. Rows come first.
pub open spec fn sub_grid_point(dem_id: int, width: int, max_los: int) -> (int, int) {
    (dem::row_of(dem_id, width) - max_los, dem::column_of(dem_id, width) - max_los)
}

/// Whether a point is inside of the circle that touches the edges of the sub-grid. All numbers are
/// doubled, because the centre can be between points.
pub open spec fn is_in_circle(point: (int, int), max_los: int) -> bool {
    let diameter = max_los - 1;
    let (x, y) = (2 * point.0 - diameter, 2 * point.1 - diameter);
    x * x + y * y < diameter * diameter
}

/// The ID in the sub-grid of a point inside of the circle, and -1 for any other.
pub open spec fn spec_dem_id_to_tvs_id(dem_id: int, width: int, max_los: int) -> int {
    let point = sub_grid_point(dem_id, width, max_los);
    if is_in_circle(point, max_los) {
        dem::index_of(point.1, point.0, max_los)
    } else {
        -1
    }
}

/// `dem_id_to_tvs_id` turns the `dem_id` to the `tvs_id` so that the result can be stored in a
/// heatmap.
pub fn dem_id_to_tvs_id(dem_id: i64, width: usize, max_los: usize) -> (tvs_id: i64)
    requires
        0 < width <= i64::MAX,
        1 <= max_los < 0x4000_0000,
    ensures
        tvs_id == spec_dem_id_to_tvs_id(dem_id as int, width as int, max_los as int),
{
    if dem_id < 0 {
        proof {
            assert(dem_id as int / width as int <= -1) by (nonlinear_arith)
                requires
                    dem_id < 0,
                    0 < width,
            ;
            lemma_outside_of_square(
                dem::row_of(dem_id as int, width as int) - max_los,
                dem::column_of(dem_id as int, width as int) - max_los,
                max_los - 1,
            );
        }
        return -1;
    }
    let dem_x: i64 = (dem_id / width as i64) - max_los as i64;
    let dem_y: i64 = (dem_id % width as i64) - max_los as i64;

    let diameter: i64 = max_los as i64 - 1;
    let ghost (x, y) = (2 * dem_x - diameter, 2 * dem_y - diameter);
    if dem_x < 0 || dem_x > diameter || dem_y < 0 || dem_y > diameter {
        proof {
            lemma_outside_of_square(dem_x as int, dem_y as int, diameter as int);
        }
        return -1;
    }
    let circ_x: i64 = 2 * dem_x - diameter;
    let circ_y: i64 = 2 * dem_y - diameter;
    proof {
        lemma_square_bound(circ_x as int);
        lemma_square_bound(circ_y as int);
        lemma_square_bound(diameter as int);
        assert(0 <= dem_x * max_los as i64 <= 0x1000_0000_0000_0000) by (nonlinear_arith)
            requires
                0 <= dem_x < 0x4000_0000,
                0 <= max_los as i64 <= 0x4000_0000,
        ;
    }
    if circ_x * circ_x + circ_y * circ_y < diameter * diameter {
        dem_x * (max_los as i64) + dem_y
    } else {
        -1
    }
}

/// A square of a small number is small.
proof fn lemma_square_bound(number: int)
    by (nonlinear_arith)
    requires
        -0x4000_0000 <= number <= 0x4000_0000,
    ensures
        0 <= number * number <= 0x1000_0000_0000_0000,
{
}

/// What is outside of the square is outside of the circle.
proof fn lemma_outside_of_square(x: int, y: int, diameter: int)
    requires
        x < 0 || x > diameter || y < 0 || y > diameter,
        0 <= diameter,
    ensures
        !is_in_circle((x, y), diameter + 1),
{
    let (circ_x, circ_y) = (2 * x - diameter, 2 * y - diameter);
    assert(circ_x * circ_x + circ_y * circ_y >= diameter * diameter) by (nonlinear_arith)
        requires
            circ_x < -diameter || circ_x > diameter || circ_y < -diameter || circ_y > diameter,
            0 <= diameter,
    ;
}

/// A point in the circle has an ID in the sub-grid.
pub proof fn law_tvs_id_in_grid(dem_id: int, width: int, max_los: int)
    requires
        0 < width,
        1 <= max_los,
    ensures
        -1 <= spec_dem_id_to_tvs_id(dem_id, width, max_los) < max_los * max_los,
{
    let point = sub_grid_point(dem_id, width, max_los);
    let (x, y) = point;
    if is_in_circle(point, max_los) {
        if x < 0 || x > max_los - 1 || y < 0 || y > max_los - 1 {
            lemma_outside_of_square(x, y, max_los - 1);
        }
        assert(0 <= x * max_los + y < max_los * max_los) by (nonlinear_arith)
            requires
                0 <= x < max_los,
                0 <= y < max_los,
        ;
    } else {
        assert(0 <= max_los * max_los) by (nonlinear_arith);
    }
}

/// `dem_to_pov` turns the `dem_id` to the `pov_id`, whether or not there is such a point in the
/// heatmap.
pub fn dem_to_pov(dem_id: i32, width: usize, max_los: usize) -> (pov_id: i32)
    requires
        0 <= dem_id,
        0 < width <= i32::MAX,
        max_los <= i32::MAX,
        ({
            let point = sub_grid_point(dem_id as int, width as int, max_los as int);
            &&& i32::MIN <= point.0 * max_los <= i32::MAX
            &&& i32::MIN <= dem::index_of(point.1, point.0, max_los as int) <= i32::MAX
        }),
    ensures
        ({
            let point = sub_grid_point(dem_id as int, width as int, max_los as int);
            pov_id == dem::index_of(point.1, point.0, max_los as int)
        }),
{
    let dem_x: i32 = (dem_id / width as i32) - max_los as i32;
    let dem_y: i32 = (dem_id % width as i32) - max_los as i32;
    dem_x * (max_los as i32) + dem_y
}

/// One rotated line, and what there is to see from each of the points of its first half.
pub struct SightLine {
    /// The rotated line.
    pub line: Line,
    /// For each point, whether nobody is interested in what it sees.
    pub prunable: Vec<bool>,
    /// For each point, the angles at which it sees the points after it, by their place in the
    /// order of single precision numbers.
    pub angles: Vec<Vec<i32>>,
}

impl SightLine {
    /// Whether the parts fit together.
    pub open spec fn wf(self, max_los: int) -> bool {
        &&& self.line.indexes@.len() >= max_los
        &&& self.prunable@.len() == max_los
        &&& self.angles@.len() == max_los
        &&& forall|pov: int| 0 <= pov < max_los ==> (#[trigger] self.angles@[pov])@.len() == max_los
        &&& forall|pov: int| 0 <= pov < max_los ==> 0 <= #[trigger] self.line.indexes@[pov]
    }

    /// The ID in the sub-grid of a point of view.
    pub open spec fn tvs_id(self, max_los: int, pov: int) -> int {
        spec_dem_id_to_tvs_id(self.line.indexes@[pov] as int, 3 * max_los, max_los)
    }

    /// Whether what is seen from a point of view is of interest: it is not pruned, and is within
    /// our computable points.
    pub open spec fn is_computed(self, max_los: int, pov: int) -> bool {
        !self.prunable@[pov] && 0 <= self.tvs_id(max_los, pov) < max_los * max_los
    }

    /// What is seen from a point of view.
    pub open spec fn visibility(self, pov: int) -> Seq<bool> {
        unrolled_los::visibility(self.angles@[pov]@)
    }

    /// The sum of the distances to what is seen from a point of view.
    pub open spec fn surface(self, pov: int) -> int {
        unrolled_los::visible_distance(self.visibility(pov), self.angles@[pov]@.len() as int)
    }

    /// The distance in points to the last point that is seen from a point of view.
    pub open spec fn longest(self, pov: int) -> int {
        unrolled_los::longest_line(self.visibility(pov), self.angles@[pov]@.len() as int)
    }

    /// The surfaces once the first `count` points of view were looked from.
    pub open spec fn surfaces_after(self, surfaces: Seq<int>, max_los: int, count: int) -> Seq<int>
        decreases count,
    {
        if count <= 0 {
            surfaces
        } else {
            let before = self.surfaces_after(surfaces, max_los, count - 1);
            let pov = count - 1;
            if self.is_computed(max_los, pov) {
                let tvs_id = self.tvs_id(max_los, pov);
                before.update(tvs_id, before[tvs_id] + self.surface(pov))
            } else {
                before
            }
        }
    }

    /// The longest lines once the first `count` points of view were looked from at an angle.
    pub open spec fn longest_after(
        self,
        longest: Seq<LineOfSightPacked>,
        max_los: int,
        metres: Seq<u32>,
        angle: u16,
        count: int,
    ) -> Seq<LineOfSightPacked>
        decreases count,
    {
        if count <= 0 {
            longest
        } else {
            let before = self.longest_after(longest, max_los, metres, angle, count - 1);
            let pov = count - 1;
            if self.is_computed(max_los, pov) {
                let tvs_id = self.tvs_id(max_los, pov);
                before.update(
                    tvs_id,
                    before[tvs_id].spec_max(packed(metres[self.longest(pov)], angle)),
                )
            } else {
                before
            }
        }
    }

    /// The points of view of interest among the first `count` ones.
    pub open spec fn computed(self, max_los: int, count: int) -> Seq<int>
        decreases count,
    {
        if count <= 0 {
            Seq::empty()
        } else if self.is_computed(max_los, count - 1) {
            self.computed(max_los, count - 1).push(count - 1)
        } else {
            self.computed(max_los, count - 1)
        }
    }

    /// Whether `rows` are the rows for the points of view of interest among the first `count` ones.
    pub open spec fn are_rows(self, rows: Seq<Row>, max_los: int, angle: u16, count: int) -> bool {
        let computed = self.computed(max_los, count);
        &&& rows.len() == computed.len()
        &&& forall|i: int|
            0 <= i < rows.len() ==> worker::is_row_for(
                #[trigger] rows[i],
                self.line.indexes@[computed[i]] as u64,
                None,
                angle,
                self.visibility(computed[i]),
            )
    }
}

/// As many bits of a distance and of an angle as fit.
pub open spec fn packed(distance: u32, angle: u16) -> LineOfSightPacked {
    LineOfSightPacked(((distance as int % 0x40_0000) * 1024 + angle as int % 1024) as u32)
}

/// Surfaces as whole numbers.
pub open spec fn as_ints(surfaces: Seq<u64>) -> Seq<int> {
    surfaces.map_values(|surface: u64| surface as int)
}

/// Surfaces only grow.
proof fn lemma_surfaces_grow(line: SightLine, surfaces: Seq<int>, max_los: int, few: int, many: int)
    requires
        line.wf(max_los),
        0 <= few <= many <= max_los <= u32::MAX,
        surfaces.len() == max_los * max_los,
    ensures
        line.surfaces_after(surfaces, max_los, few).len() == surfaces.len(),
        line.surfaces_after(surfaces, max_los, many).len() == surfaces.len(),
        forall|i: int|
            0 <= i < surfaces.len() ==> #[trigger] line.surfaces_after(surfaces, max_los, few)[i]
                <= line.surfaces_after(surfaces, max_los, many)[i],
    decreases many,
{
    if few < many {
        lemma_surfaces_grow(line, surfaces, max_los, few, many - 1);
        unrolled_los::lemma_visible_distance_bounds(line.visibility(many - 1), max_los);
        assert(line.angles@[many - 1]@.len() == max_los);
    } else if many > 0 {
        lemma_surfaces_grow(line, surfaces, max_los, few - 1, many - 1);
    }
}

/// The kernel on one line.
fn kernel_line(
    db_worker: &mut Worker,
    sight_line: &SightLine,
    output: &mut OutputData,
    angle: u16,
    metres: &[u32],
    store: bool,
    max_los: usize,
    vs: &mut UnrolledVectorLos<DEFAULT_UNROLL, DEFAULT_VECTOR_LENGTH>,
)
    requires
        1 <= max_los < 0x4000_0000,
        sight_line.wf(max_los as int),
        metres@.len() == max_los + 1,
        old(vs).wf(),
        old(vs).max_los() == max_los,
        old(output).surfaces@.len() == max_los * max_los,
        old(output).longest@.len() == max_los * max_los,
        forall|i: int|
            0 <= i < max_los * max_los ==> #[trigger] sight_line.surfaces_after(
                as_ints(old(output).surfaces@),
                max_los as int,
                max_los as int,
            )[i] <= u64::MAX,
        store ==> forall|pov: int|
            0 <= pov < max_los ==> crate::runs::runs_fit(#[trigger] sight_line.visibility(pov)),
    ensures
        final(vs).wf(),
        final(vs).max_los() == max_los,
        as_ints(final(output).surfaces@) == sight_line.surfaces_after(
            as_ints(old(output).surfaces@),
            max_los as int,
            max_los as int,
        ),
        final(output).surfaces@.len() == max_los * max_los,
        final(output).longest@ == sight_line.longest_after(
            old(output).longest@,
            max_los as int,
            metres@,
            angle,
            max_los as int,
        ),
        final(output).longest@.len() == max_los * max_los,
        final(db_worker).keeps() == old(db_worker).keeps(),
        final(db_worker).path() == old(db_worker).path(),
        !(store && old(db_worker).keeps()) ==> final(db_worker).rows() == old(db_worker).rows(),
        store && old(db_worker).keeps() ==> exists|rows: Seq<Row>|
            #![trigger old(db_worker).rows() + rows]
            final(db_worker).rows() == old(db_worker).rows() + rows && sight_line.are_rows(
                rows,
                max_los as int,
                angle,
                max_los as int,
            ),
{
    let ghost old_surfaces = as_ints(output.surfaces@);
    let ghost old_longest = output.longest@;
    let ghost old_rows = db_worker.rows();
    let ghost m = max_los as int;
    let ghost mut rows: Seq<Row> = Seq::empty();
    assert(old_rows + rows =~= old_rows);
    let mut pov: usize = 0;
    while pov < max_los
        invariant
            m == max_los,
            1 <= max_los < 0x4000_0000,
            pov <= max_los,
            sight_line.wf(m),
            metres@.len() == max_los + 1,
            vs.wf(),
            vs.max_los() == max_los,
            output.surfaces@.len() == m * m,
            output.longest@.len() == m * m,
            old_surfaces.len() == m * m,
            forall|i: int|
                0 <= i < m * m ==> #[trigger] sight_line.surfaces_after(old_surfaces, m, m)[i]
                    <= u64::MAX,
            store ==> forall|p: int|
                0 <= p < max_los ==> crate::runs::runs_fit(#[trigger] sight_line.visibility(p)),
            as_ints(output.surfaces@) == sight_line.surfaces_after(old_surfaces, m, pov as int),
            output.longest@ == sight_line.longest_after(
                old_longest,
                m,
                metres@,
                angle,
                pov as int,
            ),
            db_worker.keeps() == old(db_worker).keeps(),
            db_worker.path() == old(db_worker).path(),
            old_rows == old(db_worker).rows(),
            !(store && db_worker.keeps()) ==> db_worker.rows() == old_rows,
            store && db_worker.keeps() ==> db_worker.rows() == old_rows + rows
                && sight_line.are_rows(rows, m, angle, pov as int),
        decreases max_los - pov,
    {
        let ghost p = pov as int;
        proof {
            law_tvs_id_in_grid(sight_line.line.indexes@[p] as int, 3 * m, m);
            lemma_surfaces_grow(*sight_line, old_surfaces, m, p + 1, m);
        }
        let result_dem_id: i64 = sight_line.line.indexes[pov];
        if sight_line.prunable[pov] {
            pov += 1;
            continue;
        }
        let result_tvs_id: i64 = dem_id_to_tvs_id(result_dem_id, 3 * max_los, max_los);

        // if the line of sight is not within our computable points, do not consider it
        if result_tvs_id < 0 {
            pov += 1;
            continue;
        }
        assert(sight_line.is_computed(m, p));
        let (point_surface, point_longest, point_visibility) = vs.line_of_sight(
            sight_line.angles[pov].as_slice(),
        );
        proof {
            unrolled_los::lemma_longest_at_most(sight_line.visibility(p), m);
        }
        assert(result_tvs_id < output.surfaces.len());
        let tvs_id: usize = result_tvs_id as usize;
        let ghost t = tvs_id as int;
        proof {
            assert(sight_line.surfaces_after(old_surfaces, m, p + 1)[t] <= u64::MAX);
            assert(as_ints(output.surfaces@)[t] == output.surfaces@[t]);
        }
        let surface: u64 = output.surfaces[tvs_id] + point_surface;
        output.surfaces[tvs_id] = surface;
        assert(as_ints(output.surfaces@) =~= sight_line.surfaces_after(old_surfaces, m, p + 1));
        let longest_line = LineOfSightPacked::new_unchecked(metres[point_longest as usize], angle);
        proof {
            crate::los_pack::law_packed_parts(
                longest_line,
                packed(metres@[point_longest as int], angle),
            );
        }
        let longer = output.longest[tvs_id].max(longest_line);
        output.longest[tvs_id] = longer;
        if store {
            let ghost rows_before = db_worker.rows();
            db_worker.store_bitmap(result_dem_id as u64, None, angle, point_visibility.as_slice());
            proof {
                if db_worker.keeps() {
                    let row = db_worker.rows().last();
                    assert(db_worker.rows() =~= rows_before.push(row));
                    assert(db_worker.rows() =~= old_rows + rows.push(row));
                    rows = rows.push(row);
                    assert(sight_line.computed(m, p + 1) =~= sight_line.computed(m, p).push(p));
                }
            }
        }
        pov += 1;
    }
}

/// The surfaces once all points of view of the first `count` lines were looked from.
pub open spec fn surfaces_after_lines(
    lines: Seq<SightLine>,
    surfaces: Seq<int>,
    max_los: int,
    count: int,
) -> Seq<int>
    decreases count,
{
    if count <= 0 {
        surfaces
    } else {
        lines[count - 1].surfaces_after(
            surfaces_after_lines(lines, surfaces, max_los, count - 1),
            max_los,
            max_los,
        )
    }
}

/// The longest lines once all points of view of the first `count` lines were looked from.
pub open spec fn longest_after_lines(
    lines: Seq<SightLine>,
    longest: Seq<LineOfSightPacked>,
    max_los: int,
    metres: Seq<u32>,
    angle: u16,
    count: int,
) -> Seq<LineOfSightPacked>
    decreases count,
{
    if count <= 0 {
        longest
    } else {
        lines[count - 1].longest_after(
            longest_after_lines(lines, longest, max_los, metres, angle, count - 1),
            max_los,
            metres,
            angle,
            max_los,
        )
    }
}

/// The points of view of interest of the first `count` lines: for each the line and the position
/// in it.
pub open spec fn computed_of_lines(lines: Seq<SightLine>, max_los: int, count: int) -> Seq<(int, int)>
    decreases count,
{
    if count <= 0 {
        Seq::empty()
    } else {
        computed_of_lines(lines, max_los, count - 1) + lines[count - 1].computed(
            max_los,
            max_los,
        ).map_values(|pov: int| (count - 1, pov))
    }
}

/// Whether `rows` are the rows for the points of view of interest of the first `count` lines.
pub open spec fn are_rows_of_lines(
    lines: Seq<SightLine>,
    rows: Seq<Row>,
    max_los: int,
    angle: u16,
    count: int,
) -> bool {
    let computed = computed_of_lines(lines, max_los, count);
    &&& rows.len() == computed.len()
    &&& forall|i: int|
        0 <= i < rows.len() ==> worker::is_row_for(
            #[trigger] rows[i],
            lines[computed[i].0].line.indexes@[computed[i].1] as u64,
            None,
            angle,
            lines[computed[i].0].visibility(computed[i].1),
        )
}

/// Surfaces only grow from line to line.
proof fn lemma_surfaces_grow_with_lines(
    lines: Seq<SightLine>,
    surfaces: Seq<int>,
    max_los: int,
    few: int,
    many: int,
)
    requires
        forall|i: int| 0 <= i < lines.len() ==> (#[trigger] lines[i]).wf(max_los),
        0 <= few <= many <= lines.len(),
        0 <= max_los <= u32::MAX,
        surfaces.len() == max_los * max_los,
    ensures
        surfaces_after_lines(lines, surfaces, max_los, few).len() == surfaces.len(),
        surfaces_after_lines(lines, surfaces, max_los, many).len() == surfaces.len(),
        forall|i: int|
            0 <= i < surfaces.len() ==> #[trigger] surfaces_after_lines(
                lines,
                surfaces,
                max_los,
                few,
            )[i] <= surfaces_after_lines(lines, surfaces, max_los, many)[i],
    decreases many,
{
    if many > 0 {
        let before = surfaces_after_lines(lines, surfaces, max_los, many - 1);
        assert(lines[many - 1].wf(max_los));
        if few < many {
            lemma_surfaces_grow_with_lines(lines, surfaces, max_los, few, many - 1);
            lemma_surfaces_grow(lines[many - 1], before, max_los, 0, max_los);
            assert(lines[many - 1].surfaces_after(before, max_los, 0) == before);
        } else {
            lemma_surfaces_grow_with_lines(lines, surfaces, max_los, few - 1, many - 1);
            lemma_surfaces_grow(lines[many - 1], before, max_los, 0, max_los);
        }
    }
}

/// `kernel` will add what is seen at a given angle to the heatmaps,
/// assuming that the maximum line of sight is `max_los`.
///
/// A distance in points is `metres[distance]` long.
pub fn kernel(
    db_worker: &mut Worker,
    lines: &[SightLine],
    output: &mut OutputData,
    angle: u16,
    metres: &[u32],
    store: bool,
    max_los: usize,
)
    requires
        1 <= max_los < 0x4000_0000,
        max_los % DEFAULT_VECTOR_LENGTH == 0,
        metres@.len() == max_los + 1,
        forall|i: int| 0 <= i < lines@.len() ==> (#[trigger] lines@[i]).wf(max_los as int),
        old(output).surfaces@.len() == max_los * max_los,
        old(output).longest@.len() == max_los * max_los,
        forall|i: int|
            0 <= i < max_los * max_los ==> #[trigger] surfaces_after_lines(
                lines@,
                as_ints(old(output).surfaces@),
                max_los as int,
                lines@.len() as int,
            )[i] <= u64::MAX,
        store ==> forall|i: int, pov: int|
            0 <= i < lines@.len() && 0 <= pov < max_los ==> crate::runs::runs_fit(
                #[trigger] lines@[i].visibility(pov),
            ),
    ensures
        as_ints(final(output).surfaces@) == surfaces_after_lines(
            lines@,
            as_ints(old(output).surfaces@),
            max_los as int,
            lines@.len() as int,
        ),
        final(output).longest@ == longest_after_lines(
            lines@,
            old(output).longest@,
            max_los as int,
            metres@,
            angle,
            lines@.len() as int,
        ),
        final(db_worker).keeps() == old(db_worker).keeps(),
        final(db_worker).path() == old(db_worker).path(),
        !(store && old(db_worker).keeps()) ==> final(db_worker).rows() == old(db_worker).rows(),
        store && old(db_worker).keeps() ==> exists|rows: Seq<Row>|
            #![trigger old(db_worker).rows() + rows]
            final(db_worker).rows() == old(db_worker).rows() + rows && are_rows_of_lines(
                lines@,
                rows,
                max_los as int,
                angle,
                lines@.len() as int,
            ),
{
    let ghost old_surfaces = as_ints(output.surfaces@);
    let ghost old_longest = output.longest@;
    let ghost old_rows = db_worker.rows();
    let ghost m = max_los as int;
    let ghost count = lines@.len() as int;
    let ghost mut rows: Seq<Row> = Seq::empty();
    assert(old_rows + rows =~= old_rows);
    let mut vs = UnrolledVectorLos::<DEFAULT_UNROLL, DEFAULT_VECTOR_LENGTH>::new(max_los);
    let mut index: usize = 0;
    while index < lines.len()
        invariant
            m == max_los,
            1 <= max_los < 0x4000_0000,
            index <= count == lines@.len(),
            forall|i: int| 0 <= i < lines@.len() ==> (#[trigger] lines@[i]).wf(m),
            metres@.len() == max_los + 1,
            vs.wf(),
            vs.max_los() == max_los,
            output.surfaces@.len() == m * m,
            output.longest@.len() == m * m,
            old_surfaces.len() == m * m,
            forall|i: int|
                0 <= i < m * m ==> #[trigger] surfaces_after_lines(lines@, old_surfaces, m, count)[i]
                    <= u64::MAX,
            store ==> forall|i: int, pov: int|
                0 <= i < lines@.len() && 0 <= pov < max_los ==> crate::runs::runs_fit(
                    #[trigger] lines@[i].visibility(pov),
                ),
            as_ints(output.surfaces@) == surfaces_after_lines(
                lines@,
                old_surfaces,
                m,
                index as int,
            ),
            output.longest@ == longest_after_lines(
                lines@,
                old_longest,
                m,
                metres@,
                angle,
                index as int,
            ),
            db_worker.keeps() == old(db_worker).keeps(),
            db_worker.path() == old(db_worker).path(),
            old_rows == old(db_worker).rows(),
            !(store && db_worker.keeps()) ==> db_worker.rows() == old_rows,
            store && db_worker.keeps() ==> db_worker.rows() == old_rows + rows
                && are_rows_of_lines(lines@, rows, m, angle, index as int),
        decreases count - index,
    {
        let ghost i = index as int;
        let ghost rows_before = db_worker.rows();
        proof {
            lemma_surfaces_grow_with_lines(lines@, old_surfaces, m, i + 1, count);
            assert forall|t: int| 0 <= t < m * m implies #[trigger] lines@[i].surfaces_after(
                as_ints(output.surfaces@),
                m,
                m,
            )[t] <= u64::MAX by {
                assert(surfaces_after_lines(lines@, old_surfaces, m, i + 1)[t]
                    <= surfaces_after_lines(lines@, old_surfaces, m, count)[t]);
            }
        }
        kernel_line(
            db_worker,
            &lines[index],
            output,
            angle,
            metres,
            store,
            max_los,
            &mut vs,
        );
        proof {
            if store && db_worker.keeps() {
                let line_rows = choose|line_rows: Seq<Row>|
                    #![trigger rows_before + line_rows]
                    db_worker.rows() == rows_before + line_rows && lines@[i].are_rows(
                        line_rows,
                        m,
                        angle,
                        m,
                    );
                assert(db_worker.rows() =~= old_rows + (rows + line_rows));
                let before = computed_of_lines(lines@, m, i);
                let line_computed = lines@[i].computed(m, m);
                let computed = computed_of_lines(lines@, m, i + 1);
                assert forall|k: int| 0 <= k < (rows + line_rows).len() implies worker::is_row_for(
                    #[trigger] (rows + line_rows)[k],
                    lines@[computed[k].0].line.indexes@[computed[k].1] as u64,
                    None,
                    angle,
                    lines@[computed[k].0].visibility(computed[k].1),
                ) by {
                    if k < rows.len() {
                        assert(computed[k] == before[k]);
                        assert((rows + line_rows)[k] == rows[k]);
                    } else {
                        assert(computed[k] == (i, line_computed[k - rows.len()]));
                        assert((rows + line_rows)[k] == line_rows[k - rows.len()]);
                    }
                }
                rows = rows + line_rows;
            }
        }
        index += 1;
    }
}

/// The sub-grid is the middle third of the DEM, row by row. A point has an ID in it exactly when it
/// is closer to the centre of the sub-grid than the edges are. All numbers are doubled, because the
/// centre can be between points.
pub proof fn law_tvs_id_goes_by_rows(dem_id: int, width: int, max_los: int)
    requires
        0 < width,
        1 <= max_los,
    ensures
        ({
            let tvs_id = spec_dem_id_to_tvs_id(dem_id, width, max_los);
            let down = 2 * (dem_id / width - max_los) - (max_los - 1);
            let right = 2 * (dem_id % width - max_los) - (max_los - 1);
            &&& tvs_id >= 0 <==> down * down + right * right < (max_los - 1) * (max_los - 1)
            &&& tvs_id < 0 ==> tvs_id == -1
            &&& tvs_id >= 0 ==> tvs_id / max_los == dem_id / width - max_los
            &&& tvs_id >= 0 ==> tvs_id % max_los == dem_id % width - max_los
        }),
{
    let point = sub_grid_point(dem_id, width, max_los);
    let (x, y) = point;
    law_tvs_id_in_grid(dem_id, width, max_los);
    if is_in_circle(point, max_los) {
        if x < 0 || x > max_los - 1 || y < 0 || y > max_los - 1 {
            lemma_outside_of_square(x, y, max_los - 1);
        }
        dem::law_coordinates_of_index(y, x, max_los);
        assert(0 <= x * max_los) by (nonlinear_arith)
            requires
                0 <= x,
                1 <= max_los,
        ;
    }
}

/// What is packed of a line that fits is its length and its angle.
pub proof fn law_packed_holds_line(distance: u32, angle: u16)
    requires
        distance <= crate::los_pack::U22_MAX,
        angle <= crate::los_pack::U10_MAX,
    ensures
        packed(distance, angle).spec_distance() == distance,
        packed(distance, angle).spec_angle() == angle,
{
}

/// The points of view of interest are all those that are not pruned and are in the sub-grid, in
/// order.
pub proof fn law_all_points_of_interest(line: SightLine, max_los: int, count: int)
    requires
        0 <= count,
    ensures
        line.computed(max_los, count) == Seq::new(count as nat, |pov: int| pov).filter(
            |pov: int|
                !line.prunable@[pov] && 0 <= line.tvs_id(max_los, pov) < max_los * max_los,
        ),
    decreases count,
{
    reveal(Seq::filter);
    let all = Seq::new(count as nat, |pov: int| pov);
    if count > 0 {
        law_all_points_of_interest(line, max_los, count - 1);
        assert(all.drop_last() =~= Seq::new((count - 1) as nat, |pov: int| pov));
    }
}

/// The surface of each point of the sub-grid grows by what is seen from every point of view that
/// stands for it, and by nothing else.
pub proof fn law_surfaces_are_sums(
    line: SightLine,
    surfaces: Seq<int>,
    max_los: int,
    count: int,
    t: int,
)
    requires
        surfaces.len() == max_los * max_los,
        0 <= count <= max_los,
        0 <= t < surfaces.len(),
    ensures
        line.surfaces_after(surfaces, max_los, count).len() == surfaces.len(),
        line.surfaces_after(surfaces, max_los, count)[t] == surfaces[t] + crate::integers::sum(
            |pov: int|
                if !line.prunable@[pov] && line.tvs_id(max_los, pov) == t {
                    unrolled_los::visible_distance(
                        unrolled_los::visibility(line.angles@[pov]@),
                        line.angles@[pov]@.len() as int,
                    )
                } else {
                    0
                },
            count,
        ),
    decreases count,
{
    if count > 0 {
        law_surfaces_are_sums(line, surfaces, max_los, count - 1, t);
    }
}

/// What is seen from the points of view of interest along some lines is added to what the lines
/// before them made of the surfaces.
pub proof fn law_surfaces_are_sums_over_lines(
    lines: Seq<SightLine>,
    surfaces: Seq<int>,
    max_los: int,
    count: int,
    t: int,
)
    requires
        surfaces.len() == max_los * max_los,
        0 <= max_los,
        0 <= count <= lines.len(),
        0 <= t < surfaces.len(),
    ensures
        surfaces_after_lines(lines, surfaces, max_los, count).len() == surfaces.len(),
        surfaces_after_lines(lines, surfaces, max_los, count)[t] == surfaces[t]
            + crate::integers::sum(
            |i: int|
                crate::integers::sum(
                    |pov: int|
                        if !lines[i].prunable@[pov] && lines[i].tvs_id(max_los, pov) == t {
                            unrolled_los::visible_distance(
                                unrolled_los::visibility(lines[i].angles@[pov]@),
                                lines[i].angles@[pov]@.len() as int,
                            )
                        } else {
                            0
                        },
                    max_los,
                ),
            count,
        ),
    decreases count,
{
    if count > 0 {
        law_surfaces_are_sums_over_lines(lines, surfaces, max_los, count - 1, t);
        let before = surfaces_after_lines(lines, surfaces, max_los, count - 1);
        law_surfaces_are_sums(lines[count - 1], before, max_los, max_los, t);
    }
}

/// The longest line of each point of the sub-grid is as long as any line to the last point that is
/// seen from a point of view that stands for it, and it is one of those, or the one from before.
pub proof fn law_longest_is_one_of_all(
    line: SightLine,
    longest: Seq<LineOfSightPacked>,
    max_los: int,
    metres: Seq<u32>,
    angle: u16,
    count: int,
    t: int,
)
    requires
        longest.len() == max_los * max_los,
        0 <= count <= max_los,
        0 <= t < longest.len(),
    ensures
        ({
            let after = line.longest_after(longest, max_los, metres, angle, count);
            &&& after.len() == longest.len()
            &&& after[t].spec_distance() >= longest[t].spec_distance()
            &&& after[t].spec_distance() == longest[t].spec_distance() ==> after[t] == longest[t]
            &&& forall|pov: int|
                0 <= pov < count && line.is_computed(max_los, pov) && #[trigger] line.tvs_id(
                    max_los,
                    pov,
                ) == t ==> after[t].spec_distance() >= packed(
                    metres[line.longest(pov)],
                    angle,
                ).spec_distance()
            &&& after[t] == longest[t] || exists|pov: int|
                0 <= pov < count && line.is_computed(max_los, pov) && #[trigger] line.tvs_id(
                    max_los,
                    pov,
                ) == t && after[t] == packed(metres[line.longest(pov)], angle)
        }),
    decreases count,
{
    if count > 0 {
        law_longest_is_one_of_all(line, longest, max_los, metres, angle, count - 1, t);
        assert(line.tvs_id(max_los, count - 1) == line.tvs_id(max_los, count - 1));
    }
}

/// The longest lines of all lines are those of the first ones, and then of the others.
pub proof fn law_longest_over_lines(
    lines: Seq<SightLine>,
    longest: Seq<LineOfSightPacked>,
    max_los: int,
    metres: Seq<u32>,
    angle: u16,
    count: int,
    t: int,
)
    requires
        longest.len() == max_los * max_los,
        0 <= max_los,
        0 <= count <= lines.len(),
        0 <= t < longest.len(),
    ensures
        ({
            let after = longest_after_lines(lines, longest, max_los, metres, angle, count);
            &&& after.len() == longest.len()
            &&& after[t].spec_distance() >= longest[t].spec_distance()
            &&& after[t].spec_distance() == longest[t].spec_distance() ==> after[t] == longest[t]
            &&& forall|i: int, pov: int|
                0 <= i < count && 0 <= pov < max_los && lines[i].is_computed(max_los, pov)
                    && #[trigger] lines[i].tvs_id(max_los, pov) == t ==> after[t].spec_distance()
                    >= packed(metres[lines[i].longest(pov)], angle).spec_distance()
            &&& after[t] == longest[t] || exists|i: int, pov: int|
                0 <= i < count && 0 <= pov < max_los && lines[i].is_computed(max_los, pov)
                    && #[trigger] lines[i].tvs_id(max_los, pov) == t && after[t] == packed(
                    metres[lines[i].longest(pov)],
                    angle,
                )
        }),
    decreases count,
{
    if count > 0 {
        law_longest_over_lines(lines, longest, max_los, metres, angle, count - 1, t);
        let before = longest_after_lines(lines, longest, max_los, metres, angle, count - 1);
        law_longest_is_one_of_all(lines[count - 1], before, max_los, metres, angle, max_los, t);
    }
}

/// The points of view of interest of some lines are those of each line, one line after the other.
pub proof fn law_points_of_interest_of_lines(
    lines: Seq<SightLine>,
    max_los: int,
    count: int,
)
    requires
        0 <= count <= lines.len(),
        0 <= max_los,
    ensures
        ({
            let computed = computed_of_lines(lines, max_los, count);
            &&& forall|i: int, pov: int| #[trigger]
                computed.contains((i, pov)) <==> 0 <= i < count && 0 <= pov < max_los
                    && lines[i].is_computed(max_los, pov)
            &&& forall|j: int, k: int|
                0 <= j < k < computed.len() ==> (#[trigger] computed[j]).0 < (
                #[trigger] computed[k]).0 || (computed[j].0 == computed[k].0 && computed[j].1
                    < computed[k].1)
        }),
    decreases count,
{
    if count > 0 {
        law_points_of_interest_of_lines(lines, max_los, count - 1);
        lemma_computed_ascend(lines[count - 1], max_los, max_los);
        let before = computed_of_lines(lines, max_los, count - 1);
        let found = lines[count - 1].computed(max_los, max_los);
        let last = found.map_values(|pov: int| (count - 1, pov));
        let computed = computed_of_lines(lines, max_los, count);
        assert(computed == before + last);
        assert forall|i: int, pov: int| #[trigger] computed.contains((i, pov)) <==> 0 <= i < count
            && 0 <= pov < max_los && lines[i].is_computed(max_los, pov) by {
            if computed.contains((i, pov)) {
                let k = choose|k: int| 0 <= k < computed.len() && computed[k] == (i, pov);
                if k < before.len() {
                    assert(before[k] == (i, pov));
                    assert(before.contains((i, pov)));
                } else {
                    assert(last[k - before.len()] == (i, pov));
                    assert(found[k - before.len()] == pov);
                    assert(found.contains(pov));
                }
            }
            if 0 <= i < count && 0 <= pov < max_los && lines[i].is_computed(max_los, pov) {
                if i < count - 1 {
                    assert(before.contains((i, pov)));
                    let k = choose|k: int| 0 <= k < before.len() && before[k] == (i, pov);
                    assert(computed[k] == (i, pov));
                } else {
                    assert(found.contains(pov));
                    let k = choose|k: int| 0 <= k < found.len() && found[k] == pov;
                    assert(last[k] == (i, pov));
                    assert(computed[before.len() + k] == (i, pov));
                }
            }
        }
        assert forall|j: int, k: int| 0 <= j < k < computed.len() implies (
        #[trigger] computed[j]).0 < (#[trigger] computed[k]).0 || (computed[j].0 == computed[k].0
            && computed[j].1 < computed[k].1) by {
            if k < before.len() {
                assert(computed[j] == before[j] && computed[k] == before[k]);
            } else if j < before.len() {
                assert(computed[j] == before[j]);
                let (i, pov) = before[j];
                assert(before.contains((i, pov)));
                assert(computed[k] == last[k - before.len()]);
            } else {
                assert(computed[j] == last[j - before.len()]);
                assert(computed[k] == last[k - before.len()]);
                assert(found[j - before.len()] < found[k - before.len()]);
            }
        }
    }
}

/// The points of view of interest along a line, in order.
proof fn lemma_computed_ascend(line: SightLine, max_los: int, count: int)
    requires
        0 <= count,
    ensures
        forall|pov: int| #[trigger]
            line.computed(max_los, count).contains(pov) <==> 0 <= pov < count && line.is_computed(
                max_los,
                pov,
            ),
        forall|j: int, k: int|
            0 <= j < k < line.computed(max_los, count).len() ==> #[trigger] line.computed(
                max_los,
                count,
            )[j] < #[trigger] line.computed(max_los, count)[k],
    decreases count,
{
    if count > 0 {
        lemma_computed_ascend(line, max_los, count - 1);
        let before = line.computed(max_los, count - 1);
        let after = line.computed(max_los, count);
        assert forall|pov: int| #[trigger] after.contains(pov) <==> 0 <= pov < count
            && line.is_computed(max_los, pov) by {
            if before.contains(pov) {
                let k = choose|k: int| 0 <= k < before.len() && before[k] == pov;
                assert(after[k] == pov);
            }
            if after.contains(pov) && pov != count - 1 {
                let k = choose|k: int| 0 <= k < after.len() && after[k] == pov;
                assert(before[k] == pov);
            }
            if line.is_computed(max_los, count - 1) {
                assert(after[before.len() as int] == count - 1);
            }
        }
        assert forall|j: int, k: int| 0 <= j < k < after.len() implies #[trigger] after[j]
            < #[trigger] after[k] by {
            assert(after[j] == before[j] && before.contains(before[j]));
            if k < before.len() {
                assert(after[k] == before[k]);
            }
        }
    }
}

/// Coordinates in the sub-grid are counted from where it starts in the DEM. Rows come first.
pub proof fn law_sub_grid_starts_after_line_of_sight(dem_id: int, width: int, max_los: int)
    requires
        0 < width,
    ensures
        sub_grid_point(dem_id, width, max_los).0 == dem_id / width - max_los,
        sub_grid_point(dem_id, width, max_los).1 == dem_id % width - max_los,
        (sub_grid_point(dem_id, width, max_los).0 + max_los) * width + sub_grid_point(
            dem_id,
            width,
            max_los,
        ).1 + max_los == dem_id,
{
    dem::law_index_of_coordinates(dem_id, width);
}

/// Every row is of a point of view of interest: it has its DEM ID and the angle, and what can be read
/// from it is what is visible from there.
pub proof fn law_rows_tell_what_is_visible(
    lines: Seq<SightLine>,
    rows: Seq<Row>,
    max_los: int,
    angle: u16,
    count: int,
    k: int,
    read: Seq<crate::segments::Segment>,
    i: int,
)
    requires
        0 <= count <= lines.len(),
        0 <= max_los,
        forall|j: int| 0 <= j < lines.len() ==> (#[trigger] lines[j]).wf(max_los),
        are_rows_of_lines(lines, rows, max_los, angle, count),
        0 <= k < rows.len(),
        crate::db::blob_of(read) == rows[k].visible_segments@,
        0 <= i < max_los,
    ensures
        rows.len() == computed_of_lines(lines, max_los, count).len(),
        ({
            let (line, pov) = computed_of_lines(lines, max_los, count)[k];
            &&& rows[k].dem_id == lines[line].line.indexes@[pov]
            &&& rows[k].neighbourhood_id == None::<i64>
            &&& rows[k].angle_id == angle
            &&& unrolled_los::is_visible(lines[line].angles@[pov]@, i) <==> exists|j: int|
                0 <= j < read.len() && (#[trigger] read[j]).spec_start() <= i < read[j].spec_start()
                    + read[j].spec_distance()
        }),
{
    let computed = computed_of_lines(lines, max_los, count);
    let (line, pov) = computed[k];
    law_points_of_interest_of_lines(lines, max_los, count);
    assert(computed.contains((line, pov)));
    assert(lines[line].wf(max_los));
    assert(lines[line].angles@[pov]@.len() == max_los);
    assert(0 <= lines[line].line.indexes@[pov]);
    let dem_id = lines[line].line.indexes@[pov] as u64;
    let seen = lines[line].visibility(pov);
    assert(worker::is_row_for(rows[k], dem_id, None, angle, seen));
    worker::law_row_reads_back(rows[k], dem_id, None, angle, seen, read);
    let runs = crate::segments::runs_of(read);
    crate::runs::law_runs_decode(seen, runs);
    assert(seen[i] == crate::runs::is_covered(runs, i));
    if seen[i] {
        let j = choose|j: int| 0 <= j < runs.len() && (#[trigger] runs[j]).covers(i);
        assert(runs[j] == read[j].run());
    }
    if exists|j: int|
        0 <= j < read.len() && (#[trigger] read[j]).spec_start() <= i < read[j].spec_start()
            + read[j].spec_distance() {
        let j = choose|j: int|
            0 <= j < read.len() && (#[trigger] read[j]).spec_start() <= i < read[j].spec_start()
                + read[j].spec_distance();
        assert(runs[j] == read[j].run());
        assert(runs[j].covers(i));
    }
}

/// A point of view stands for the point of the sub-grid at its own place in the DEM, and sees what
/// its own angles show.
pub proof fn law_points_of_view_see_for_themselves(
    line: SightLine,
    max_los: int,
    pov: int,
    i: int,
)
    requires
        line.wf(max_los),
        1 <= max_los,
        0 <= pov < max_los,
        0 <= i < max_los,
    ensures
        ({
            let dem_id = line.line.indexes@[pov] as int;
            let tvs_id = line.tvs_id(max_los, pov);
            tvs_id >= 0 ==> tvs_id / max_los == dem_id / (3 * max_los) - max_los && tvs_id % max_los
                == dem_id % (3 * max_los) - max_los
        }),
        line.visibility(pov).len() == max_los,
        line.visibility(pov)[i] == unrolled_los::is_visible(line.angles@[pov]@, i),
        line.longest(pov) > 0 ==> unrolled_los::is_visible(
            line.angles@[pov]@,
            line.longest(pov) - 1,
        ),
        line.longest(pov) <= i ==> !unrolled_los::is_visible(line.angles@[pov]@, i),
        line.is_computed(max_los, pov) <==> !line.prunable@[pov] && line.tvs_id(max_los, pov) >= 0,
{
    assert(line.angles@[pov]@.len() == max_los);
    law_tvs_id_goes_by_rows(line.line.indexes@[pov] as int, 3 * max_los, max_los);
    law_tvs_id_in_grid(line.line.indexes@[pov] as int, 3 * max_los, max_los);
    unrolled_los::law_longest_line_ends_at_last_visible(line.visibility(pov), max_los);
    if line.longest(pov) <= i {
        assert(!line.visibility(pov)[i]);
    }
    if line.longest(pov) > 0 {
        assert(line.visibility(pov)[line.longest(pov) - 1]);
    }
}

} // verus!
