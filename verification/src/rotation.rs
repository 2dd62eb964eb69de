//! Rotate the DEM, but just the so-called "chocolate bar" region.

use crate::dem;
use crate::rotator;
use crate::rotator::Rotator;
use vstd::prelude::*;

verus! {

/// A line of rotated points.
pub struct Line {
    /// The elevation of each point.
    pub elevations: Vec<i16>,
    /// The DEM ID of each point.
    pub indexes: Vec<i64>,
}

/// The DEM ID that the point at the given coordinates gets its elevation from.
pub open spec fn rotated_index(rotator: Rotator, x: int, y: int) -> int {
    let rotated = rotator.spec_rotate((x, y));
    dem::index_of(rotated.0, rotated.1, rotator.width())
}

/// The elevation that is last seen at or before `index`. Nothing is seen where there is no data.
pub open spec fn last_seen(line: Seq<i16>, index: int) -> i16
    decreases index + 1,
{
    if index < 0 {
        0
    } else if line[index] != i16::MIN {
        line[index]
    } else {
        last_seen(line, index - 1)
    }
}

/// A line in which every gap is filled.
pub open spec fn filled(line: Seq<i16>) -> Seq<i16> {
    Seq::new(line.len(), |i: int| last_seen(line, i))
}

/// `fill_line_elevations` will fill in "blank" elevations from NASA data with the last seen
/// elevation in the line of sight.
pub fn fill_line_elevations(line: &mut [i16])
    ensures
        final(line)@ == filled(old(line)@),
{
    let mut last: i16 = 0;
    let mut index: usize = 0;
    let len: usize = line.len();
    while index < len
        invariant
            index <= len == line@.len() == old(line)@.len(),
            last == last_seen(old(line)@, index - 1),
            forall|i: int| 0 <= i < index ==> #[trigger] line@[i] == last_seen(old(line)@, i),
            forall|i: int| index <= i < len ==> #[trigger] line@[i] == old(line)@[i],
        decreases len - index,
    {
        if line[index] == i16::MIN {
            line[index] = last;
        } else {
            last = line[index];
        }
        index += 1;
    }
    assert(line@ =~= filled(old(line)@));
}

/// No gap is left in a filled line.
pub proof fn law_filled_has_no_gaps(line: Seq<i16>, index: int)
    requires
        0 <= index < line.len(),
    ensures
        filled(line)[index] != i16::MIN,
{
    lemma_last_seen_is_seen(line, index);
}

/// What is last seen is data.
proof fn lemma_last_seen_is_seen(line: Seq<i16>, index: int)
    ensures
        last_seen(line, index) != i16::MIN,
    decreases index + 1,
{
    if index >= 0 {
        lemma_last_seen_is_seen(line, index - 1);
    }
}

/// Filling a line without gaps changes nothing, so neither does filling a line twice.
pub proof fn law_filling_is_idempotent(line: Seq<i16>)
    ensures
        filled(filled(line)) == filled(line),
{
    assert forall|i: int| 0 <= i < line.len() implies filled(filled(line))[i] == filled(line)[i] by {
        law_filled_has_no_gaps(line, i);
    }
    assert(filled(filled(line)) =~= filled(line));
}

/// Whether `line` is the rotated line through the points at `y`, from the middle third of the DEM
/// on.
pub open spec fn is_rotated_line(
    line: Line,
    elevs: Seq<i16>,
    max_los: int,
    rotator: Rotator,
    y: int,
) -> bool {
    let raw = Seq::new(
        (2 * max_los) as nat,
        |i: int| elevs[rotated_index(rotator, max_los + i, y)],
    );
    &&& line.indexes@.len() == 2 * max_los
    &&& forall|i: int|
        0 <= i < 2 * max_los ==> #[trigger] line.indexes@[i] == rotated_index(
            rotator,
            max_los + i,
            y,
        )
    &&& line.elevations@ == filled(raw)
}

/// The rotation of a point in the DEM is in the DEM.
proof fn lemma_rotated_index(rotator: Rotator, x: int, y: int)
    requires
        rotator.width_index >= 0,
    ensures
        0 <= rotated_index(rotator, x, y) < rotator.width() * rotator.width(),
{
    let rotated = rotator.spec_rotate((x, y));
    let width = rotator.width();
    assert(0 <= rotated.1 * width + rotated.0 < width * width) by (nonlinear_arith)
        requires
            0 <= rotated.0 < width,
            0 <= rotated.1 < width,
    ;
}

/// Rotate one line of elevation data.
pub fn rotate_line(elevs: &[i16], max_los: usize, rotator: &Rotator, y: i64) -> (line: Line)
    requires
        rotator.wf(),
        rotator.width() == 3 * max_los,
        elevs@.len() == rotator.width() * rotator.width(),
        elevs@.len() <= i64::MAX,
        max_los <= y < 2 * max_los,
    ensures
        is_rotated_line(line, elevs@, max_los as int, *rotator, y as int),
{
    let width: i64 = rotator.width_index + 1;
    let mut indexes: Vec<i64> = Vec::new();
    let mut elevations: Vec<i16> = Vec::new();
    let ghost raw = Seq::new(
        (2 * max_los) as nat,
        |i: int| elevs@[rotated_index(*rotator, max_los + i, y as int)],
    );
    let mut x: i64 = max_los as i64;
    while x < width
        invariant
            rotator.wf(),
            width == rotator.width() == 3 * max_los,
            elevs@.len() == rotator.width() * rotator.width(),
            elevs@.len() <= i64::MAX,
            max_los <= x <= width,
            max_los <= y < 2 * max_los,
            indexes@.len() == elevations@.len() == x - max_los,
            raw == Seq::new(
                (2 * max_los) as nat,
                |i: int| elevs@[rotated_index(*rotator, max_los + i, y as int)],
            ),
            forall|i: int|
                0 <= i < indexes@.len() ==> #[trigger] indexes@[i] == rotated_index(
                    *rotator,
                    max_los + i,
                    y as int,
                ),
            forall|i: int| 0 <= i < elevations@.len() ==> #[trigger] elevations@[i] == raw[i],
        decreases width - x,
    {
        let (x_rotated, y_rotated) = rotator.rotate(x, y);
        proof {
            lemma_rotated_index(*rotator, x as int, y as int);
            assert(0 <= y_rotated * width) by (nonlinear_arith)
                requires
                    0 <= y_rotated,
                    0 <= width,
            ;
        }
        let new_idx: i64 = y_rotated * width + x_rotated;
        indexes.push(new_idx);
        assert(elevs.len() == elevs@.len());
        elevations.push(elevs[new_idx as usize]);
        x += 1;
    }
    assert(elevations@ =~= raw);
    fill_line_elevations(elevations.as_mut_slice());
    Line { elevations, indexes }
}

/// Rotate lines of elevation data: all the lines through the middle third of the DEM.
pub fn lines(elevs: &[i16], max_los: usize, rotator: &Rotator) -> (lines: Vec<Line>)
    requires
        rotator.wf(),
        rotator.width() == 3 * max_los,
        elevs@.len() == rotator.width() * rotator.width(),
        elevs@.len() <= i64::MAX,
    ensures
        lines@.len() == max_los,
        forall|i: int|
            0 <= i < max_los ==> is_rotated_line(
                #[trigger] lines@[i],
                elevs@,
                max_los as int,
                *rotator,
                max_los + i,
            ),
{
    let mut lines: Vec<Line> = Vec::new();
    while lines.len() < max_los
        invariant
            rotator.wf(),
            rotator.width() == 3 * max_los,
            elevs@.len() == rotator.width() * rotator.width(),
            elevs@.len() <= i64::MAX,
            lines@.len() <= max_los,
            forall|i: int|
                0 <= i < lines@.len() ==> is_rotated_line(
                    #[trigger] lines@[i],
                    elevs@,
                    max_los as int,
                    *rotator,
                    max_los + i,
                ),
        decreases max_los - lines@.len(),
    {
        let y: i64 = max_los as i64 + lines.len() as i64;
        lines.push(rotate_line(elevs, max_los, rotator, y));
    }
    lines
}

/// The index of a rotated point, moved back into the DEM where it left it.
pub open spec fn clamped_index(rotated: (i64, i64), width: int) -> int {
    dem::index_of(
        rotator::clamped(rotated.1 as int, 0, width - 1),
        rotator::clamped(rotated.0 as int, 0, width - 1),
        width,
    )
}

/// `generate_rotation` generates a rotation "map" for a given elevation list, from where each of
/// the points is rotated to: the index of each point, and its elevation.
pub fn generate_rotation(elevs: &[i16], rotated: &[(i64, i64)], width: i64) -> (map: (
    Vec<i32>,
    Vec<i16>,
))
    requires
        0 < width,
        elevs@.len() == width * width,
        elevs@.len() <= i32::MAX,
    ensures
        map.0@.len() == rotated@.len(),
        map.1@.len() == rotated@.len(),
        forall|i: int|
            0 <= i < rotated@.len() ==> #[trigger] map.0@[i] == clamped_index(
                rotated@[i],
                width as int,
            ),
        forall|i: int|
            0 <= i < rotated@.len() ==> #[trigger] map.1@[i] == elevs@[clamped_index(
                rotated@[i],
                width as int,
            )],
{
    let mut rotation: Vec<i32> = Vec::with_capacity(rotated.len());
    let mut elevations: Vec<i16> = Vec::with_capacity(rotated.len());
    let mut position: usize = 0;
    while position < rotated.len()
        invariant
            0 < width,
            elevs@.len() == width * width,
            elevs@.len() <= i32::MAX,
            position <= rotated@.len(),
            rotation@.len() == position,
            elevations@.len() == position,
            forall|i: int|
                0 <= i < position ==> #[trigger] rotation@[i] == clamped_index(
                    rotated@[i],
                    width as int,
                ),
            forall|i: int|
                0 <= i < position ==> #[trigger] elevations@[i] == elevs@[clamped_index(
                    rotated@[i],
                    width as int,
                )],
        decreases rotated@.len() - position,
    {
        let (x_rot, y_rot) = rotated[position];
        let x: i64 = rotator::clamp(x_rot, 0, width - 1);
        let y: i64 = rotator::clamp(y_rot, 0, width - 1);
        assert(0 <= x * width && x * width + y < width * width) by (nonlinear_arith)
            requires
                0 <= x < width,
                0 <= y < width,
        ;
        let new_idx: i64 = x * width + y;
        rotation.push(new_idx as i32);
        elevations.push(elevs[new_idx as usize]);
        position += 1;
    }
    (rotation, elevations)
}

/// Where there is data it stays, and where there is none it is carried on from the point before. A
/// line that starts with a gap starts at 0.
pub proof fn law_gaps_are_filled_from_before(line: Seq<i16>, index: int)
    requires
        0 <= index < line.len(),
    ensures
        filled(line).len() == line.len(),
        line[index] != i16::MIN ==> filled(line)[index] == line[index],
        line[index] == i16::MIN && index > 0 ==> filled(line)[index] == filled(line)[index - 1],
        line[index] == i16::MIN && index == 0 ==> filled(line)[index] == 0,
{
    reveal_with_fuel(last_seen, 2);
}

/// Coordinates of rotated points go by columns and rows: the index is in the row and column that the
/// point is rotated to.
pub proof fn law_rotated_index_is_of_rotated_point(rotator: Rotator, x: int, y: int)
    requires
        rotator.width_index >= 0,
    ensures
        rotated_index(rotator, x, y) % rotator.width() == rotator.spec_rotate((x, y)).0,
        rotated_index(rotator, x, y) / rotator.width() == rotator.spec_rotate((x, y)).1,
{
    let rotated = rotator.spec_rotate((x, y));
    dem::law_coordinates_of_index(rotated.0, rotated.1, rotator.width());
}

/// Where nothing is rotated, a line is the row of the DEM at its height, from the middle third on:
/// point after point, with gaps filled.
pub proof fn law_unrotated_line_is_a_row(
    line: Line,
    elevs: Seq<i16>,
    max_los: int,
    rotator: Rotator,
    y: int,
    i: int,
)
    requires
        is_rotated_line(line, elevs, max_los, rotator, y),
        rotator.wf(),
        rotator.width() == 3 * max_los,
        rotator.quadrant == rotator::Quadrant::BottomRight,
        forall|index: int|
            0 <= index < rotator.width() ==> #[trigger] rotator.horizontal.at(rotator.width(), index)
                == 0,
        forall|index: int|
            0 <= index < rotator.width() ==> #[trigger] rotator.vertical.at(rotator.width(), index)
                == 0,
        max_los <= y < 2 * max_los,
        0 <= i < 2 * max_los,
    ensures
        line.indexes@.len() == 2 * max_los,
        line.elevations@.len() == 2 * max_los,
        line.indexes@[i] == y * (3 * max_los) + max_los + i,
        elevs[line.indexes@[i] as int] != i16::MIN ==> line.elevations@[i]
            == elevs[line.indexes@[i] as int],
{
    rotator::law_no_rotation(rotator, (max_los + i, y));
    assert(line.indexes@[i] == rotated_index(rotator, max_los + i, y));
}

/// A line holds the elevation of each of its points, with gaps filled from the point before.
pub proof fn law_line_holds_elevations(
    line: Line,
    elevs: Seq<i16>,
    max_los: int,
    rotator: Rotator,
    y: int,
    i: int,
)
    requires
        is_rotated_line(line, elevs, max_los, rotator, y),
        0 <= i < 2 * max_los,
    ensures
        line.elevations@.len() == 2 * max_los,
        line.indexes@.len() == 2 * max_los,
        line.indexes@[i] == rotated_index(rotator, max_los + i, y),
        line.elevations@[i] == (if elevs[line.indexes@[i] as int] != i16::MIN {
            elevs[line.indexes@[i] as int]
        } else if i > 0 {
            line.elevations@[i - 1]
        } else {
            0
        }),
{
    let raw = Seq::new(
        (2 * max_los) as nat,
        |i: int| elevs[rotated_index(rotator, max_los + i, y)],
    );
    law_gaps_are_filled_from_before(raw, i);
    assert(line.indexes@[i] == rotated_index(rotator, max_los + i, y));
}

/// A point that is rotated into the DEM has the index of its own row and column. The first
/// coordinate is that of the row.
pub proof fn law_clamped_index_is_of_point(rotated: (i64, i64), width: int)
    requires
        0 <= rotated.0 < width,
        0 <= rotated.1 < width,
    ensures
        clamped_index(rotated, width) / width == rotated.0,
        clamped_index(rotated, width) % width == rotated.1,
{
    dem::law_coordinates_of_index(rotated.1 as int, rotated.0 as int, width);
}

} // verus!
