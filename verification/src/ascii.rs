//! Output viewsheds as ASCII. Most likely useful for tests.

use crate::bresenham;
use crate::bresenham::{Bresenham, RasterCoord};
use vstd::prelude::*;

verus! {

/// A polygon whose corners are pixels.
#[derive(Clone, Debug)]
pub struct RasterPolygon {
    /// The corners of the outline.
    pub exterior: Vec<RasterCoord>,
    /// The corners of each of the holes.
    pub interiors: Vec<Vec<RasterCoord>>,
}

/// Whether the line between two corners goes through a pixel.
pub open spec fn line_hits(from: RasterCoord, to: RasterCoord, x: int, y: int) -> bool {
    exists|step: int|
        0 <= step < bresenham::line_len(from, to) && #[trigger] bresenham::line_point(from, to, step)
            == (x, y)
}

/// Whether the line from the corner at `index` to the next goes through a pixel.
pub open spec fn edge_hits(ring: Seq<RasterCoord>, index: int, x: int, y: int) -> bool {
    0 <= index < ring.len() - 1 && line_hits(ring[index], ring[index + 1], x, y)
}

/// Whether a line from some corner to the next goes through a pixel.
pub open spec fn ring_hits(ring: Seq<RasterCoord>, x: int, y: int) -> bool {
    exists|index: int| edge_hits(ring, index, x, y)
}

/// Whether the outline, or that of a hole, goes through a pixel.
pub open spec fn polygon_hits(polygon: RasterPolygon, x: int, y: int) -> bool {
    ||| ring_hits(polygon.exterior@, x, y)
    ||| exists|j: int| 0 <= j < polygon.interiors@.len() && ring_hits(#[trigger] polygon.interiors@[j]@, x, y)
}

/// Whether an outline of one of the polygons goes through a pixel.
pub open spec fn multi_polygon_hits(multi_polygon: Seq<RasterPolygon>, x: int, y: int) -> bool {
    exists|k: int| 0 <= k < multi_polygon.len() && polygon_hits(#[trigger] multi_polygon[k], x, y)
}

/// Whether the line between two corners does not go beyond the right or the lower side of a raster
/// of the given width. It may go beyond the other sides: nothing is drawn there.
pub open spec fn line_fits(from: RasterCoord, to: RasterCoord, width: int) -> bool {
    forall|step: int|
        0 <= step < bresenham::line_len(from, to) ==> {
            let point = #[trigger] bresenham::line_point(from, to, step);
            point.0 >= 0 && point.1 >= 0 ==> point.0 < width && point.1 < width
        }
}

/// Whether no line of a ring goes beyond the right or the lower side.
pub open spec fn ring_fits(ring: Seq<RasterCoord>, width: int) -> bool {
    forall|index: int|
        0 <= index < ring.len() - 1 ==> line_fits(#[trigger] ring[index], ring[index + 1], width)
}

/// Whether no line of a polygon goes beyond the right or the lower side.
pub open spec fn polygon_fits(polygon: RasterPolygon, width: int) -> bool {
    &&& ring_fits(polygon.exterior@, width)
    &&& forall|j: int|
        0 <= j < polygon.interiors@.len() ==> ring_fits(#[trigger] polygon.interiors@[j]@, width)
}

/// A pixel of the raster.
spec fn lit(raster: Seq<Vec<bool>>, x: int, y: int) -> bool {
    raster[y]@[x]
}

/// Whether the raster is a square.
spec fn is_square(raster: Seq<Vec<bool>>, width: int) -> bool {
    &&& raster.len() == width
    &&& forall|y: int| 0 <= y < width ==> (#[trigger] raster[y])@.len() == width
}

/// The character for two pixels above each other. What is drawn is left blank.
pub open spec fn glyph(upper: bool, lower: bool) -> char {
    if upper && lower {
        ' '
    } else if lower {
        '▀'
    } else if upper {
        '▄'
    } else {
        '█'
    }
}

/// Draw the line between two corners.
fn draw_line(raster: &mut Vec<Vec<bool>>, from: RasterCoord, to: RasterCoord, width: usize)
    requires
        is_square(old(raster)@, width as int),
        line_fits(from, to, width as int),
    ensures
        is_square(final(raster)@, width as int),
        forall|x: int, y: int|
            0 <= x < width && 0 <= y < width ==> #[trigger] lit(final(raster)@, x, y) == (lit(
                old(raster)@,
                x,
                y,
            ) || line_hits(from, to, x, y)),
{
    let pixels = Bresenham::new(from, to).collect();
    let mut index: usize = 0;
    while index < pixels.len()
        invariant
            is_square(raster@, width as int),
            line_fits(from, to, width as int),
            index <= pixels@.len(),
            pixels@.len() == bresenham::line_len(from, to),
            forall|i: int|
                0 <= i < pixels@.len() ==> (
                    (#[trigger] pixels@[i]).x as int,
                    pixels@[i].y as int,
                ) == bresenham::line_point(from, to, i),
            forall|x: int, y: int|
                0 <= x < width && 0 <= y < width ==> #[trigger] lit(raster@, x, y) == (lit(
                    old(raster)@,
                    x,
                    y,
                ) || exists|step: int|
                    0 <= step < index && #[trigger] bresenham::line_point(from, to, step) == (x, y)),
        decreases pixels@.len() - index,
    {
        let coord = pixels[index];
        let ghost before = raster@;
        assert(bresenham::line_point(from, to, index as int) == (coord.x as int, coord.y as int));
        if coord.x >= 0 && coord.y >= 0 {
            let x: usize = coord.x as usize;
            let y: usize = coord.y as usize;
            raster[y][x] = true;
        }
        assert forall|x: int, y: int|
            0 <= x < width && 0 <= y < width implies #[trigger] lit(raster@, x, y) == (lit(
            old(raster)@,
            x,
            y,
        ) || exists|step: int|
            0 <= step < index + 1 && #[trigger] bresenham::line_point(from, to, step) == (x, y)) by {
            assert(lit(before, x, y) == (lit(old(raster)@, x, y) || exists|step: int|
                0 <= step < index && #[trigger] bresenham::line_point(from, to, step) == (x, y)));
        }
        index += 1;
    }
}

/// Draw the lines from each corner of a ring to the next.
fn draw_ring(raster: &mut Vec<Vec<bool>>, ring: &Vec<RasterCoord>, width: usize)
    requires
        is_square(old(raster)@, width as int),
        ring_fits(ring@, width as int),
    ensures
        is_square(final(raster)@, width as int),
        forall|x: int, y: int|
            0 <= x < width && 0 <= y < width ==> #[trigger] lit(final(raster)@, x, y) == (lit(
                old(raster)@,
                x,
                y,
            ) || ring_hits(ring@, x, y)),
{
    if ring.len() == 0 {
        return ;
    }
    let mut index: usize = 1;
    while index < ring.len()
        invariant
            is_square(raster@, width as int),
            ring_fits(ring@, width as int),
            1 <= index <= ring@.len(),
            forall|x: int, y: int|
                0 <= x < width && 0 <= y < width ==> #[trigger] lit(raster@, x, y) == (lit(
                    old(raster)@,
                    x,
                    y,
                ) || exists|i: int| 0 <= i < index - 1 && edge_hits(ring@, i, x, y)),
        decreases ring@.len() - index,
    {
        let ghost before = raster@;
        let ghost edge = index - 1;
        assert(line_fits(ring@[edge], ring@[edge + 1], width as int));
        draw_line(raster, ring[index - 1], ring[index], width);
        assert forall|x: int, y: int|
            0 <= x < width && 0 <= y < width implies #[trigger] lit(raster@, x, y) == (lit(
            old(raster)@,
            x,
            y,
        ) || exists|i: int| 0 <= i < index && edge_hits(ring@, i, x, y)) by {
            assert(lit(before, x, y) == (lit(old(raster)@, x, y) || exists|i: int|
                0 <= i < index - 1 && edge_hits(ring@, i, x, y)));
            assert(edge_hits(ring@, edge, x, y) == line_hits(ring@[edge], ring@[edge + 1], x, y));
        }
        index += 1;
    }
}

/// Draw the outline of a polygon and of each of its holes.
fn draw_polygon(raster: &mut Vec<Vec<bool>>, polygon: &RasterPolygon, width: usize)
    requires
        is_square(old(raster)@, width as int),
        polygon_fits(*polygon, width as int),
    ensures
        is_square(final(raster)@, width as int),
        forall|x: int, y: int|
            0 <= x < width && 0 <= y < width ==> #[trigger] lit(final(raster)@, x, y) == (lit(
                old(raster)@,
                x,
                y,
            ) || polygon_hits(*polygon, x, y)),
{
    draw_ring(raster, &polygon.exterior, width);
    let mut index: usize = 0;
    while index < polygon.interiors.len()
        invariant
            is_square(raster@, width as int),
            polygon_fits(*polygon, width as int),
            index <= polygon.interiors@.len(),
            forall|x: int, y: int|
                0 <= x < width && 0 <= y < width ==> #[trigger] lit(raster@, x, y) == (lit(
                    old(raster)@,
                    x,
                    y,
                ) || ring_hits(polygon.exterior@, x, y) || exists|j: int|
                    0 <= j < index && ring_hits(#[trigger] polygon.interiors@[j]@, x, y)),
        decreases polygon.interiors@.len() - index,
    {
        let ghost before = raster@;
        draw_ring(raster, &polygon.interiors[index], width);
        assert forall|x: int, y: int|
            0 <= x < width && 0 <= y < width implies #[trigger] lit(raster@, x, y) == (lit(
            old(raster)@,
            x,
            y,
        ) || ring_hits(polygon.exterior@, x, y) || exists|j: int|
            0 <= j < index + 1 && ring_hits(#[trigger] polygon.interiors@[j]@, x, y)) by {
            assert(lit(before, x, y) == (lit(old(raster)@, x, y) || ring_hits(
                polygon.exterior@,
                x,
                y,
            ) || exists|j: int|
                0 <= j < index && ring_hits(#[trigger] polygon.interiors@[j]@, x, y)));
            if ring_hits(polygon.interiors@[index as int]@, x, y) {
                assert(0 <= index < index + 1);
            }
        }
        index += 1;
    }
}

/// Draw the outlines of polygons, with two rows of pixels in each line of text.
///
/// The raster is `width * scale` pixels wide and high.
pub fn rasterise_multi_polygon_geo(
    multi_polygon: &[RasterPolygon],
    width: u32,
    scale: u32,
) -> (ascii: Vec<String>)
    requires
        width * scale <= u32::MAX,
        forall|k: int|
            0 <= k < multi_polygon@.len() ==> polygon_fits(
                #[trigger] multi_polygon@[k],
                width * scale,
            ),
    ensures
        ascii@.len() == width * scale / 2,
        forall|row: int|
            0 <= row < ascii@.len() ==> (#[trigger] ascii@[row])@ == Seq::new(
                (width * scale) as nat,
                |x: int|
                    glyph(
                        multi_polygon_hits(multi_polygon@, x, 2 * row),
                        multi_polygon_hits(multi_polygon@, x, 2 * row + 1),
                    ),
            ),
{
    let raster_width: usize = (width * scale) as usize;

    let mut raster: Vec<Vec<bool>> = Vec::new();
    while raster.len() < raster_width
        invariant
            raster@.len() <= raster_width,
            forall|y: int| 0 <= y < raster@.len() ==> (#[trigger] raster@[y])@.len() == raster_width,
            forall|x: int, y: int|
                0 <= x < raster_width && 0 <= y < raster@.len() ==> !#[trigger] lit(raster@, x, y),
        decreases raster_width - raster@.len(),
    {
        let raster_line: Vec<bool> = vec![false; raster_width];
        let ghost before = raster@;
        raster.push(raster_line);
        assert forall|x: int, y: int|
            0 <= x < raster_width && 0 <= y < raster@.len() implies !#[trigger] lit(raster@, x, y) by {
            if y < before.len() {
                assert(!lit(before, x, y));
            }
        }
    }

    let mut index: usize = 0;
    while index < multi_polygon.len()
        invariant
            raster_width == width * scale,
            is_square(raster@, raster_width as int),
            index <= multi_polygon@.len(),
            forall|k: int|
                0 <= k < multi_polygon@.len() ==> polygon_fits(
                    #[trigger] multi_polygon@[k],
                    width * scale,
                ),
            forall|x: int, y: int|
                0 <= x < raster_width && 0 <= y < raster_width ==> #[trigger] lit(raster@, x, y) == (
                exists|k: int|
                    0 <= k < index && polygon_hits(#[trigger] multi_polygon@[k], x, y)),
        decreases multi_polygon@.len() - index,
    {
        let ghost before = raster@;
        draw_polygon(&mut raster, &multi_polygon[index], raster_width);
        assert forall|x: int, y: int|
            0 <= x < raster_width && 0 <= y < raster_width implies #[trigger] lit(raster@, x, y) == (
        exists|k: int|
            0 <= k < index + 1 && polygon_hits(#[trigger] multi_polygon@[k], x, y)) by {
            assert(lit(before, x, y) == exists|k: int|
                0 <= k < index && polygon_hits(#[trigger] multi_polygon@[k], x, y));
            if polygon_hits(multi_polygon@[index as int], x, y) {
                assert(0 <= index < index + 1);
            }
        }
        index += 1;
    }

    let mut ascii: Vec<String> = Vec::new();
    let row_count: usize = raster_width / 2;
    let mut row: usize = 0;
    while row < row_count
        invariant
            raster_width == width * scale,
            row_count == raster_width / 2,
            row <= row_count,
            ascii@.len() == row,
            is_square(raster@, raster_width as int),
            forall|x: int, y: int|
                0 <= x < raster_width && 0 <= y < raster_width ==> #[trigger] lit(raster@, x, y)
                    == multi_polygon_hits(multi_polygon@, x, y),
            forall|r: int|
                0 <= r < row ==> (#[trigger] ascii@[r])@ == Seq::new(
                    (width * scale) as nat,
                    |x: int|
                        glyph(
                            multi_polygon_hits(multi_polygon@, x, 2 * r),
                            multi_polygon_hits(multi_polygon@, x, 2 * r + 1),
                        ),
                ),
        decreases row_count - row,
    {
        let y: usize = row * 2;
        let mut viewshed_line: String = String::new();
        let mut x: usize = 0;
        while x < raster_width
            invariant
                x <= raster_width,
                y == row * 2,
                y + 1 < raster_width,
                is_square(raster@, raster_width as int),
                viewshed_line@ == Seq::new(
                    x as nat,
                    |i: int| glyph(lit(raster@, i, y as int), lit(raster@, i, y + 1)),
                ),
            decreases raster_width - x,
        {
            let upper: bool = raster[y][x];
            let lower: bool = raster[y + 1][x];
            let character: &str = match (upper, lower) {
                (true, true) => " ",
                (false, true) => "▀",
                (true, false) => "▄",
                (false, false) => "█",
            };
            proof {
                reveal_strlit(" ");
                reveal_strlit("▀");
                reveal_strlit("▄");
                reveal_strlit("█");
                assert(character@ =~= seq![glyph(upper, lower)]);
            }
            viewshed_line.append(character);
            x += 1;
            assert(viewshed_line@ =~= Seq::new(
                x as nat,
                |i: int| glyph(lit(raster@, i, y as int), lit(raster@, i, y + 1)),
            ));
        }
        assert(viewshed_line@ =~= Seq::new(
            (width * scale) as nat,
            |x: int|
                glyph(
                    multi_polygon_hits(multi_polygon@, x, 2 * row as int),
                    multi_polygon_hits(multi_polygon@, x, 2 * row + 1),
                ),
        ));
        ascii.push(viewshed_line);
        row += 1;
    }
    ascii
}

/// Every corner of every outline is drawn, those of holes too.
pub proof fn law_corners_are_drawn(
    multi_polygon: Seq<RasterPolygon>,
    k: int,
    ring: Seq<RasterCoord>,
    corner: int,
)
    requires
        0 <= k < multi_polygon.len(),
        ring == multi_polygon[k].exterior@ || exists|j: int|
            0 <= j < multi_polygon[k].interiors@.len() && ring == (
            #[trigger] multi_polygon[k].interiors@[j])@,
        ring.len() > 1,
        0 <= corner < ring.len(),
    ensures
        multi_polygon_hits(multi_polygon, ring[corner].x as int, ring[corner].y as int),
{
    let (x, y) = (ring[corner].x as int, ring[corner].y as int);
    let edge = if corner < ring.len() - 1 {
        corner
    } else {
        corner - 1
    };
    let (from, to) = (ring[edge], ring[edge + 1]);
    bresenham::law_line_ends(from, to);
    let last = bresenham::line_len(from, to) - 1;
    if corner == edge {
        assert(bresenham::line_point(from, to, 0) == (x, y));
    } else {
        assert(bresenham::line_point(from, to, last) == (x, y));
    }
    assert(line_hits(from, to, x, y));
    assert(edge_hits(ring, edge, x, y));
    assert(ring_hits(ring, x, y));
    assert(polygon_hits(multi_polygon[k], x, y));
}

/// What is drawn is on a line from a corner of an outline to the next one.
pub proof fn law_only_lines_are_drawn(multi_polygon: Seq<RasterPolygon>, x: int, y: int)
    requires
        multi_polygon_hits(multi_polygon, x, y),
    ensures
        exists|k: int, ring: Seq<RasterCoord>, index: int, step: int|
            #![trigger multi_polygon[k], bresenham::line_point(ring[index], ring[index + 1], step)]
            0 <= k < multi_polygon.len() && (ring == multi_polygon[k].exterior@ || exists|j: int|
                0 <= j < multi_polygon[k].interiors@.len() && ring == (
                #[trigger] multi_polygon[k].interiors@[j])@) && 0 <= index < ring.len() - 1 && 0
                <= step < bresenham::line_len(ring[index], ring[index + 1])
                && bresenham::line_point(ring[index], ring[index + 1], step) == (x, y),
{
    let k = choose|k: int|
        0 <= k < multi_polygon.len() && polygon_hits(#[trigger] multi_polygon[k], x, y);
    let polygon = multi_polygon[k];
    let ring = if ring_hits(polygon.exterior@, x, y) {
        polygon.exterior@
    } else {
        let j = choose|j: int|
            0 <= j < polygon.interiors@.len() && ring_hits(
                #[trigger] polygon.interiors@[j]@,
                x,
                y,
            );
        polygon.interiors@[j]@
    };
    let index = choose|index: int| edge_hits(ring, index, x, y);
    let step = choose|step: int|
        0 <= step < bresenham::line_len(ring[index], ring[index + 1])
            && #[trigger] bresenham::line_point(ring[index], ring[index + 1], step) == (x, y);
    assert(multi_polygon[k] == polygon);
    assert(bresenham::line_point(ring[index], ring[index + 1], step) == (x, y));
}

/// Two pixels above each other can be read from their character: what is drawn is blank.
pub proof fn law_glyphs_tell_pixels(upper: bool, lower: bool)
    ensures
        glyph(upper, lower) == ' ' <==> upper && lower,
        glyph(upper, lower) == '█' <==> !upper && !lower,
        glyph(upper, lower) == '▀' <==> !upper && lower,
        glyph(upper, lower) == '▄' <==> upper && !lower,
{
}

} // verus!
