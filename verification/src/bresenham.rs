//! Straight lines on a raster.

use vstd::arithmetic::div_mod::{lemma_fundamental_div_mod, lemma_fundamental_div_mod_converse};
use vstd::prelude::*;

verus! {

/// A raster coordinate.
#[derive(Clone, Copy, Debug, PartialEq, Eq, Structural)]
pub struct RasterCoord {
    /// The x coordinate.
    pub x: i32,
    /// The y coordinate.
    pub y: i32,
}

impl From<(i32, i32)> for RasterCoord {
    fn from(value: (i32, i32)) -> (coord: Self) {
        RasterCoord { x: value.0, y: value.1 }
    }
}

impl vstd::std_specs::convert::FromSpecImpl<(i32, i32)> for RasterCoord {
    open spec fn obeys_from_spec() -> bool {
        true
    }

    open spec fn from_spec(value: (i32, i32)) -> Self {
        RasterCoord { x: value.0, y: value.1 }
    }
}

/// The distance between two whole numbers.
pub open spec fn gap(left: int, right: int) -> int {
    if left <= right {
        right - left
    } else {
        left - right
    }
}

/// The direction in which a line leaves `from` for `to`.
pub open spec fn direction(from: int, to: int) -> int {
    if from < to {
        1
    } else {
        -1
    }
}

/// How far a line has gone along its shorter component after `steps` along its longer one: the
/// whole number closest to `steps * minor / major`, and the lower one of two that are as close.
pub open spec fn minor_steps(steps: int, minor: int, major: int) -> int {
    if major == 0 {
        0
    } else {
        (2 * (steps * minor) + major - 1) / (2 * major)
    }
}

/// The number of pixels on a line, its ends included.
pub open spec fn line_len(from: RasterCoord, to: RasterCoord) -> int {
    let delta_x = gap(from.x as int, to.x as int);
    let delta_y = gap(from.y as int, to.y as int);
    if delta_x >= delta_y {
        delta_x + 1
    } else {
        delta_y + 1
    }
}

/// How far the `step`th pixel of a line is from its start, along either component.
pub open spec fn line_offset(from: RasterCoord, to: RasterCoord, step: int) -> (int, int) {
    let delta_x = gap(from.x as int, to.x as int);
    let delta_y = gap(from.y as int, to.y as int);
    if delta_x >= delta_y {
        (step, minor_steps(step, delta_y, delta_x))
    } else {
        (minor_steps(step, delta_x, delta_y), step)
    }
}

/// The `step`th pixel of a line.
pub open spec fn line_point(from: RasterCoord, to: RasterCoord, step: int) -> (int, int) {
    let offset = line_offset(from, to, step);
    (
        from.x + direction(from.x as int, to.x as int) * offset.0,
        from.y + direction(from.y as int, to.y as int) * offset.1,
    )
}

/// The steps along the shorter component are the steps that keep closest to the true line.
proof fn lemma_minor_bounds(steps: int, minor: int, major: int)
    requires
        major > 0,
    ensures
        ({
            let taken = minor_steps(steps, minor, major);
            (2 * taken - 1) * major < 2 * (steps * minor) <= (2 * taken + 1) * major
        }),
{
    let taken = minor_steps(steps, minor, major);
    let doubled = 2 * (steps * minor) + major - 1;
    lemma_fundamental_div_mod(doubled, 2 * major);
    assert(0 <= doubled % (2 * major) < 2 * major);
    assert((2 * taken - 1) * major < doubled - major + 1 <= (2 * taken + 1) * major)
        by (nonlinear_arith)
        requires
            major > 0,
            doubled == (2 * major) * taken + doubled % (2 * major),
            0 <= doubled % (2 * major) < 2 * major,
    ;
}

/// No other number of steps along the shorter component keeps as close.
proof fn lemma_minor_unique(steps: int, minor: int, major: int, taken: int)
    requires
        major > 0,
        (2 * taken - 1) * major < 2 * (steps * minor) <= (2 * taken + 1) * major,
    ensures
        minor_steps(steps, minor, major) == taken,
{
    let doubled = 2 * (steps * minor) + major - 1;
    let rest = doubled - taken * (2 * major);
    assert(0 <= rest < 2 * major) by (nonlinear_arith)
        requires
            (2 * taken - 1) * major < doubled - major + 1 <= (2 * taken + 1) * major,
            rest == doubled - taken * (2 * major),
    ;
    lemma_fundamental_div_mod_converse(doubled, 2 * major, taken, rest);
}

/// The error term decides whether the shorter component takes a step, and the longer one always
/// does.
proof fn lemma_step(steps: int, minor: int, major: int)
    requires
        0 <= steps < major,
        0 <= minor <= major,
    ensures
        ({
            let taken = minor_steps(steps, minor, major);
            let error = (taken + 1) * major - (steps + 1) * minor;
            &&& 2 * error > -minor
            &&& minor_steps(steps + 1, minor, major) == (if 2 * error < major {
                taken + 1
            } else {
                taken
            })
            &&& -2 * major <= error <= 2 * major
        }),
{
    let taken = minor_steps(steps, minor, major);
    let error = (taken + 1) * major - (steps + 1) * minor;
    lemma_minor_bounds(steps, minor, major);
    assert((steps + 1) * minor == steps * minor + minor) by (nonlinear_arith);
    assert((taken + 1) * major == taken * major + major) by (nonlinear_arith);
    assert((2 * taken - 1) * major == 2 * (taken * major) - major) by (nonlinear_arith);
    assert((2 * taken + 1) * major == 2 * (taken * major) + major) by (nonlinear_arith);
    assert((2 * taken + 3) * major == 2 * (taken * major) + 3 * major) by (nonlinear_arith);
    if minor == major {
        assert(steps <= taken) by (nonlinear_arith)
            requires
                minor == major,
                major > 0,
                2 * (steps * minor) <= (2 * taken + 1) * major,
        ;
        assert(steps * minor <= taken * major) by (nonlinear_arith)
            requires
                minor == major,
                major > 0,
                steps <= taken,
        ;
    }
    assert(2 * error > -minor);
    if 2 * error < major {
        assert((2 * (taken + 1) - 1) * major == (2 * taken + 1) * major);
        assert((2 * (taken + 1) + 1) * major == (2 * taken + 3) * major);
        lemma_minor_unique(steps + 1, minor, major, taken + 1);
    } else {
        lemma_minor_unique(steps + 1, minor, major, taken);
    }
}

/// Neither component overshoots.
proof fn lemma_minor_range(steps: int, minor: int, major: int)
    requires
        0 <= steps <= major,
        0 <= minor <= major,
    ensures
        0 <= minor_steps(steps, minor, major) <= minor,
        steps == 0 ==> minor_steps(steps, minor, major) == 0,
        steps == major ==> minor_steps(steps, minor, major) == minor,
{
    if major > 0 {
        let taken = minor_steps(steps, minor, major);
        lemma_minor_bounds(steps, minor, major);
        assert(0 <= steps * minor <= major * minor) by (nonlinear_arith)
            requires
                0 <= steps <= major,
                0 <= minor,
        ;
        assert(0 <= taken <= minor) by (nonlinear_arith)
            requires
                major > 0,
                (2 * taken - 1) * major < 2 * (steps * minor) <= (2 * taken + 1) * major,
                0 <= steps * minor <= major * minor,
        ;
        if steps == 0 {
            assert((0int * minor) == 0);
            lemma_minor_unique(0, minor, major, 0);
        }
        if steps == major {
            assert((2 * minor - 1) * major < 2 * (major * minor) <= (2 * minor + 1) * major)
                by (nonlinear_arith)
                requires
                    major > 0,
            ;
            lemma_minor_unique(major, minor, major, minor);
        }
    }
}

/// A line goes from its start to its end.
pub proof fn law_line_ends(from: RasterCoord, to: RasterCoord)
    ensures
        line_point(from, to, 0) == (from.x as int, from.y as int),
        line_point(from, to, line_len(from, to) - 1) == (to.x as int, to.y as int),
{
    lemma_offset_range(from, to, 0);
    lemma_offset_range(from, to, line_len(from, to) - 1);
    lemma_direction_of_gap(from.x as int, to.x as int);
    lemma_direction_of_gap(from.y as int, to.y as int);
    let delta_x = gap(from.x as int, to.x as int);
    let delta_y = gap(from.y as int, to.y as int);
    if delta_x >= delta_y {
        lemma_minor_range(0, delta_y, delta_x);
        lemma_minor_range(delta_x, delta_y, delta_x);
    } else {
        lemma_minor_range(0, delta_x, delta_y);
        lemma_minor_range(delta_y, delta_x, delta_y);
    }
}

/// A line never leaves the box that its ends span.
pub proof fn law_line_in_box(from: RasterCoord, to: RasterCoord, step: int)
    requires
        0 <= step < line_len(from, to),
    ensures
        ({
            let point = line_point(from, to, step);
            &&& from.x <= point.0 <= to.x || to.x <= point.0 <= from.x
            &&& from.y <= point.1 <= to.y || to.y <= point.1 <= from.y
        }),
{
    lemma_offset_range(from, to, step);
}

/// A line has no gaps and no repeats: each pixel is next to the one before it.
pub proof fn law_line_connected(from: RasterCoord, to: RasterCoord, step: int)
    requires
        0 <= step < line_len(from, to) - 1,
    ensures
        ({
            let point = line_point(from, to, step);
            let next = line_point(from, to, step + 1);
            &&& gap(point.0, next.0) <= 1
            &&& gap(point.1, next.1) <= 1
            &&& point != next
        }),
{
    let delta_x = gap(from.x as int, to.x as int);
    let delta_y = gap(from.y as int, to.y as int);
    if delta_x >= delta_y {
        lemma_step(step, delta_y, delta_x);
    } else {
        lemma_step(step, delta_x, delta_y);
    }
    let offset = line_offset(from, to, step);
    let next = line_offset(from, to, step + 1);
    lemma_direction_step(direction(from.x as int, to.x as int), offset.0, next.0);
    lemma_direction_step(direction(from.y as int, to.y as int), offset.1, next.1);
}

/// A step in either direction keeps its length.
proof fn lemma_direction_step(direction: int, offset: int, next: int)
    requires
        direction == 1 || direction == -1,
        offset <= next <= offset + 1,
    ensures
        gap(direction * offset, direction * next) == next - offset,
{
    assert(direction * offset == (if direction == 1 {
        offset
    } else {
        -offset
    }) && direction * next == (if direction == 1 {
        next
    } else {
        -next
    })) by (nonlinear_arith)
        requires
            direction == 1 || direction == -1,
    ;
}

/// The whole gap in the right direction leads to the end.
proof fn lemma_direction_of_gap(from: int, to: int)
    ensures
        from + direction(from, to) * gap(from, to) == to,
        direction(from, to) * 0 == 0,
{
}

/// How far a pixel can be from the start.
proof fn lemma_offset_range(from: RasterCoord, to: RasterCoord, step: int)
    requires
        0 <= step < line_len(from, to),
    ensures
        0 <= line_offset(from, to, step).0 <= gap(from.x as int, to.x as int),
        0 <= line_offset(from, to, step).1 <= gap(from.y as int, to.y as int),
{
    let delta_x = gap(from.x as int, to.x as int);
    let delta_y = gap(from.y as int, to.y as int);
    if delta_x >= delta_y {
        lemma_minor_range(step, delta_y, delta_x);
    } else {
        lemma_minor_range(step, delta_x, delta_y);
    }
}

/// Yields the pixels on a line using Bresenham's algorithm.
/// <https://en.wikipedia.org/wiki/Bresenham%27s_line_algorithm>
pub struct Bresenham {
    /// Where the line starts.
    origin: Ghost<RasterCoord>,
    /// The current start of the line. Updates as we move through the rasterisation.
    from: RasterCoord,
    /// Where the line ends.
    to: RasterCoord,
    /// The absolute distance that the x component of the line has to move.
    delta_x: i64,
    /// The absolute distance that the y component of the line has to move.
    delta_y: i64,
    /// How to step through each component of the line along the raster.
    incrementor: RasterCoord,
    /// The difference between the deltas. Defines the shortest path between the beginning
    /// and end of the line.
    error: i64,
    /// Whether we've finished rasterising.
    is_finished: bool,
}

impl Bresenham {
    /// Where the line starts.
    pub closed spec fn start(self) -> RasterCoord {
        self.origin@
    }

    /// Where the line ends.
    pub closed spec fn end(self) -> RasterCoord {
        self.to
    }

    /// How many pixels have been yielded.
    pub closed spec fn position(self) -> int {
        if self.is_finished {
            line_len(self.start(), self.end())
        } else if self.delta_x >= self.delta_y {
            gap(self.origin@.x as int, self.from.x as int)
        } else {
            gap(self.origin@.y as int, self.from.y as int)
        }
    }

    /// Whether the parts fit together.
    pub closed spec fn wf(self) -> bool {
        let offset = line_offset(self.start(), self.end(), self.position());
        &&& self.delta_x == gap(self.origin@.x as int, self.to.x as int)
        &&& self.delta_y == gap(self.origin@.y as int, self.to.y as int)
        &&& self.incrementor.x == direction(self.origin@.x as int, self.to.x as int)
        &&& self.incrementor.y == direction(self.origin@.y as int, self.to.y as int)
        &&& !self.is_finished ==> {
            &&& 0 <= self.position() < line_len(self.start(), self.end())
            &&& line_point(self.start(), self.end(), self.position()) == (
                self.from.x as int,
                self.from.y as int,
            )
            &&& self.error == (offset.1 + 1) * self.delta_x - (offset.0 + 1) * self.delta_y
        }
    }

    /// How many pixels have been yielded is at least none and at most all of them.
    pub proof fn lemma_position(self)
        requires
            self.wf(),
        ensures
            0 <= self.position() <= line_len(self.start(), self.end()),
    {
    }

    /// Instantiate.
    pub fn new(from: RasterCoord, to: RasterCoord) -> (line: Self)
        ensures
            line.wf(),
            line.start() == from,
            line.end() == to,
            line.position() == 0,
    {
        let delta_x: i64 = if from.x <= to.x {
            to.x as i64 - from.x as i64
        } else {
            from.x as i64 - to.x as i64
        };
        let delta_y: i64 = if from.y <= to.y {
            to.y as i64 - from.y as i64
        } else {
            from.y as i64 - to.y as i64
        };
        proof {
            law_line_ends(from, to);
            lemma_offset_range(from, to, 0);
            if delta_x >= delta_y {
                lemma_minor_range(0, delta_y as int, delta_x as int);
            } else {
                lemma_minor_range(0, delta_x as int, delta_y as int);
            }
            assert(line_offset(from, to, 0) == (0int, 0int));
            assert((0 + 1) * delta_x == delta_x && (0 + 1) * delta_y == delta_y)
                by (nonlinear_arith);
        }
        Bresenham {
            origin: Ghost(from),
            from,
            to,
            delta_x,
            delta_y,
            incrementor: RasterCoord {
                x: if from.x < to.x {
                    1
                } else {
                    -1
                },
                y: if from.y < to.y {
                    1
                } else {
                    -1
                },
            },
            error: delta_x - delta_y,
            is_finished: false,
        }
    }

    /// The next pixel of the line, if there is one left.
    pub fn next(&mut self) -> (pixel: Option<RasterCoord>)
        requires
            old(self).wf(),
        ensures
            final(self).wf(),
            final(self).start() == old(self).start(),
            final(self).end() == old(self).end(),
            match pixel {
                Some(coord) => {
                    &&& old(self).position() < line_len(old(self).start(), old(self).end())
                    &&& (coord.x as int, coord.y as int) == line_point(
                        old(self).start(),
                        old(self).end(),
                        old(self).position(),
                    )
                    &&& final(self).position() == old(self).position() + 1
                },
                None => {
                    &&& old(self).position() == line_len(old(self).start(), old(self).end())
                    &&& final(self).position() == old(self).position()
                },
            },
    {
        if self.is_finished {
            return None;
        }
        let ghost step = self.position();
        let ghost origin = self.origin@;
        let ghost offset = line_offset(origin, self.to, step);
        proof {
            law_line_ends(origin, self.to);
            lemma_offset_range(origin, self.to, step);
        }
        let current_x: i32 = self.from.x;
        let current_y: i32 = self.from.y;
        if current_x == self.to.x && current_y == self.to.y {
            self.is_finished = true;
            return Some(RasterCoord { x: self.to.x, y: self.to.y });
        }
        proof {
            assert(step < line_len(origin, self.to) - 1);
            lemma_offset_range(origin, self.to, step + 1);
            if self.delta_x >= self.delta_y {
                lemma_step(step, self.delta_y as int, self.delta_x as int);
            } else {
                lemma_step(step, self.delta_x as int, self.delta_y as int);
            }
            assert((offset.1 + 2) * self.delta_x == (offset.1 + 1) * self.delta_x + self.delta_x)
                by (nonlinear_arith);
            assert((offset.0 + 2) * self.delta_y == (offset.0 + 1) * self.delta_y + self.delta_y)
                by (nonlinear_arith);
        }
        let doubled_error: i64 = 2 * self.error;
        if doubled_error > -self.delta_y {
            self.error = self.error - self.delta_y;
            self.from.x = self.from.x + self.incrementor.x;
        }
        if doubled_error < self.delta_x {
            self.error = self.error + self.delta_x;
            self.from.y = self.from.y + self.incrementor.y;
        }
        Some(RasterCoord { x: current_x, y: current_y })
    }

    /// All the pixels of the line that are left.
    pub fn collect(self) -> (pixels: Vec<RasterCoord>)
        requires
            self.wf(),
        ensures
            pixels@.len() == line_len(self.start(), self.end()) - self.position(),
            forall|i: int|
                0 <= i < pixels@.len() ==> (
                    (#[trigger] pixels@[i]).x as int,
                    pixels@[i].y as int,
                ) == line_point(self.start(), self.end(), self.position() + i),
    {
        let mut line = self;
        let mut pixels: Vec<RasterCoord> = Vec::new();
        proof {
            line.lemma_position();
        }
        loop
            invariant
                line.wf(),
                line.start() == self.start(),
                line.end() == self.end(),
                line.position() == self.position() + pixels@.len(),
                line.position() <= line_len(self.start(), self.end()),
                forall|i: int|
                    0 <= i < pixels@.len() ==> (
                        (#[trigger] pixels@[i]).x as int,
                        pixels@[i].y as int,
                    ) == line_point(self.start(), self.end(), self.position() + i),
            ensures
                line.position() == line_len(self.start(), self.end()),
            decreases line_len(self.start(), self.end()) - line.position(),
        {
            match line.next() {
                Some(pixel) => pixels.push(pixel),
                None => break,
            }
        }
        pixels
    }
}

/// A line goes one pixel at a time along its longer component, and along the other one it is never
/// more than half a pixel away from the true line. Of two pixels that are as close it takes the one
/// that is closer to its start.
pub proof fn law_line_keeps_close(from: RasterCoord, to: RasterCoord, step: int)
    requires
        0 <= step < line_len(from, to),
    ensures
        ({
            let delta_x = gap(from.x as int, to.x as int);
            let delta_y = gap(from.y as int, to.y as int);
            let offset = line_offset(from, to, step);
            &&& line_len(from, to) == vstd::math::max(delta_x, delta_y) + 1
            &&& delta_x >= delta_y ==> offset.0 == step
            &&& delta_x >= delta_y && delta_x > 0 ==> (2 * offset.1 - 1) * delta_x < 2 * (step
                * delta_y) <= (2 * offset.1 + 1) * delta_x
            &&& delta_x == 0 && delta_y == 0 ==> offset.1 == 0
            &&& delta_x < delta_y ==> offset.1 == step && (2 * offset.0 - 1) * delta_y < 2 * (step
                * delta_x) <= (2 * offset.0 + 1) * delta_y
        }),
{
    let delta_x = gap(from.x as int, to.x as int);
    let delta_y = gap(from.y as int, to.y as int);
    if delta_x >= delta_y {
        if delta_x > 0 {
            lemma_minor_bounds(step, delta_y, delta_x);
        }
    } else {
        lemma_minor_bounds(step, delta_x, delta_y);
    }
}

/// A line leaves its start towards its end: along either component it goes as far as its offset says
/// in the direction of the end.
pub proof fn law_line_goes_towards_end(from: RasterCoord, to: RasterCoord, step: int)
    requires
        0 <= step < line_len(from, to),
    ensures
        ({
            let point = line_point(from, to, step);
            let offset = line_offset(from, to, step);
            &&& from.x < to.x ==> point.0 == from.x + offset.0
            &&& from.x >= to.x ==> point.0 == from.x - offset.0
            &&& from.y < to.y ==> point.1 == from.y + offset.1
            &&& from.y >= to.y ==> point.1 == from.y - offset.1
        }),
{
}

} // verus!
