//! A "bijective" rotator that ensures a 1:1 mapping of original DEM IDs to rotated IDs.
//!
//! We use the "3 Shear" method, aka Paeth Rotation.
//! <https://web.archive.org/web/20241121043312/https://datagenetics.com/blog/august32013/index.html>
//!
//! An angle is counted in parts of a degree: with `subdivisions` parts to a degree, a full turn is
//! `360 * subdivisions`.

use vstd::prelude::*;

verus! {

/// Shear rotation is not stable beyond rotations of ±90°. So we have to use other methods to
/// rotate to within ±90°. Rotating in units of 90° is always stable because you can use
/// axis-switching and coordinate inversion:
///   * 90°:  (`width_index` - y, x)
///   * 180°: (`width_index` - x, `width_index` - y)
///   * 270°: (y, `width_index` - x)
#[derive(Debug, Clone, Copy, PartialEq, Eq, Structural)]
pub enum Quadrant {
    /// Top-right quadrant: 0° to 90°
    TopRight,
    /// Top-left quadrant: 90° to 180°
    TopLeft,
    /// Bottom-left quadrant: 180° to 270°
    BottomLeft,
    /// Bottom-right quadrant: 270° to 0°
    BottomRight,
}

impl Quadrant {
    /// The upper angular limit of each quadrant, in degrees.
    pub open spec fn spec_upper_limit(self) -> u32 {
        match self {
            Quadrant::BottomRight => 0,
            Quadrant::TopRight => 90,
            Quadrant::TopLeft => 180,
            Quadrant::BottomLeft => 270,
        }
    }

    /// What's the upper angular limit of each quadrant?
    pub fn upper_limit(self) -> (degrees: u32)
        ensures
            degrees == self.spec_upper_limit(),
    {
        match self {
            Quadrant::BottomRight => 0,
            Quadrant::TopRight => 90,
            Quadrant::TopLeft => 180,
            Quadrant::BottomLeft => 270,
        }
    }
}

/// From the number of whole quarters of a turn.
impl From<u8> for Quadrant {
    fn from(quadrant: u8) -> (found: Self) {
        match quadrant {
            1 => Quadrant::TopRight,
            2 => Quadrant::TopLeft,
            3 => Quadrant::BottomLeft,
            _ => Quadrant::BottomRight,
        }
    }
}

impl vstd::std_specs::convert::FromSpecImpl<u8> for Quadrant {
    open spec fn obeys_from_spec() -> bool {
        true
    }

    open spec fn from_spec(quadrant: u8) -> Self {
        match quadrant {
            1 => Quadrant::TopRight,
            2 => Quadrant::TopLeft,
            3 => Quadrant::BottomLeft,
            _ => Quadrant::BottomRight,
        }
    }
}

/// How far a row or a column of the grid is shifted by a shear.
///
/// The rows and columns go well beyond the DEM, because a shear can move points out of it.
pub struct Shear {
    /// The shift of each row or column, from that at [`first_index`] on.
    pub shifts: Vec<i64>,
}

/// The first row or column that a shear of a DEM knows of.
pub open spec fn first_index(width: int) -> int {
    -2 * width - 2
}

/// The number of rows or columns that a shear of a DEM knows of.
pub open spec fn index_count(width: int) -> int {
    5 * width + 4
}

impl Shear {
    /// The shift of the row or column at `index`.
    pub open spec fn at(self, width: int, index: int) -> int {
        self.shifts@[index - first_index(width)] as int
    }

    /// Whether the shift at `index` is no more than a shear by at most 45° gives, once rounded:
    /// no more than the distance to the centre of the DEM.
    pub open spec fn fits_at(self, width: int, index: int) -> bool {
        vstd::math::abs(2 * self.at(width, index)) <= vstd::math::abs(2 * index - (width - 1)) + 1
    }

    /// Whether there is a shift for every row or column, and none is too far.
    pub open spec fn fits(self, width: int) -> bool {
        &&& self.shifts@.len() == index_count(width)
        &&& forall|index: int|
            first_index(width) <= index < first_index(width) + index_count(width) ==> #[trigger] self.fits_at(
                width,
                index,
            )
    }
}

/// Rotator struct.
pub struct Rotator {
    /// The index of the last point in a row/column of the DEM.
    pub width_index: i64,
    /// The 3-Shear method is only stable between -90° and +90°. So we have to use basic flipping
    /// to move the pixels for angles outside of this range. Each quadrant has its own quick way
    /// of rotating to its upper limit.
    pub quadrant: Quadrant,
    /// How far each row is sheared horizontally.
    pub horizontal: Shear,
    /// How far each column is sheared vertically.
    pub vertical: Shear,
}

/// A number that is no less than `lower` and no more than `upper`, and closest to `value`.
pub open spec fn clamped(value: int, lower: int, upper: int) -> int {
    if value < lower {
        lower
    } else if value > upper {
        upper
    } else {
        value
    }
}

impl Rotator {
    /// The number of points in a row/column of the DEM.
    pub open spec fn width(self) -> int {
        self.width_index + 1
    }

    /// Whether the DEM is not empty, and the shears are for it.
    pub open spec fn wf(self) -> bool {
        &&& 0 <= self.width_index < 0x1000_0000_0000_0000
        &&& self.horizontal.fits(self.width())
        &&& self.vertical.fits(self.width())
    }

    /// Whether a point is in the DEM.
    pub open spec fn contains(self, x: int, y: int) -> bool {
        0 <= x <= self.width_index && 0 <= y <= self.width_index
    }

    /// Rotating by 90°.
    pub open spec fn spec_rotate_90(self, point: (int, int)) -> (int, int) {
        (self.width_index - point.1, point.0)
    }

    /// Rotating by 180°.
    pub open spec fn spec_rotate_180(self, point: (int, int)) -> (int, int) {
        (self.width_index - point.0, self.width_index - point.1)
    }

    /// Rotating by 270°.
    pub open spec fn spec_rotate_270(self, point: (int, int)) -> (int, int) {
        (point.1, self.width_index - point.0)
    }

    /// Rotating to the upper limit of the quadrant.
    pub open spec fn spec_rotate_to_quadrant(self, point: (int, int)) -> (int, int) {
        match self.quadrant {
            Quadrant::BottomRight => point,
            Quadrant::TopRight => self.spec_rotate_90(point),
            Quadrant::TopLeft => self.spec_rotate_180(point),
            Quadrant::BottomLeft => self.spec_rotate_270(point),
        }
    }

    /// Shearing a point horizontally.
    pub open spec fn shear_horizontally(self, point: (int, int)) -> (int, int) {
        (point.0 + self.horizontal.at(self.width(), point.1), point.1)
    }

    /// Shearing a point vertically.
    pub open spec fn shear_vertically(self, point: (int, int)) -> (int, int) {
        (point.0, point.1 + self.vertical.at(self.width(), point.0))
    }

    /// Where a point is rotated to, which may be outside of the DEM.
    pub open spec fn rotated(self, point: (int, int)) -> (int, int) {
        self.shear_horizontally(
            self.shear_vertically(self.shear_horizontally(self.spec_rotate_to_quadrant(point))),
        )
    }

    /// Where a point is rotated to, moved back into the DEM where it left it.
    pub open spec fn spec_rotate(self, point: (int, int)) -> (int, int) {
        (
            clamped(self.rotated(point).0, 0, self.width_index as int),
            clamped(self.rotated(point).1, 0, self.width_index as int),
        )
    }

    /// Instantiate from the shifts of the shears. There is none where these are not for a DEM of
    /// this width.
    pub fn new(quadrant: Quadrant, width: i64, horizontal: Vec<i64>, vertical: Vec<i64>) -> (rotator:
        Option<Self>)
        ensures
            rotator is Some <==> {
                &&& 0 < width <= 0x1000_0000_0000_0000
                &&& (Shear { shifts: horizontal }).fits(width as int)
                &&& (Shear { shifts: vertical }).fits(width as int)
            },
            rotator matches Some(rotator) ==> {
                &&& rotator.wf()
                &&& rotator.width() == width
                &&& rotator.quadrant == quadrant
                &&& rotator.horizontal.shifts == horizontal
                &&& rotator.vertical.shifts == vertical
            },
    {
        if width <= 0 || width > 0x1000_0000_0000_0000 {
            return None;
        }
        let horizontal = Shear { shifts: horizontal };
        let vertical = Shear { shifts: vertical };
        if !horizontal.check(width) || !vertical.check(width) {
            return None;
        }
        Some(Rotator { width_index: width - 1, quadrant, horizontal, vertical })
    }

    /// In order to follow the convention that rotation is measured anti-clockwise, typically
    /// we'd just make the angle negative here. But seeing as the rest of the maths involved in
    /// skew rotation is based in positive angles it's better to achieve the same rotation
    /// through a positive but inverted angle.
    pub fn invert_angle(angle: u32, subdivisions: u32) -> (inverted: u32)
        requires
            angle < 360 * subdivisions <= u32::MAX,
        ensures
            inverted < 360 * subdivisions,
            inverted == (360 * subdivisions - angle) % (360 * subdivisions as int),
    {
        if angle > 0 {
            proof {
                vstd::arithmetic::div_mod::lemma_small_mod(
                    (360 * subdivisions - angle) as nat,
                    (360 * subdivisions) as nat,
                );
            }
            360 * subdivisions - angle
        } else {
            proof {
                vstd::arithmetic::div_mod::lemma_mod_self_0(360 * subdivisions as int);
            }
            0
        }
    }

    /// The quadrant that an angle turns into, and how far it turns beyond the quadrant's upper
    /// limit: always less than 90°.
    pub fn split_angle(angle: u32, subdivisions: u32) -> (split: (Quadrant, u32))
        requires
            angle < 360 * subdivisions <= u32::MAX,
        ensures
            split.1 < 90 * subdivisions,
            split.0.spec_upper_limit() * subdivisions + split.1 == (360 * subdivisions - angle) % (360
                * subdivisions as int),
    {
        let inverted: u32 = Self::invert_angle(angle, subdivisions);
        let size: u32 = 90 * subdivisions;
        let quarters: u32 = inverted / size;
        proof {
            vstd::arithmetic::div_mod::lemma_fundamental_div_mod(inverted as int, size as int);
            assert(0 <= quarters < 4) by (nonlinear_arith)
                requires
                    inverted == size * quarters + inverted % size,
                    0 <= inverted % size,
                    inverted < 4 * size,
                    size > 0,
                    quarters >= 0,
            ;
        }
        let quadrant = Quadrant::from(quarters as u8);
        assert(quadrant.spec_upper_limit() * subdivisions == size * quarters) by (nonlinear_arith)
            requires
                size == 90 * subdivisions,
                quadrant.spec_upper_limit() == 90 * quarters,
        ;
        let limit: u32 = quadrant.upper_limit() * subdivisions;
        (quadrant, inverted - limit)
    }

    /// Rotate using the 3 shear method. We got the idea from Matt Parker:
    ///   <https://www.youtube.com/watch?v=1LCEiVDHJmc>
    ///
    /// Note that each shear step _must_ be rounded. This is essential to achieving a bijective
    /// mapping.
    pub fn rotate(&self, x: i64, y: i64) -> (rotated: (i64, i64))
        requires
            self.wf(),
            self.contains(x as int, y as int),
        ensures
            (rotated.0 as int, rotated.1 as int) == self.spec_rotate((x as int, y as int)),
            self.contains(rotated.0 as int, rotated.1 as int),
    {
        let width: i64 = self.width_index + 1;
        let (quadrant_x, quadrant_y) = self.rotate_to_quadrant(x, y);

        // First horizontal shear
        assert(self.horizontal.fits_at(width as int, quadrant_y as int));
        let x1: i64 = quadrant_x + self.horizontal.shift(width, quadrant_y);
        let y1: i64 = quadrant_y;

        // Vertical shear
        let x2: i64 = x1;
        assert(self.vertical.fits_at(width as int, x1 as int));
        let y2: i64 = y1 + self.vertical.shift(width, x1);

        // Second horizontal shear
        assert(self.horizontal.fits_at(width as int, y2 as int));
        let x3: i64 = x2 + self.horizontal.shift(width, y2);
        let y3: i64 = y2;

        (clamp(x3, 0, self.width_index), clamp(y3, 0, self.width_index))
    }

    /// Skew rotation is only stable for ±90°. So we use other stabler methods to get within ±90°.
    pub fn rotate_to_quadrant(&self, x: i64, y: i64) -> (rotated: (i64, i64))
        requires
            self.contains(x as int, y as int),
        ensures
            (rotated.0 as int, rotated.1 as int) == self.spec_rotate_to_quadrant(
                (x as int, y as int),
            ),
            self.contains(rotated.0 as int, rotated.1 as int),
    {
        match self.quadrant {
            Quadrant::BottomRight => (x, y),
            Quadrant::TopRight => self.rotate_90(x, y),
            Quadrant::TopLeft => self.rotate_180(x, y),
            Quadrant::BottomLeft => self.rotate_270(x, y),
        }
    }

    /// Rotate by 90° using axis exchange and flipping.
    pub fn rotate_90(&self, x: i64, y: i64) -> (rotated: (i64, i64))
        requires
            self.contains(x as int, y as int),
        ensures
            (rotated.0 as int, rotated.1 as int) == self.spec_rotate_90((x as int, y as int)),
    {
        (self.width_index - y, x)
    }

    /// Rotate by 180° using flipping.
    pub fn rotate_180(&self, x: i64, y: i64) -> (rotated: (i64, i64))
        requires
            self.contains(x as int, y as int),
        ensures
            (rotated.0 as int, rotated.1 as int) == self.spec_rotate_180((x as int, y as int)),
    {
        (self.width_index - x, self.width_index - y)
    }

    /// Rotate by 270° using axis exchange and flipping.
    pub fn rotate_270(&self, x: i64, y: i64) -> (rotated: (i64, i64))
        requires
            self.contains(x as int, y as int),
        ensures
            (rotated.0 as int, rotated.1 as int) == self.spec_rotate_270((x as int, y as int)),
    {
        (y, self.width_index - x)
    }

    /// Undoing a rotation to the quadrant.
    pub open spec fn rotated_from_quadrant(self, point: (int, int)) -> (int, int) {
        match self.quadrant {
            Quadrant::BottomRight => point,
            Quadrant::TopRight => self.spec_rotate_270(point),
            Quadrant::TopLeft => self.spec_rotate_180(point),
            Quadrant::BottomLeft => self.spec_rotate_90(point),
        }
    }

    /// Undoing a horizontal shear.
    pub open spec fn unshear_horizontally(self, point: (int, int)) -> (int, int) {
        (point.0 - self.horizontal.at(self.width(), point.1), point.1)
    }

    /// Undoing a vertical shear.
    pub open spec fn unshear_vertically(self, point: (int, int)) -> (int, int) {
        (point.0, point.1 - self.vertical.at(self.width(), point.0))
    }

    /// Undoing a rotation.
    pub open spec fn unrotated(self, point: (int, int)) -> (int, int) {
        self.rotated_from_quadrant(
            self.unshear_horizontally(
                self.unshear_vertically(self.unshear_horizontally(point)),
            ),
        )
    }
}

impl Shear {
    /// The shift of a row or column.
    fn shift(&self, width: i64, index: i64) -> (shift: i64)
        requires
            0 < width <= 0x1000_0000_0000_0000,
            self.fits(width as int),
            first_index(width as int) <= index < first_index(width as int) + index_count(
                width as int,
            ),
        ensures
            shift == self.at(width as int, index as int),
    {
        let position: i64 = index + 2 * width + 2;
        assert(position < self.shifts.len());
        self.shifts[position as usize]
    }

    /// Whether there is a shift for every row or column, and none is too far.
    fn check(&self, width: i64) -> (fits: bool)
        requires
            0 < width <= 0x1000_0000_0000_0000,
        ensures
            fits == self.fits(width as int),
    {
        let count: i64 = 5 * width + 4;
        let len: usize = self.shifts.len();
        if len as u128 != count as u128 {
            return false;
        }
        let mut position: i64 = 0;
        while position < count
            invariant
                0 < width <= 0x1000_0000_0000_0000,
                count == index_count(width as int) == self.shifts@.len() == len,
                0 <= position <= count,
                forall|index: int|
                    first_index(width as int) <= index < first_index(width as int) + position
                        ==> #[trigger] self.fits_at(width as int, index),
            decreases count - position,
        {
            let index: i64 = position - 2 * width - 2;
            let shift: i128 = self.shifts[position as usize] as i128;
            let doubled: i128 = 2 * index as i128 - (width - 1) as i128;
            let limit: i128 = if doubled >= 0 {
                doubled + 1
            } else {
                -doubled + 1
            };
            if 2 * shift < -limit || 2 * shift > limit {
                assert(!self.fits_at(width as int, index as int));
                return false;
            }
            position += 1;
        }
        true
    }
}

/// The closest number between two limits.
pub fn clamp(value: i64, lower: i64, upper: i64) -> (closest: i64)
    requires
        lower <= upper,
    ensures
        closest == clamped(value as int, lower as int, upper as int),
{
    if value < lower {
        lower
    } else if value > upper {
        upper
    } else {
        value
    }
}

/// The mapping is bijective before points are moved back into the DEM: undoing the rotation of any
/// point leads back to it, and so does rotating what undoing the rotation leads to.
pub proof fn law_rotation_is_bijective(rotator: Rotator, point: (int, int))
    ensures
        rotator.unrotated(rotator.rotated(point)) == point,
        rotator.rotated(rotator.unrotated(point)) == point,
{
}

/// No two points are rotated to the same place, unless one of them leaves the DEM.
pub proof fn law_rotation_is_injective(rotator: Rotator, left: (int, int), right: (int, int))
    requires
        rotator.spec_rotate(left) == rotator.spec_rotate(right),
        rotator.contains(rotator.rotated(left).0, rotator.rotated(left).1),
        rotator.contains(rotator.rotated(right).0, rotator.rotated(right).1),
    ensures
        left == right,
{
    law_rotation_is_bijective(rotator, left);
    law_rotation_is_bijective(rotator, right);
}

/// Quarter turns add up: two make a half turn, three make three quarters, and four lead back.
pub proof fn law_quarter_turns(rotator: Rotator, point: (int, int))
    ensures
        rotator.spec_rotate_90(rotator.spec_rotate_90(point)) == rotator.spec_rotate_180(point),
        rotator.spec_rotate_90(rotator.spec_rotate_180(point)) == rotator.spec_rotate_270(point),
        rotator.spec_rotate_90(rotator.spec_rotate_270(point)) == point,
{
}

/// Without any shear and in the last quadrant, which is where an angle of 0 is, nothing moves.
pub proof fn law_no_rotation(rotator: Rotator, point: (int, int))
    requires
        rotator.wf(),
        rotator.quadrant == Quadrant::BottomRight,
        forall|index: int|
            0 <= index < rotator.width() ==> #[trigger] rotator.horizontal.at(rotator.width(), index)
                == 0,
        forall|index: int|
            0 <= index < rotator.width() ==> #[trigger] rotator.vertical.at(rotator.width(), index)
                == 0,
        rotator.contains(point.0, point.1),
    ensures
        rotator.spec_rotate(point) == point,
{
}

/// A quarter turn moves the top row to the right column, and the left column to the top row.
pub proof fn law_quarter_turn_moves_rows_to_columns(rotator: Rotator, place: int)
    ensures
        rotator.spec_rotate_90((place, 0)) == (rotator.width_index as int, place),
        rotator.spec_rotate_90((0, place)) == (rotator.width_index - place, 0int),
{
}

/// A point is turned to the quadrant by as many quarter turns as its upper limit has.
pub proof fn law_quadrants_are_quarter_turns(rotator: Rotator, point: (int, int))
    ensures
        rotator.quadrant.spec_upper_limit() == 0 ==> rotator.spec_rotate_to_quadrant(point) == point,
        rotator.quadrant.spec_upper_limit() == 90 ==> rotator.spec_rotate_to_quadrant(point)
            == rotator.spec_rotate_90(point),
        rotator.quadrant.spec_upper_limit() == 180 ==> rotator.spec_rotate_to_quadrant(point)
            == rotator.spec_rotate_90(rotator.spec_rotate_90(point)),
        rotator.quadrant.spec_upper_limit() == 270 ==> rotator.spec_rotate_to_quadrant(point)
            == rotator.spec_rotate_90(rotator.spec_rotate_90(rotator.spec_rotate_90(point))),
        rotator.quadrant.spec_upper_limit() % 90 == 0,
        rotator.quadrant.spec_upper_limit() < 360,
{
}

/// The quadrants are those of the compass: each has its own upper limit.
pub proof fn law_quadrants_have_limits(quadrant: Quadrant)
    ensures
        quadrant == Quadrant::TopRight <==> quadrant.spec_upper_limit() == 90,
        quadrant == Quadrant::TopLeft <==> quadrant.spec_upper_limit() == 180,
        quadrant == Quadrant::BottomLeft <==> quadrant.spec_upper_limit() == 270,
        quadrant == Quadrant::BottomRight <==> quadrant.spec_upper_limit() == 0,
{
}

/// Two horizontal shears have a vertical one between them: where columns are not shifted, rows are
/// shifted twice, and where rows are not, columns are shifted once.
pub proof fn law_three_shears(rotator: Rotator, point: (int, int))
    ensures
        ({
            let turned = rotator.spec_rotate_to_quadrant(point);
            let width = rotator.width_index + 1;
            let shift = rotator.horizontal.shifts@[turned.1 + 2 * width + 2] as int;
            let between = (turned.0 + shift, turned.1);
            let down = rotator.vertical.shifts@[between.0 + 2 * width + 2] as int;
            let again = rotator.horizontal.shifts@[turned.1 + down + 2 * width + 2] as int;
            &&& down == 0 ==> rotator.rotated(point) == (turned.0 + 2 * shift, turned.1)
            &&& shift == 0 && again == 0 ==> rotator.rotated(point) == (turned.0, turned.1 + down)
            &&& rotator.rotated(point).1 == turned.1 + down
            &&& rotator.rotated(point).0 == turned.0 + shift + again
        }),
{
}

/// What is in a range stays as it is, and what is not goes to the closest end of it.
pub proof fn law_clamped_is_closest(value: int, lower: int, upper: int, other: int)
    requires
        lower <= other <= upper,
    ensures
        lower <= clamped(value, lower, upper) <= upper,
        lower <= value <= upper ==> clamped(value, lower, upper) == value,
        vstd::math::abs(clamped(value, lower, upper) - value) <= vstd::math::abs(other - value),
{
}

/// A point that is rotated to a place in the DEM is there, and no point leaves the DEM.
pub proof fn law_rotation_stays_in_dem(rotator: Rotator, point: (int, int))
    requires
        rotator.width_index >= 0,
    ensures
        rotator.contains(rotator.spec_rotate(point).0, rotator.spec_rotate(point).1),
        rotator.contains(rotator.rotated(point).0, rotator.rotated(point).1)
            ==> rotator.spec_rotate(point) == rotator.rotated(point),
        0 <= rotator.rotated(point).0 <= rotator.width_index ==> rotator.spec_rotate(point).0
            == rotator.rotated(point).0,
        0 <= rotator.rotated(point).1 <= rotator.width_index ==> rotator.spec_rotate(point).1
            == rotator.rotated(point).1,
{
}

/// A shift fits exactly when it is that of a shear by at most 45°, rounded: at most half a point more
/// than the distance of the row or column to the centre of the DEM.
pub proof fn law_shifts_up_to_45_degrees_fit(shear: Shear, width: int, index: int)
    ensures
        ({
            let shift = shear.shifts@[index + 2 * width + 2] as int;
            let distance = 2 * index - (width - 1);
            shear.fits_at(width, index) <==> {
                ||| -distance - 1 <= 2 * shift <= distance + 1
                ||| distance - 1 <= 2 * shift <= -distance + 1
            }
        }),
{
}

} // verus!
