//! Prefix maxima of angles, computed in blocks as a vector unit does.
//!
//! Angles are given by their place in the order of single precision numbers, see
//! [`crate::single::Single::key`].

use vstd::prelude::*;

verus! {

/// The place in the order of the gradient -2000, which is below any angle that is looked at.
pub const LOWEST_ANGLE: i32 = -1_157_234_688;

/// The greater of two angles.
pub open spec fn higher(left: i32, right: i32) -> i32 {
    if left >= right {
        left
    } else {
        right
    }
}

/// The highest of `highest` and the first `count` of `angles`.
pub open spec fn highest_of(highest: i32, angles: Seq<i32>, count: int) -> i32
    decreases count,
{
    if count <= 0 {
        highest
    } else {
        higher(highest_of(highest, angles, count - 1), angles[count - 1])
    }
}

/// The highest of the last `count` angles up to and including the one at `index`.
spec fn window_max(angles: Seq<i32>, index: int, count: int) -> i32
    decreases count,
{
    if count <= 1 || index <= 0 {
        angles[index]
    } else {
        higher(angles[index], window_max(angles, index - 1, count - 1))
    }
}

/// Two windows next to each other make one of twice their size.
proof fn lemma_window_doubles(angles: Seq<i32>, index: int, left: int, right: int)
    requires
        0 <= index,
        1 <= right,
        1 <= left,
    ensures
        window_max(angles, index, left + right) == (if index >= right {
            higher(window_max(angles, index, right), window_max(angles, index - right, left))
        } else {
            window_max(angles, index, right)
        }),
    decreases right,
{
    if right > 1 && index > 0 {
        lemma_window_doubles(angles, index - 1, left, right - 1);
    }
}

/// The maximum after a block is that before it and that of the block.
proof fn lemma_window_is_prefix(
    highest: i32,
    angles: Seq<i32>,
    block: Seq<i32>,
    start: int,
    index: int,
    count: int,
)
    requires
        0 <= start,
        0 <= index < block.len(),
        index < count,
        start + block.len() <= angles.len(),
        block == angles.subrange(start, start + block.len()),
    ensures
        highest_of(highest, angles, start + index + 1) == higher(
            highest_of(highest, angles, start),
            window_max(block, index, count),
        ),
    decreases index,
{
    assert(block[index] == angles[start + index]);
    if index > 0 {
        lemma_window_is_prefix(highest, angles, block, start, index - 1, count - 1);
    }
}

/// A maximum only rises.
pub proof fn lemma_highest_rises(highest: i32, angles: Seq<i32>, count: int)
    ensures
        highest_of(highest, angles, count) >= highest,
    decreases count,
{
    if count > 0 {
        lemma_highest_rises(highest, angles, count - 1);
    }
}

/// Whether a lane holds the maximum of a window, or the filling that was shifted in.
spec fn is_window_max(lane: i32, window: i32) -> bool {
    window <= lane <= higher(window, LOWEST_ANGLE)
}

/// `PrefixMax` calculates the prefix maximum of the given angles.
pub trait PrefixMax {
    /// `prefix_max` calculates, for each angle, the highest of it, of those before it and of
    /// `highest`.
    fn prefix_max(highest: i32, angles_in: &[i32], angles_out: &mut [i32])
        requires
            highest >= LOWEST_ANGLE,
            angles_in@.len() == old(angles_out)@.len(),
        ensures
            final(angles_out)@ == Seq::new(
                angles_in@.len(),
                |i: int| highest_of(highest, angles_in@, i + 1),
            ),
    ;
}

/// `VectorLos` computes with vectors of `WIDTH` angles at a time.
pub struct VectorLos<const WIDTH: usize>;

impl<const WIDTH: usize> VectorLos<WIDTH> {
    /// `max` computes an element-wise maximum from lhs and rhs.
    pub fn max(lhs: &[i32], rhs: &[i32]) -> (out: Vec<i32>)
        requires
            lhs@.len() == rhs@.len(),
        ensures
            out@ == Seq::new(lhs@.len(), |i: int| higher(lhs@[i], rhs@[i])),
    {
        let mut out: Vec<i32> = Vec::with_capacity(lhs.len());
        while out.len() < lhs.len()
            invariant
                lhs@.len() == rhs@.len(),
                out@.len() <= lhs@.len(),
                out@ == Seq::new(out@.len(), |i: int| higher(lhs@[i], rhs@[i])),
            decreases lhs@.len() - out@.len(),
        {
            let index: usize = out.len();
            let greater: i32 = if lhs[index] >= rhs[index] {
                lhs[index]
            } else {
                rhs[index]
            };
            out.push(greater);
        }
        out
    }

    /// `gt` computes element-wise whether lhs is greater than rhs.
    pub fn gt(lhs: &[i32], rhs: &[i32]) -> (mask: Vec<bool>)
        requires
            lhs@.len() == rhs@.len(),
        ensures
            mask@ == Seq::new(lhs@.len(), |i: int| lhs@[i] > rhs@[i]),
    {
        let mut mask: Vec<bool> = Vec::with_capacity(lhs.len());
        while mask.len() < lhs.len()
            invariant
                lhs@.len() == rhs@.len(),
                mask@.len() <= lhs@.len(),
                mask@ == Seq::new(mask@.len(), |i: int| lhs@[i] > rhs@[i]),
            decreases lhs@.len() - mask@.len(),
        {
            let index: usize = mask.len();
            mask.push(lhs[index] > rhs[index]);
        }
        mask
    }
}

/// Shift lanes to the right. What comes in from the left is the lowest angle.
fn shift_elements_right(lanes: &Vec<i32>, shift: usize) -> (shifted: Vec<i32>)
    ensures
        shifted@ == Seq::new(
            lanes@.len(),
            |i: int|
                if i < shift {
                    LOWEST_ANGLE
                } else {
                    lanes@[i - shift]
                },
        ),
{
    let mut shifted: Vec<i32> = Vec::with_capacity(lanes.len());
    while shifted.len() < lanes.len()
        invariant
            shifted@.len() <= lanes@.len(),
            shifted@ == Seq::new(
                shifted@.len(),
                |i: int|
                    if i < shift {
                        LOWEST_ANGLE
                    } else {
                        lanes@[i - shift]
                    },
            ),
        decreases lanes@.len() - shifted@.len(),
    {
        let index: usize = shifted.len();
        if index < shift {
            shifted.push(LOWEST_ANGLE);
        } else {
            shifted.push(lanes[index - shift]);
        }
    }
    shifted
}

/// The prefix maxima within one vector, in steps that each double the reach of every lane.
fn scan_lanes(block: Vec<i32>, width: usize) -> (lanes: Vec<i32>)
    requires
        block@.len() <= width,
        2 * width <= usize::MAX,
    ensures
        lanes@.len() == block@.len(),
        forall|i: int|
            0 <= i < block@.len() ==> is_window_max(
                #[trigger] lanes@[i],
                window_max(block@, i, block@.len() as int),
            ),
{
    let ghost angles = block@;
    let mut lanes: Vec<i32> = block;
    let mut shift: usize = 1;
    while shift < width
        invariant
            angles.len() <= width,
            2 * width <= usize::MAX,
            1 <= shift,
            shift <= 2 * width || shift == 1,
            lanes@.len() == angles.len(),
            forall|i: int|
                0 <= i < angles.len() ==> is_window_max(
                    #[trigger] lanes@[i],
                    window_max(angles, i, shift as int),
                ),
        decreases 2 * width - shift,
    {
        let ghost before = lanes@;
        let shifted = shift_elements_right(&lanes, shift);
        lanes = VectorLos::<4>::max(lanes.as_slice(), shifted.as_slice());
        assert forall|i: int| 0 <= i < angles.len() implies is_window_max(
            #[trigger] lanes@[i],
            window_max(angles, i, 2 * shift),
        ) by {
            lemma_window_doubles(angles, i, shift as int, shift as int);
            assert(is_window_max(before[i], window_max(angles, i, shift as int)));
            if i >= shift {
                assert(is_window_max(before[i - shift], window_max(angles, i - shift, shift as int)));
            }
        }
        shift = 2 * shift;
    }
    assert forall|i: int| 0 <= i < angles.len() implies is_window_max(
        #[trigger] lanes@[i],
        window_max(angles, i, angles.len() as int),
    ) by {
        lemma_window_saturates(angles, i, shift as int, angles.len() as int);
    }
    lanes
}

/// A window that reaches beyond the first angle sees no more than one that reaches to it.
proof fn lemma_window_saturates(angles: Seq<i32>, index: int, left: int, right: int)
    requires
        0 <= index < left,
        index < right,
    ensures
        window_max(angles, index, left) == window_max(angles, index, right),
    decreases index,
{
    if index > 0 {
        lemma_window_saturates(angles, index - 1, left - 1, right - 1);
    }
}

/// Prefix maxima in blocks of `width`: first those within each block, then the maximum of the
/// blocks before is carried over.
fn blocked_prefix_max(highest: i32, angles_in: &[i32], angles_out: &mut [i32], width: usize)
    requires
        highest >= LOWEST_ANGLE,
        angles_in@.len() == old(angles_out)@.len(),
        0 < width <= 16,
    ensures
        final(angles_out)@ == Seq::new(
            angles_in@.len(),
            |i: int| highest_of(highest, angles_in@, i + 1),
        ),
{
    let len: usize = angles_in.len();
    let mut local_acc: i32 = highest;
    let mut start: usize = 0;
    while start < len
        invariant
            highest >= LOWEST_ANGLE,
            0 < width <= 16,
            len == angles_in@.len() == angles_out@.len(),
            start <= len,
            local_acc == highest_of(highest, angles_in@, start as int),
            forall|i: int|
                0 <= i < start ==> #[trigger] angles_out@[i] == highest_of(
                    highest,
                    angles_in@,
                    i + 1,
                ),
        decreases len - start,
    {
        let size: usize = if len - start < width {
            len - start
        } else {
            width
        };
        let mut block: Vec<i32> = Vec::with_capacity(width);
        while block.len() < size
            invariant
                start + size <= len,
                len == angles_in@.len(),
                block@.len() <= size,
                block@ == angles_in@.subrange(start as int, start + block@.len()),
            decreases size - block@.len(),
        {
            let ghost before = block@;
            block.push(angles_in[start + block.len()]);
            assert(block@ =~= angles_in@.subrange(start as int, start + before.len() + 1));
        }
        let ghost angles = block@;
        let lanes: Vec<i32> = scan_lanes(block, width);
        let mut lane: usize = 0;
        while lane < size
            invariant
                highest >= LOWEST_ANGLE,
                len == angles_in@.len() == angles_out@.len(),
                lane <= size,
                0 < size == lanes@.len() == angles.len(),
                start + size <= len,
                local_acc == highest_of(highest, angles_in@, start as int),
                angles == angles_in@.subrange(start as int, start + size),
                forall|i: int|
                    0 <= i < size ==> is_window_max(
                        #[trigger] lanes@[i],
                        window_max(angles, i, size as int),
                    ),
                forall|i: int|
                    0 <= i < start + lane ==> #[trigger] angles_out@[i] == highest_of(
                        highest,
                        angles_in@,
                        i + 1,
                    ),
            decreases size - lane,
        {
            proof {
                lemma_highest_rises(highest, angles_in@, start as int);
                lemma_window_is_prefix(
                    highest,
                    angles_in@,
                    angles,
                    start as int,
                    lane as int,
                    size as int,
                );
                assert(is_window_max(lanes@[lane as int], window_max(angles, lane as int, size as int)));
            }
            let current: i32 = lanes[lane];
            angles_out[start + lane] = if local_acc >= current {
                local_acc
            } else {
                current
            };
            lane += 1;
        }
        proof {
            lemma_highest_rises(highest, angles_in@, start as int);
            lemma_window_is_prefix(highest, angles_in@, angles, start as int, size - 1, size as int);
            assert(is_window_max(lanes@[size - 1], window_max(angles, size - 1, size as int)));
        }
        let cur_max: i32 = lanes[size - 1];
        if cur_max > local_acc {
            local_acc = cur_max;
        }
        start += size;
    }
    assert(angles_out@ =~= Seq::new(
        angles_in@.len(),
        |i: int| highest_of(highest, angles_in@, i + 1),
    ));
}

impl PrefixMax for VectorLos<4> {
    fn prefix_max(highest: i32, angles_in: &[i32], angles_out: &mut [i32]) {
        blocked_prefix_max(highest, angles_in, angles_out, 4);
    }
}

/// A vector of eight lanes is scanned as two halves of four, each carrying over to the next.
impl PrefixMax for VectorLos<8> {
    fn prefix_max(highest: i32, angles_in: &[i32], angles_out: &mut [i32]) {
        blocked_prefix_max(highest, angles_in, angles_out, 4);
    }
}

impl PrefixMax for VectorLos<16> {
    fn prefix_max(highest: i32, angles_in: &[i32], angles_out: &mut [i32]) {
        blocked_prefix_max(highest, angles_in, angles_out, 16);
    }
}

/// The highest of some angles is one of them, and none of them is higher.
pub proof fn law_highest_is_one_of_them(highest: i32, angles: Seq<i32>, count: int)
    requires
        0 <= count <= angles.len(),
    ensures
        highest_of(highest, angles, count) >= highest,
        forall|i: int| 0 <= i < count ==> highest_of(highest, angles, count) >= #[trigger] angles[i],
        highest_of(highest, angles, count) == highest || exists|i: int|
            0 <= i < count && highest_of(highest, angles, count) == #[trigger] angles[i],
    decreases count,
{
    if count > 0 {
        law_highest_is_one_of_them(highest, angles, count - 1);
        assert(angles[count - 1] == angles[count - 1]);
    }
}

} // verus!
