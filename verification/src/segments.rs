//! A "segment" is a single area of visibility for a given angle on a viewshed. There may be many
//! segments per angle.

use crate::runs;
use crate::runs::Run;
use vstd::prelude::*;

verus! {

/// `Segment` is the rho portion of a line segment in polar coordinates
/// as (`rho`: u16, `delta_rho`: u16) which are packed into a single u32 for storage.
#[derive(Clone, Copy, Debug, Default, PartialEq, Eq, Structural)]
pub struct Segment(pub u32);

impl Segment {
    /// Where the segment starts: the upper half of the packed value.
    pub open spec fn spec_start(self) -> u16 {
        (self.0 as int / 0x1_0000) as u16
    }

    /// How far the segment goes: the lower half of the packed value.
    pub open spec fn spec_distance(self) -> u16 {
        (self.0 as int % 0x1_0000) as u16
    }

    /// The run of visible points that the segment stands for.
    pub open spec fn run(self) -> Run {
        Run { start: self.spec_start() as int, distance: self.spec_distance() as int }
    }

    /// Creates a `Segment` from the segment's start point and the distance.
    pub fn new(start: u16, distance: u16) -> (segment: Self)
        ensures
            segment.spec_start() == start,
            segment.spec_distance() == distance,
    {
        let wide_start: u32 = start as u32;
        let wide_distance: u32 = distance as u32;
        let packed: u32 = (wide_start << 16) | wide_distance;
        assert(packed == wide_start * 0x1_0000 + wide_distance) by (bit_vector)
            requires
                packed == (wide_start << 16) | wide_distance,
                wide_start <= 0xffff,
                wide_distance <= 0xffff,
        ;
        Segment(packed)
    }

    /// The starting point of the `Segment`.
    pub fn start(&self) -> (start: u16)
        ensures
            start == self.spec_start(),
    {
        let packed: u32 = self.0;
        assert(packed >> 16 == packed / 0x1_0000) by (bit_vector);
        (packed >> 16) as u16
    }

    /// The distance the `Segment` takes.
    pub fn distance(&self) -> (distance: u16)
        ensures
            distance == self.spec_distance(),
    {
        let packed: u32 = self.0;
        assert(packed as u16 == packed % 0x1_0000) by (bit_vector);
        #[verifier::truncate]
        let distance: u16 = packed as u16;
        distance
    }
}

/// The runs of visible points that `segments` stand for.
pub open spec fn runs_of(segments: Seq<Segment>) -> Seq<Run> {
    segments.map_values(|segment: Segment| segment.run())
}

/// Whether `index` is where `needle` first occurs in `haystack`; no index, if it does not.
pub open spec fn is_first_occurrence(needle: u8, haystack: Seq<u8>, index: Option<usize>) -> bool {
    match index {
        Some(found) => {
            &&& found < haystack.len()
            &&& haystack[found as int] == needle
            &&& forall|i: int| 0 <= i < found ==> haystack[i] != needle
        },
        None => forall|i: int| 0 <= i < haystack.len() ==> haystack[i] != needle,
    }
}

/// `memchr::memchr` searches a slice of bytes. Claimed of it: it returns the index of the first
/// byte that equals `needle`, and `None` if there is no such byte.
pub assume_specification[ memchr::memchr ](needle: u8, haystack: &[u8]) -> (index: Option<usize>)
    ensures
        is_first_occurrence(needle, haystack@, index),
;

/// `bytemuck::cast_slice` lends a slice of one type as a slice of another. Claimed of it from
/// `bool` to `u8`, which have the same size and alignment: there is one byte for each `bool`, in
/// the same order, 1 for `true` and 0 for `false`.
#[verifier::external_body]
fn bools_as_bytes(bitmap: &[bool]) -> (bytes: &[u8])
    ensures
        bytes@.len() == bitmap@.len(),
        forall|i: int|
            0 <= i < bitmap@.len() ==> #[trigger] bytes@[i] == (if bitmap@[i] {
                1u8
            } else {
                0u8
            }),
{
    bytemuck::cast_slice(bitmap)
}

/// `PolarSegments` holds the degree of a line of sight and the list
/// of visible `Segments` which is constructed through a Run Length
/// Encoding algorithm.
///
/// Each `dem_id` will usually have ~360 degrees. This may be more for 2 reasons:
///   1. The kernel is run with higher angular resolutions.
///   2. The rotation maths causes some `dem_id`/angles to have multiple pairs.
#[derive(Clone, Debug)]
pub struct PolarSegments {
    /// `degree` is a whole degree in the range [0, 359]
    pub degree: u16,
    /// `visible_segments` is a list of segments visible for a given
    /// angle and DEM id
    pub visible_segments: Vec<Segment>,
}

impl PolarSegments {
    /// `from_bools` constructs a `PolarSegments` from a visibility bitmap.
    /// It does so by implementing a binary Run Length Encoding.
    pub fn from_bools(degree: u16, bitmap: &[bool]) -> (polar_segments: Self)
        requires
            runs::runs_fit(bitmap@),
        ensures
            polar_segments.degree == degree,
            runs::are_runs(bitmap@, runs_of(polar_segments.visible_segments@)),
    {
        let mut visible_segments: Vec<Segment> = Vec::with_capacity(1);
        let char_slice: &[u8] = bools_as_bytes(bitmap);
        let len: usize = char_slice.len();

        let mut cur_index: usize = 0;
        while cur_index < len
            invariant
                len == bitmap@.len() == char_slice@.len(),
                cur_index <= len,
                runs::runs_fit(bitmap@),
                forall|i: int|
                    0 <= i < len ==> #[trigger] char_slice@[i] == (if bitmap@[i] {
                        1u8
                    } else {
                        0u8
                    }),
                0 < cur_index < len ==> !bitmap@[cur_index - 1] && bitmap@[cur_index as int],
                runs::are_runs_of_prefix(bitmap@, runs_of(visible_segments@), cur_index as int),
            decreases len - cur_index,
        {
            let ghost start = cur_index as int;
            let ghost old_runs = runs_of(visible_segments@);

            let remaining: &[u8] = &char_slice[cur_index..len];
            let first_zero_index: usize = match memchr::memchr(0, remaining) {
                Some(index) => index,
                None => len - cur_index,
            };
            let ghost run = Run { start, distance: first_zero_index as int };
            proof {
                assert forall|i: int| run.covers(i) implies #[trigger] bitmap@[i] by {
                    assert(remaining@[i - start] == char_slice@[i]);
                }
                if run.end() < len {
                    assert(remaining@[first_zero_index as int] == char_slice@[run.end()]);
                }
            }
            // only the very first point can be invisible here
            if first_zero_index > 0 {
                assert(runs::is_visible_run(bitmap@, run));
                let segment = Segment::new(cur_index as u16, first_zero_index as u16);
                visible_segments.push(segment);
                assert(segment.run() == run);
                assert(runs_of(visible_segments@) =~= old_runs.push(run));
            }
            cur_index += first_zero_index;

            let rest: &[u8] = &char_slice[cur_index..len];
            let next: usize = match memchr::memchr(1, rest) {
                Some(index) => index,
                None => len - cur_index,
            };
            proof {
                assert forall|i: int| run.end() <= i < run.end() + next implies !#[trigger] bitmap@[i] by {
                    assert(rest@[i - run.end()] == char_slice@[i]);
                }
                if run.end() + next < len {
                    assert(rest@[next as int] == char_slice@[run.end() + next]);
                }
                assert(next > 0 || run.end() == len);
                let new_runs = runs_of(visible_segments@);
                assert forall|i: int| 0 <= i < run.end() + next && #[trigger] bitmap@[i] implies runs::is_covered(
                    new_runs,
                    i,
                ) by {
                    if i < start {
                        assert(runs::is_covered(old_runs, i));
                        let k = choose|k: int|
                            0 <= k < old_runs.len() && (#[trigger] old_runs[k]).covers(i);
                        assert(new_runs[k].covers(i));
                    } else {
                        assert(new_runs[old_runs.len() as int].covers(i));
                    }
                }
            }
            cur_index += next;
        }
        PolarSegments { degree, visible_segments }
    }
}

/// Nothing is lost: lines of sight of one length that are encoded alike see the same points.
pub proof fn law_encoding_is_lossless(left: Seq<bool>, right: Seq<bool>, segments: Seq<Segment>)
    requires
        left.len() == right.len(),
        runs::are_runs(left, runs_of(segments)),
        runs::are_runs(right, runs_of(segments)),
    ensures
        left == right,
{
    runs::law_runs_decode(left, runs_of(segments));
    runs::law_runs_decode(right, runs_of(segments));
}

/// A segment is what its start and its distance make it: packing the two parts of a segment gives
/// the segment back.
pub proof fn law_segment_parts(left: Segment, right: Segment)
    requires
        left.spec_start() == right.spec_start(),
        left.spec_distance() == right.spec_distance(),
    ensures
        left == right,
{
}

/// A segment is packed with its start in the upper half and its distance in the lower half.
pub proof fn law_segment_is_packed(segment: Segment)
    ensures
        segment.0 == segment.spec_start() * 0x1_0000 + segment.spec_distance(),
{
}

/// Every segment stands for the run from its start on, as long as its distance.
pub proof fn law_runs_are_those_of_segments(segments: Seq<Segment>, k: int)
    requires
        0 <= k < segments.len(),
    ensures
        runs_of(segments).len() == segments.len(),
        runs_of(segments)[k].start == segments[k].spec_start(),
        runs_of(segments)[k].end() - segments[k].spec_start() == segments[k].spec_distance(),
{
}

} // verus!
