//! A `Tile` is the raw data that a user needs to provide. It needs to:
//!   * be square
//!   * have a square resolution for the pixel sizes
//!   * have a single raster band of elevation data
//!   * have a projection that can derive a lat/lon centre

use vstd::prelude::*;

verus! {

/// Why a tile cannot be used.
#[derive(Debug, Clone, Copy, PartialEq, Eq, Structural)]
pub enum TileError {
    /// The tile is not as wide as it is high.
    NotSquare(usize, usize),
    /// The tile is wider than can be counted.
    TooWide(usize),
    /// There is an elevation that does not fit.
    ElevationOutOfRange(u16),
}

/// Check that a tile is square, and get its width.
pub fn check_size(width: usize, height: usize) -> (checked: Result<u32, TileError>)
    ensures
        checked == (if width != height {
            Err(TileError::NotSquare(width, height))
        } else if width > u32::MAX {
            Err(TileError::TooWide(width))
        } else {
            Ok(width as u32)
        }),
{
    if width != height {
        return Err(TileError::NotSquare(width, height));
    }
    if width as u64 > u32::MAX as u64 {
        return Err(TileError::TooWide(width));
    }
    Ok(width as u32)
}

/// An unsigned elevation, such that the middle of all of them is at 0.
pub open spec fn offset_of(elevation: u16) -> int {
    elevation - i16::MAX
}

/// Offset unsigned tile data, such that its middle is at 0. The highest of all elevations does not
/// fit.
pub fn offset_elevations(elevations: &[u16]) -> (offset: Result<Vec<i16>, TileError>)
    ensures
        offset is Ok <==> !elevations@.contains(u16::MAX),
        match offset {
            Ok(offset) => offset@ == Seq::new(
                elevations@.len(),
                |i: int| offset_of(elevations@[i]) as i16,
            ),
            Err(error) => error == TileError::ElevationOutOfRange(u16::MAX),
        },
{
    let mut offset: Vec<i16> = Vec::with_capacity(elevations.len());
    while offset.len() < elevations.len()
        invariant
            offset@.len() <= elevations@.len(),
            forall|i: int| 0 <= i < offset@.len() ==> elevations@[i] != u16::MAX,
            offset@ == Seq::new(offset@.len(), |i: int| offset_of(elevations@[i]) as i16),
        decreases elevations@.len() - offset@.len(),
    {
        let elevation: u16 = elevations[offset.len()];
        let shifted: i32 = elevation as i32 - i16::MAX as i32;
        if shifted > i16::MAX as i32 {
            assert(elevations@.contains(u16::MAX));
            return Err(TileError::ElevationOutOfRange(elevation));
        }
        offset.push(shifted as i16);
    }
    Ok(offset)
}

/// Whether a character is white space.
pub open spec fn spec_is_whitespace(character: char) -> bool {
    ||| '\t' <= character <= '\r'
    ||| character == ' '
    ||| character == '\u{85}'
    ||| character == '\u{a0}'
    ||| character == '\u{1680}'
    ||| '\u{2000}' <= character <= '\u{200a}'
    ||| character == '\u{2028}'
    ||| character == '\u{2029}'
    ||| character == '\u{202f}'
    ||| character == '\u{205f}'
    ||| character == '\u{3000}'
}

/// Whether a character is white space.
fn is_whitespace(character: char) -> (whitespace: bool)
    ensures
        whitespace == spec_is_whitespace(character),
{
    ('\t' <= character && character <= '\r') || character == ' ' || character == '\u{85}' || character
        == '\u{a0}' || character == '\u{1680}' || ('\u{2000}' <= character && character
        <= '\u{200a}') || character == '\u{2028}' || character == '\u{2029}' || character
        == '\u{202f}' || character == '\u{205f}' || character == '\u{3000}'
}

/// Whether there is a part of a text from `start` to `end`: white space goes before it and after it,
/// and none is in it.
pub open spec fn is_part(text: Seq<char>, start: int, end: int) -> bool {
    &&& 0 <= start < end <= text.len()
    &&& forall|i: int| start <= i < end ==> !spec_is_whitespace(#[trigger] text[i])
    &&& start > 0 ==> spec_is_whitespace(text[start - 1])
    &&& end < text.len() ==> spec_is_whitespace(text[end])
}

/// Whether a part of a text starts with a key.
pub open spec fn starts_with(text: Seq<char>, start: int, end: int, key: Seq<char>) -> bool {
    &&& start + key.len() <= end
    &&& text.subrange(start, start + key.len()) == key
}

/// Whether the value that starts at `start` of a part stops at `stop`: before the next equals sign,
/// or with the part.
pub open spec fn is_value(text: Seq<char>, start: int, end: int, stop: int) -> bool {
    &&& start <= stop <= end
    &&& forall|i: int| start <= i < stop ==> #[trigger] text[i] != '='
    &&& stop < end ==> text[stop] == '='
}

/// Whether the value of a key is found in the part from `start` to `end`.
pub open spec fn is_found(
    text: Seq<char>,
    key: Seq<char>,
    value: Seq<char>,
    start: int,
    end: int,
) -> bool {
    &&& is_part(text, start, end)
    &&& starts_with(text, start, end, key)
    &&& exists|stop: int| #[trigger]
        is_value(text, start + key.len(), end, stop) && value == text.subrange(
            start + key.len(),
            stop,
        )
}

/// Whether no part of a text before `before` starts with a key.
pub open spec fn none_found_before(text: Seq<char>, key: Seq<char>, before: int) -> bool {
    forall|start: int, end: int| #[trigger]
        is_part(text, start, end) && start < before ==> !starts_with(text, start, end, key)
}

/// Whether a value is that of the first part of a text that starts with a key.
pub open spec fn is_first_value(text: Seq<char>, key: Seq<char>, value: Seq<char>) -> bool {
    exists|start: int, end: int|
        {
            &&& #[trigger] is_found(text, key, value, start, end)
            &&& none_found_before(text, key, start)
        }
}

/// Whether the text starts with a key at `start`.
fn check_key(text: &str, start: usize, end: usize, key: &str) -> (found: bool)
    requires
        start <= end <= text@.len(),
    ensures
        found == starts_with(text@, start as int, end as int, key@),
{
    let len: usize = key.unicode_len();
    if len > end - start {
        return false;
    }
    let mut index: usize = 0;
    while index < len
        invariant
            len == key@.len(),
            index <= len,
            start + len <= end <= text@.len(),
            forall|i: int| 0 <= i < index ==> text@[start + i] == #[trigger] key@[i],
        decreases len - index,
    {
        if text.get_char(start + index) != key.get_char(index) {
            assert(text@.subrange(start as int, start + len)[index as int] != key@[index as int]);
            return false;
        }
        index += 1;
    }
    assert(text@.subrange(start as int, start + len) =~= key@);
    true
}

/// Find the value of a parameter of a projection, in the definition of the projection. The key is
/// everything up to and including the equals sign, such as `+lat_0=`.
pub fn projection_parameter(projection: &str, key: &str) -> (value: Option<String>)
    requires
        key@.len() > 0,
        key@.last() == '=',
        !key@.drop_last().contains('='),
    ensures
        match value {
            Some(value) => is_first_value(projection@, key@, value@),
            None => none_found_before(projection@, key@, projection@.len() as int),
        },
{
    let ghost text = projection@;
    let len: usize = projection.unicode_len();
    let key_len: usize = key.unicode_len();
    let mut index: usize = 0;
    while index < len
        invariant
            text == projection@,
            len == text.len(),
            key_len == key@.len(),
            index <= len,
            0 < index < len ==> spec_is_whitespace(text[index - 1]) || spec_is_whitespace(
                text[index as int],
            ),
            none_found_before(text, key@, index as int),
        decreases len - index,
    {
        if is_whitespace(projection.get_char(index)) {
            assert(none_found_before(text, key@, index + 1)) by {
                assert forall|start: int, end: int| #[trigger]
                    is_part(text, start, end) && start < index + 1 implies !starts_with(
                    text,
                    start,
                    end,
                    key@,
                ) by {
                    if start == index {
                        assert(!spec_is_whitespace(text[start]));
                    }
                }
            }
            index += 1;
            continue;
        }
        let mut end: usize = index + 1;
        while end < len && !is_whitespace(projection.get_char(end))
            invariant
                text == projection@,
                len == text.len(),
                index < end <= len,
                forall|i: int| index <= i < end ==> !spec_is_whitespace(#[trigger] text[i]),
            decreases len - end,
        {
            end += 1;
        }
        assert(is_part(text, index as int, end as int));
        if check_key(projection, index, end, key) {
            let start: usize = index + key_len;
            let mut stop: usize = start;
            while stop < end && projection.get_char(stop) != '='
                invariant
                    text == projection@,
                    start <= stop <= end <= text.len(),
                    forall|i: int| start <= i < stop ==> #[trigger] text[i] != '=',
                decreases end - stop,
            {
                stop += 1;
            }
            let value: String = projection.substring_char(start, stop).to_owned();
            assert(is_value(text, start as int, end as int, stop as int));
            assert(is_found(text, key@, value@, index as int, end as int));
            return Some(value);
        }
        assert(none_found_before(text, key@, end as int)) by {
            assert forall|other: int, other_end: int| #[trigger]
                is_part(text, other, other_end) && other < end implies !starts_with(
                text,
                other,
                other_end,
                key@,
            ) by {
                if other >= index {
                    if other > index {
                        assert(!spec_is_whitespace(text[other - 1]));
                    }
                    if other_end < end {
                        assert(!spec_is_whitespace(text[other_end]));
                    } else if other_end > end {
                        assert(!spec_is_whitespace(text[end as int]));
                    }
                }
            }
        }
        index = end;
    }
    None
}

/// A value is the text between the equals sign of its key and the next one or the next white space,
/// and there is one only.
pub proof fn law_first_value_is_unique(
    text: Seq<char>,
    key: Seq<char>,
    left: Seq<char>,
    right: Seq<char>,
)
    requires
        key.len() > 0,
        is_first_value(text, key, left),
        is_first_value(text, key, right),
    ensures
        left == right,
        !left.contains('='),
        forall|i: int| 0 <= i < left.len() ==> !spec_is_whitespace(#[trigger] left[i]),
{
    let (start, end) = choose|start: int, end: int|
        {
            &&& #[trigger] is_found(text, key, left, start, end)
            &&& none_found_before(text, key, start)
        };
    let (from, to) = choose|start: int, end: int|
        {
            &&& #[trigger] is_found(text, key, right, start, end)
            &&& none_found_before(text, key, start)
        };
    assert(is_part(text, start, end) && is_part(text, from, to));
    assert(start == from);
    if end < to {
        assert(spec_is_whitespace(text[end]));
    } else if to < end {
        assert(spec_is_whitespace(text[to]));
    }
    let value = start + key.len();
    let stop = choose|stop: int| #[trigger]
        is_value(text, value, end, stop) && left == text.subrange(value, stop);
    let other = choose|stop: int| #[trigger]
        is_value(text, value, end, stop) && right == text.subrange(value, stop);
    if stop < other {
        assert(text[stop] != '=');
    } else if other < stop {
        assert(text[other] != '=');
    }
    assert forall|i: int| 0 <= i < left.len() implies !spec_is_whitespace(#[trigger] left[i])
        && left[i] != '=' by {
        assert(left[i] == text[value + i]);
    }
}

/// Elevations keep their differences, the middle one is at 0, and all but the highest one fit.
pub proof fn law_offset_keeps_differences(left: u16, right: u16)
    ensures
        offset_of(left) - offset_of(right) == left - right,
        offset_of(0x7fff) == 0,
        left != u16::MAX <==> i16::MIN <= offset_of(left) <= i16::MAX,
{
}

} // verus!
