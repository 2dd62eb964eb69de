//! What the database holds: how polar segments are looked up, and the blobs that they are saved as.

use crate::segments::{PolarSegments, Segment};
use vstd::arithmetic::div_mod::lemma_fundamental_div_mod_converse;
use vstd::prelude::*;

verus! {

/// How we look up polar segments in the database.
#[derive(Clone, Copy, Debug, PartialEq, Eq, Structural)]
pub enum ID {
    /// The precise DEM ID of the polar segment.
    DEM(i64),
    /// The neighbourhood ID within which a single DEM ID has been isolated.
    Neighbourhood(i64),
}

impl ID {
    /// The column that the lookup compares.
    pub open spec fn spec_field(self) -> Seq<char> {
        match self {
            ID::DEM(_) => "dem_id"@,
            ID::Neighbourhood(_) => "neighbourhood_id"@,
        }
    }

    /// The value that the column is compared with.
    pub open spec fn spec_value(self) -> i64 {
        match self {
            ID::DEM(value) => value,
            ID::Neighbourhood(value) => value,
        }
    }

    /// The column that the lookup compares, and the value it is compared with.
    pub fn field_and_value(&self) -> (lookup: (&'static str, i64))
        ensures
            lookup.0@ == self.spec_field(),
            lookup.1 == self.spec_value(),
    {
        match self {
            ID::DEM(value) => ("dem_id", *value),
            ID::Neighbourhood(value) => ("neighbourhood_id", *value),
        }
    }

    /// The DEM ID of the point that was looked up, if the ID alone says so. Otherwise it has to be
    /// asked of a row of the neighbourhood.
    pub fn dem_id(&self) -> (dem_id: Option<i64>)
        ensures
            dem_id == (match *self {
                ID::DEM(value) => Some(value),
                ID::Neighbourhood(_) => None::<i64>,
            }),
    {
        match self {
            ID::DEM(value) => Some(*value),
            ID::Neighbourhood(_) => None,
        }
    }
}

/// Why saved data could not be loaded.
#[derive(Clone, Copy, Debug, PartialEq, Eq, Structural)]
pub enum BlobError {
    /// The blob ends in the middle of a segment.
    Truncated,
}

/// The `position`th byte of `value`, the most significant byte first.
pub open spec fn big_endian_byte(value: u32, position: int) -> u8 {
    if position == 0 {
        (value as int / 0x100_0000) as u8
    } else if position == 1 {
        (value as int / 0x1_0000 % 0x100) as u8
    } else if position == 2 {
        (value as int / 0x100 % 0x100) as u8
    } else {
        (value as int % 0x100) as u8
    }
}

/// The bytes that `segments` are saved as: the big-endian bytes of each, one after the other.
pub open spec fn blob_of(segments: Seq<Segment>) -> Seq<u8> {
    Seq::new(4 * segments.len(), |i: int| big_endian_byte(segments[i / 4].0, i % 4))
}

/// The four big-endian bytes make up the value.
pub proof fn lemma_big_endian_sum(value: u32)
    ensures
        value == big_endian_byte(value, 0) * 0x100_0000 + big_endian_byte(value, 1) * 0x1_0000
            + big_endian_byte(value, 2) * 0x100 + big_endian_byte(value, 3),
{
}

/// Four bytes are the big-endian bytes of the value that they make up.
proof fn lemma_big_endian_of_sum(value: u32, b0: int, b1: int, b2: int, b3: int)
    requires
        value == b0 * 0x100_0000 + b1 * 0x1_0000 + b2 * 0x100 + b3,
        0 <= b0 < 0x100,
        0 <= b1 < 0x100,
        0 <= b2 < 0x100,
        0 <= b3 < 0x100,
    ensures
        big_endian_byte(value, 0) == b0,
        big_endian_byte(value, 1) == b1,
        big_endian_byte(value, 2) == b2,
        big_endian_byte(value, 3) == b3,
{
    let whole = value as int;
    lemma_fundamental_div_mod_converse(
        whole,
        0x100_0000,
        b0,
        b1 * 0x1_0000 + b2 * 0x100 + b3,
    );
    lemma_fundamental_div_mod_converse(whole, 0x1_0000, b0 * 0x100 + b1, b2 * 0x100 + b3);
    lemma_fundamental_div_mod_converse(b0 * 0x100 + b1, 0x100, b0, b1);
    let upper = b0 * 0x1_0000 + b1 * 0x100 + b2;
    lemma_fundamental_div_mod_converse(whole, 0x100, upper, b3);
    lemma_fundamental_div_mod_converse(upper, 0x100, b0 * 0x100 + b1, b2);
}

/// Where the bytes of the `k`th segment are.
proof fn lemma_blob_index(segments: Seq<Segment>, k: int, position: int)
    requires
        0 <= k < segments.len(),
        0 <= position < 4,
    ensures
        blob_of(segments)[4 * k + position] == big_endian_byte(segments[k].0, position),
{
    assert((4 * k + position) / 4 == k && (4 * k + position) % 4 == position);
}

/// No two lists of segments are saved as the same blob.
pub proof fn law_blob_injective(left: Seq<Segment>, right: Seq<Segment>)
    requires
        blob_of(left) == blob_of(right),
    ensures
        left == right,
{
    assert(blob_of(left).len() == 4 * left.len());
    assert(blob_of(right).len() == 4 * right.len());
    assert forall|k: int| 0 <= k < left.len() implies left[k] == right[k] by {
        lemma_big_endian_sum(left[k].0);
        lemma_big_endian_sum(right[k].0);
        assert forall|position: int| 0 <= position < 4 implies #[trigger] big_endian_byte(
            left[k].0,
            position,
        ) == big_endian_byte(right[k].0, position) by {
            lemma_blob_index(left, k, position);
            lemma_blob_index(right, k, position);
        }
    }
    assert(left =~= right);
}

/// Convert `Segment`s to the blob that they are saved as.
pub fn segments_to_bytes(segments: &[Segment]) -> (bytes: Vec<u8>)
    ensures
        bytes@ == blob_of(segments@),
{
    let mut out: Vec<u8> = Vec::new();
    let mut index: usize = 0;
    while index < segments.len()
        invariant
            index <= segments@.len(),
            out@ == blob_of(segments@.take(index as int)),
        decreases segments@.len() - index,
    {
        let packed: u32 = segments[index].0;
        assert(packed >> 24 == packed / 0x100_0000) by (bit_vector);
        assert((packed >> 16) as u8 == packed / 0x1_0000 % 0x100) by (bit_vector);
        assert((packed >> 8) as u8 == packed / 0x100 % 0x100) by (bit_vector);
        assert(packed as u8 == packed % 0x100) by (bit_vector);
        let ghost before = out@;
        out.push((packed >> 24) as u8);
        out.push((packed >> 16) as u8);
        out.push((packed >> 8) as u8);
        out.push(packed as u8);
        proof {
            let taken = segments@.take(index + 1);
            assert(taken.take(index as int) =~= segments@.take(index as int));
            assert forall|i: int| 0 <= i < out@.len() implies out@[i] == #[trigger] blob_of(
                taken,
            )[i] by {
                if i < before.len() {
                    assert(before[i] == blob_of(segments@.take(index as int))[i]);
                }
            }
            assert(out@ =~= blob_of(taken));
        }
        index += 1;
    }
    assert(segments@.take(index as int) =~= segments@);
    out
}

/// Convert blob to `Segment`s.
pub fn bytes_to_segments(bytes: &[u8]) -> (segments: Result<Vec<Segment>, BlobError>)
    ensures
        segments is Ok <==> bytes@.len() % 4 == 0,
        match segments {
            Ok(segments) => blob_of(segments@) == bytes@,
            Err(error) => error == BlobError::Truncated,
        },
{
    let mut out: Vec<Segment> = Vec::with_capacity(bytes.len() / 4);
    let mut index: usize = 0;
    while index < bytes.len()
        invariant
            index <= bytes@.len(),
            index == 4 * out@.len(),
            blob_of(out@) == bytes@.take(index as int),
        decreases bytes@.len() - index,
    {
        if bytes.len() - index < 4 {
            return Err(BlobError::Truncated);
        }
        let (b0, b1, b2, b3) = (
            bytes[index] as u32,
            bytes[index + 1] as u32,
            bytes[index + 2] as u32,
            bytes[index + 3] as u32,
        );
        let packed: u32 = (b0 << 24) | (b1 << 16) | (b2 << 8) | b3;
        assert(packed == b0 * 0x100_0000 + b1 * 0x1_0000 + b2 * 0x100 + b3) by (bit_vector)
            requires
                packed == (b0 << 24) | (b1 << 16) | (b2 << 8) | b3,
                b0 <= 0xff,
                b1 <= 0xff,
                b2 <= 0xff,
                b3 <= 0xff,
        ;
        let ghost before = out@;
        out.push(Segment(packed));
        proof {
            let k = before.len() as int;
            lemma_big_endian_of_sum(packed, b0 as int, b1 as int, b2 as int, b3 as int);
            assert forall|i: int| 0 <= i < index + 4 implies #[trigger] blob_of(out@)[i] == bytes@[i] by {
                if i < index {
                    assert(blob_of(before)[i] == bytes@.take(index as int)[i]);
                } else {
                    lemma_blob_index(out@, k, i - index);
                }
            }
            assert(blob_of(out@) =~= bytes@.take(index + 4));
        }
        index += 4;
    }
    assert(bytes@.take(index as int) =~= bytes@);
    Ok(out)
}

/// Convert the blobs of all the angles of a point to `Segment`s.
pub fn rows_to_segments(rows: &[Vec<u8>]) -> (angles: Result<Vec<Vec<Segment>>, BlobError>)
    ensures
        angles is Ok <==> forall|i: int| 0 <= i < rows@.len() ==> #[trigger] rows@[i]@.len() % 4 == 0,
        match angles {
            Ok(angles) => {
                &&& angles@.len() == rows@.len()
                &&& forall|i: int|
                    0 <= i < rows@.len() ==> blob_of(#[trigger] angles@[i]@) == rows@[i]@
            },
            Err(error) => error == BlobError::Truncated,
        },
{
    let mut angles: Vec<Vec<Segment>> = Vec::new();
    let mut index: usize = 0;
    while index < rows.len()
        invariant
            index <= rows@.len(),
            angles@.len() == index,
            forall|i: int| 0 <= i < index ==> #[trigger] rows@[i]@.len() % 4 == 0,
            forall|i: int| 0 <= i < index ==> blob_of(#[trigger] angles@[i]@) == rows@[i]@,
        decreases rows@.len() - index,
    {
        match bytes_to_segments(rows[index].as_slice()) {
            Ok(segments) => angles.push(segments),
            Err(error) => {
                assert(rows@[index as int]@.len() % 4 != 0);
                return Err(error);
            },
        }
        index += 1;
    }
    Ok(angles)
}

/// A row of the table of polar segments.
#[derive(Clone, Debug)]
pub struct Row {
    /// The DEM ID of the point, as the signed integer that the database stores.
    pub dem_id: i64,
    /// The neighbourhood that the point was isolated from, if any.
    pub neighbourhood_id: Option<i64>,
    /// The angle of the line of sight.
    pub angle_id: u16,
    /// The visible segments along the line of sight.
    pub visible_segments: Vec<u8>,
}

/// The two's complement reading of an unsigned number.
pub open spec fn signed(value: u64) -> int {
    if value <= i64::MAX {
        value as int
    } else {
        value - 0x1_0000_0000_0000_0000
    }
}

/// The row that one line of sight is saved as.
pub fn row_of(dem_id: u64, neighbourhood_id: Option<i64>, segments: &PolarSegments) -> (row: Row)
    ensures
        row.dem_id == signed(dem_id),
        row.neighbourhood_id == neighbourhood_id,
        row.angle_id == segments.degree,
        row.visible_segments@ == blob_of(segments.visible_segments@),
{
    assert(dem_id <= 0x7fff_ffff_ffff_ffff ==> dem_id as i64 == dem_id) by (bit_vector);
    assert(dem_id > 0x7fff_ffff_ffff_ffff ==> dem_id as i64 == dem_id - 0x1_0000_0000_0000_0000)
        by (bit_vector);
    Row {
        dem_id: dem_id as i64,
        neighbourhood_id,
        angle_id: segments.degree,
        visible_segments: segments_to_bytes(segments.visible_segments.as_slice()),
    }
}

/// Segments are saved one after the other, in four bytes each, the most significant one first.
pub proof fn law_blob_goes_by_segments(left: Seq<Segment>, right: Seq<Segment>, segment: Segment)
    ensures
        blob_of(left + right) == blob_of(left) + blob_of(right),
        blob_of(seq![segment]).len() == 4,
        segment.0 == blob_of(seq![segment])[0] * 0x100_0000 + blob_of(seq![segment])[1] * 0x1_0000
            + blob_of(seq![segment])[2] * 0x100 + blob_of(seq![segment])[3],
{
    assert forall|i: int| 0 <= i < blob_of(left + right).len() implies #[trigger] blob_of(
        left + right,
    )[i] == (blob_of(left) + blob_of(right))[i] by {
        if i < 4 * left.len() {
            assert((left + right)[i / 4] == left[i / 4]);
        } else {
            assert((left + right)[i / 4] == right[i / 4 - left.len()]);
            assert((i - 4 * left.len()) / 4 == i / 4 - left.len());
            assert((i - 4 * left.len()) % 4 == i % 4);
        }
    }
    assert(blob_of(left + right) =~= blob_of(left) + blob_of(right));
    lemma_big_endian_sum(segment.0);
}

/// A signed reading has the same bits: it differs from the number by a whole range, or not at all.
pub proof fn law_signed_has_same_bits(value: u64)
    ensures
        i64::MIN <= signed(value) <= i64::MAX,
        signed(value) == value || signed(value) + 0x1_0000_0000_0000_0000 == value,
{
}

} // verus!
