//! How the ring data of a sector is stored: under the angle of the sector, as raw bytes.

use crate::integers;
use crate::integers::decimal;
use vstd::prelude::*;

verus! {

/// Name of the partition of the store.
pub const PARTITION_NAME: &'static str = "ring_data";

/// The key name for the metadata.
pub const METADATA_KEY: &'static str = "metadata";

/// Why stored ring data could not be read.
#[derive(Clone, Copy, Debug, PartialEq, Eq, Structural)]
pub enum SectorError {
    /// The bytes end in the middle of a number.
    Truncated,
}

/// The key to database record for the given sector.
pub fn angle_key(angle: u16) -> (key: String)
    ensures
        key@ == integers::decimal_digits(angle as int),
{
    decimal(angle as u32)
}

/// The `position`th byte of a number. The least significant byte comes first if `little`, and last
/// otherwise.
pub open spec fn byte_of(word: u32, position: int, little: bool) -> u8 {
    crate::db::big_endian_byte(
        word,
        if little {
            3 - position
        } else {
            position
        },
    )
}

/// Whether `bytes` are the bytes of `words`, one after the other.
pub open spec fn are_bytes_of(bytes: Seq<u8>, words: Seq<u32>, little: bool) -> bool {
    &&& bytes.len() == 4 * words.len()
    &&& forall|i: int|
        0 <= i < bytes.len() ==> #[trigger] bytes[i] == byte_of(words[i / 4], i % 4, little)
}

/// `bytemuck::cast_slice` lends a slice of one type as a slice of another. Claimed of it from `u32`
/// to `u8`: there are the bytes of each number, one after the other, all in the order that the
/// machine has for the bytes of a number. Which of the two orders that is, is not said.
#[verifier::external_body]
fn words_as_bytes(words: &[u32]) -> (bytes: &[u8])
    ensures
        are_bytes_of(bytes@, words@, true) || are_bytes_of(bytes@, words@, false),
{
    bytemuck::cast_slice(words)
}

/// `bytemuck::pod_collect_to_vec` copies the bytes of a slice of one type into a list of another.
/// Claimed of it from `u8` to `u32`, where the bytes fill the numbers: there are the numbers that
/// have these bytes, all in the order that the machine has for the bytes of a number. Which of the
/// two orders that is, is not said.
#[verifier::external_body]
fn bytes_to_words(bytes: &[u8]) -> (words: Vec<u32>)
    requires
        bytes@.len() % 4 == 0,
    ensures
        are_bytes_of(bytes@, words@, true) || are_bytes_of(bytes@, words@, false),
{
    bytemuck::pod_collect_to_vec(bytes)
}

/// The order of the bytes of a number.
#[derive(Clone, Copy, Debug, PartialEq, Eq, Structural)]
pub enum ByteOrder {
    /// The least significant byte comes first.
    Little,
    /// The most significant byte comes first.
    Big,
}

/// The `position`th byte of a number, the most significant one first.
fn byte(word: u32, position: usize) -> (byte: u8)
    requires
        position < 4,
    ensures
        byte == crate::db::big_endian_byte(word, position as int),
{
    match position {
        0 => (word / 0x100_0000) as u8,
        1 => (word / 0x1_0000 % 0x100) as u8,
        2 => (word / 0x100 % 0x100) as u8,
        _ => (word % 0x100) as u8,
    }
}

/// Whether bytes are those of some numbers.
fn check_bytes(bytes: &[u8], words: &[u32], little: bool) -> (same: bool)
    requires
        bytes@.len() == 4 * words@.len(),
    ensures
        same == are_bytes_of(bytes@, words@, little),
{
    let mut index: usize = 0;
    while index < bytes.len()
        invariant
            index <= bytes@.len() == 4 * words@.len(),
            forall|i: int|
                0 <= i < index ==> #[trigger] bytes@[i] == byte_of(words@[i / 4], i % 4, little),
        decreases bytes@.len() - index,
    {
        let position: usize = if little {
            3 - index % 4
        } else {
            index % 4
        };
        if bytes[index] != byte(words[index / 4], position) {
            return false;
        }
        index += 1;
    }
    true
}

/// The number whose bytes are in the other order.
fn reversed(word: u32) -> (other: u32)
    ensures
        forall|position: int, little: bool|
            0 <= position < 4 ==> #[trigger] byte_of(other, position, little) == byte_of(
                word,
                position,
                !little,
            ),
{
    let first: u32 = byte(word, 0) as u32;
    let second: u32 = byte(word, 1) as u32;
    let third: u32 = byte(word, 2) as u32;
    let fourth: u32 = byte(word, 3) as u32;
    let other: u32 = fourth * 0x100_0000 + third * 0x1_0000 + second * 0x100 + first;
    assert(other / 0x100_0000 == fourth);
    assert(other / 0x1_0000 == fourth * 0x100 + third);
    assert(other / 0x100 == fourth * 0x1_0000 + third * 0x100 + second);
    assert forall|position: int, little: bool| 0 <= position < 4 implies #[trigger] byte_of(
        other,
        position,
        little,
    ) == byte_of(word, position, !little) by {
        assert(position == 0 || position == 1 || position == 2 || position == 3);
    }
    other
}

/// The bytes that the ring data of a sector is stored as, in the order that the machine has for the
/// bytes of a number, and which order that is. Where it makes no difference, it is the little one.
pub fn sector_to_bytes(ring_data: &[u32]) -> (stored: (ByteOrder, &[u8]))
    ensures
        are_bytes_of(stored.1@, ring_data@, stored.0 == ByteOrder::Little),
        stored.0 == ByteOrder::Little <==> are_bytes_of(stored.1@, ring_data@, true),
{
    let bytes: &[u8] = words_as_bytes(ring_data);
    if check_bytes(bytes, ring_data, true) {
        (ByteOrder::Little, bytes)
    } else {
        (ByteOrder::Big, bytes)
    }
}

/// The ring data of a sector, from the bytes that it is stored as in the given order.
pub fn bytes_to_sector(bytes: &[u8], order: ByteOrder) -> (ring_data: Result<
    Vec<u32>,
    SectorError,
>)
    ensures
        ring_data is Ok <==> bytes@.len() % 4 == 0,
        match ring_data {
            Ok(ring_data) => are_bytes_of(bytes@, ring_data@, order == ByteOrder::Little),
            Err(error) => error == SectorError::Truncated,
        },
{
    if bytes.len() % 4 != 0 {
        return Err(SectorError::Truncated);
    }
    let little: bool = order == ByteOrder::Little;
    let mut words: Vec<u32> = bytes_to_words(bytes);
    if check_bytes(bytes, words.as_slice(), little) {
        return Ok(words);
    }
    let ghost before = words@;
    let count: usize = words.len();
    let mut index: usize = 0;
    while index < count
        invariant
            index <= count == words@.len() == before.len(),
            are_bytes_of(bytes@, before, !little),
            forall|i: int| index <= i < count ==> #[trigger] words@[i] == before[i],
            forall|i: int, position: int|
                0 <= i < index && 0 <= position < 4 ==> #[trigger] byte_of(
                    words@[i],
                    position,
                    little,
                ) == byte_of(before[i], position, !little),
        decreases count - index,
    {
        words[index] = reversed(words[index]);
        index += 1;
    }
    assert forall|i: int| 0 <= i < bytes@.len() implies #[trigger] bytes@[i] == byte_of(
        words@[i / 4],
        i % 4,
        little,
    ) by {
        assert(0 <= i / 4 < count && 0 <= i % 4 < 4);
        assert(bytes@[i] == byte_of(before[i / 4], i % 4, !little));
    }
    Ok(words)
}

/// What is read back is what was stored, as long as it is read in the order that it was stored in.
pub proof fn law_sector_reads_back(stored: Seq<u32>, bytes: Seq<u8>, read: Seq<u32>, order: ByteOrder)
    requires
        are_bytes_of(bytes, stored, order == ByteOrder::Little),
        are_bytes_of(bytes, read, order == ByteOrder::Little),
    ensures
        read == stored,
{
    let little = order == ByteOrder::Little;
    assert forall|k: int| 0 <= k < stored.len() implies stored[k] == read[k] by {
        crate::db::lemma_big_endian_sum(stored[k]);
        crate::db::lemma_big_endian_sum(read[k]);
        assert forall|p: int| 0 <= p < 4 implies #[trigger] byte_of(stored[k], p, little) == byte_of(
            read[k],
            p,
            little,
        ) by {
            assert((4 * k + p) / 4 == k && (4 * k + p) % 4 == p);
            assert(bytes[4 * k + p] == byte_of(stored[k], p, little));
            assert(bytes[4 * k + p] == byte_of(read[k], p, little));
        }
        assert(byte_of(stored[k], 0, little) == byte_of(read[k], 0, little));
        assert(byte_of(stored[k], 1, little) == byte_of(read[k], 1, little));
        assert(byte_of(stored[k], 2, little) == byte_of(read[k], 2, little));
        assert(byte_of(stored[k], 3, little) == byte_of(read[k], 3, little));
    }
    assert(stored =~= read);
}

/// The four bytes of a number make it up, in either order.
pub proof fn law_bytes_make_up_number(word: u32)
    ensures
        word == byte_of(word, 0, true) + byte_of(word, 1, true) * 0x100 + byte_of(word, 2, true)
            * 0x1_0000 + byte_of(word, 3, true) * 0x100_0000,
        word == byte_of(word, 3, false) + byte_of(word, 2, false) * 0x100 + byte_of(word, 1, false)
            * 0x1_0000 + byte_of(word, 0, false) * 0x100_0000,
{
    crate::db::lemma_big_endian_sum(word);
}

} // verus!
