//! Ring data is the raw data needed to reconstruct viewsheds.
//!
//! It is not needed for calculating total surface areas or longest lines of sight.

use vstd::prelude::*;

verus! {

/// Helper to store ring data.
pub struct RingData<'ring_data> {
    /// The ring data buffer.
    pub ring_data: &'ring_data mut [u32],
    /// The amount of reserved space in the global ring data buffer.
    pub reserved_rings_per_band: u32,
    /// Where this point's ring data starts in the ring data buffer.
    pub start: usize,
    /// A cursor to keep track of where we are in our little section of the buffer.
    pub cursor: usize,
}

impl<'ring_data> RingData<'ring_data> {
    /// Whether our little section is in the buffer, and the cursor is in our little section.
    pub open spec fn wf(self) -> bool {
        &&& self.start < self.ring_data@.len()
        &&& self.start + self.reserved_rings_per_band <= self.ring_data@.len()
        &&& 1 <= self.cursor
        &&& self.cursor <= self.reserved_rings_per_band || self.cursor == 1
    }

    /// Instantiate.
    pub fn new(
        ring_data: &'ring_data mut [u32],
        kernel_id: u32,
        reserved_rings_per_band: u32,
    ) -> (helper: Self)
        requires
            kernel_id * reserved_rings_per_band <= u32::MAX,
        ensures
            kernel_id * reserved_rings_per_band < old(ring_data)@.len() && kernel_id
                * reserved_rings_per_band + reserved_rings_per_band <= old(ring_data)@.len()
                ==> helper.wf(),
            helper.ring_data@ == old(ring_data)@,
            final(helper.ring_data)@ == final(ring_data)@,
            helper.reserved_rings_per_band == reserved_rings_per_band,
            helper.start == kernel_id * reserved_rings_per_band,
            helper.cursor == 1,
    {
        let start: usize = (kernel_id * reserved_rings_per_band) as usize;
        // Reserve 0-index for the total count.
        let cursor: usize = 1;

        RingData { ring_data, reserved_rings_per_band, start, cursor }
    }

    /// Save ring data.
    pub fn save(&mut self, value: u32)
        requires
            old(self).cursor < old(self).reserved_rings_per_band ==> old(self).start + old(
                self,
            ).cursor < old(self).ring_data@.len(),
        ensures
            old(self).wf() ==> final(self).wf(),
            final(self).reserved_rings_per_band == old(self).reserved_rings_per_band,
            final(self).start == old(self).start,
            old(self).cursor >= old(self).reserved_rings_per_band ==> {
                &&& final(self).ring_data@ == old(self).ring_data@
                &&& final(self).cursor == old(self).cursor
            },
            old(self).cursor < old(self).reserved_rings_per_band ==> {
                &&& final(self).ring_data@ == old(self).ring_data@.update(
                    old(self).start + old(self).cursor,
                    value,
                )
                &&& final(self).cursor == old(self).cursor + 1
            },
            final(final(self).ring_data)@ == final(old(self).ring_data)@,
    {
        if self.cursor >= self.reserved_rings_per_band as usize {
            return ;
        }
        assert(self.ring_data.len() == self.ring_data@.len());
        self.ring_data[self.start + self.cursor] = value;
        self.cursor += 1;
    }

    /// Make a note at the start of the ring sector data of how many rings we found.
    pub fn finish(&mut self)
        requires
            old(self).start < old(self).ring_data@.len(),
        ensures
            old(self).wf() ==> final(self).wf(),
            final(self).reserved_rings_per_band == old(self).reserved_rings_per_band,
            final(self).start == old(self).start,
            final(self).cursor == old(self).cursor,
            final(self).ring_data@ == old(self).ring_data@.update(
                old(self).start as int,
                old(self).cursor as u32,
            ),
            final(final(self).ring_data)@ == final(old(self).ring_data)@,
    {
        self.ring_data[self.start] = self.cursor as u32;
    }
}

/// Where visibility changes among the first `count` points of a line of sight. The observer can see
/// the point that they stand on.
pub open spec fn boundaries(visible: Seq<bool>, count: int) -> Seq<u32>
    decreases count,
{
    if count <= 0 {
        Seq::empty()
    } else {
        let before = boundaries(visible, count - 1);
        if visible[count - 1] != was_visible(visible, count - 1) {
            before.push((count - 1) as u32)
        } else {
            before
        }
    }
}

/// Whether the point before the one at `index` is visible.
pub open spec fn was_visible(visible: Seq<bool>, index: int) -> bool {
    index <= 0 || visible[index - 1]
}

/// The rings of a line of sight: where visibility changes, and where the line of sight cuts off
/// what is still visible.
pub open spec fn rings(visible: Seq<bool>, max_los: u32) -> Seq<u32> {
    if was_visible(visible, max_los as int) {
        boundaries(visible, max_los as int).push(max_los)
    } else {
        boundaries(visible, max_los as int)
    }
}

/// How many of some rings fit into the reserved space, after their count.
pub open spec fn room(reserved_rings_per_band: u32) -> int {
    if reserved_rings_per_band == 0 {
        0
    } else {
        reserved_rings_per_band - 1
    }
}

/// What fits of some rings into the reserved space.
pub open spec fn kept(rings: Seq<u32>, reserved_rings_per_band: u32) -> Seq<u32> {
    if rings.len() <= room(reserved_rings_per_band) {
        rings
    } else {
        rings.take(room(reserved_rings_per_band))
    }
}

/// What is written into the reserved space: the count, itself included, and what fits of some
/// rings.
pub open spec fn section(rings: Seq<u32>, reserved_rings_per_band: u32) -> Seq<u32> {
    let kept = kept(rings, reserved_rings_per_band);
    seq![(kept.len() + 1) as u32] + kept
}

/// A buffer with a section written over it.
pub open spec fn with_section(buffer: Seq<u32>, start: int, section: Seq<u32>) -> Seq<u32> {
    Seq::new(
        buffer.len(),
        |i: int|
            if start <= i < start + section.len() {
                section[i - start]
            } else {
                buffer[i]
            },
    )
}

/// How many of some rings are at or before a point.
pub open spec fn rings_until(rings: Seq<u32>, index: int) -> nat
    decreases rings.len(),
{
    if rings.len() == 0 {
        0
    } else {
        rings_until(rings.drop_last(), index) + (if rings.last() <= index {
            1nat
        } else {
            0nat
        })
    }
}

/// Rings tell what is visible: a point is visible exactly when the number of rings until it is
/// even.
pub proof fn law_rings_tell_visibility(visible: Seq<bool>, max_los: u32, index: int)
    requires
        visible.len() == max_los,
        0 <= index < max_los,
    ensures
        visible[index] <==> rings_until(rings(visible, max_los), index) % 2 == 0,
{
    lemma_boundaries_tell(visible, max_los as int, index);
    if was_visible(visible, max_los as int) {
        assert(rings(visible, max_los).drop_last() =~= boundaries(visible, max_los as int));
    }
}

/// The boundaries until a point tell whether it is visible.
proof fn lemma_boundaries_tell(visible: Seq<bool>, count: int, index: int)
    requires
        0 <= index < count <= visible.len(),
        visible.len() <= u32::MAX,
    ensures
        visible[index] <==> rings_until(boundaries(visible, count), index) % 2 == 0,
    decreases count,
{
    let before = boundaries(visible, count - 1);
    if visible[count - 1] != was_visible(visible, count - 1) {
        assert(boundaries(visible, count).drop_last() =~= before);
    }
    if index < count - 1 {
        lemma_boundaries_tell(visible, count - 1, index);
    } else {
        lemma_boundaries_later(visible, count - 1);
    }
}

/// All boundaries among some points tell whether the last one of them is visible.
proof fn lemma_boundaries_later(visible: Seq<bool>, count: int)
    requires
        0 <= count < visible.len(),
        visible.len() <= u32::MAX,
    ensures
        was_visible(visible, count) <==> rings_until(boundaries(visible, count), count) % 2 == 0,
        rings_until(boundaries(visible, count), count) == boundaries(visible, count).len(),
    decreases count,
{
    if count > 0 {
        let before = boundaries(visible, count - 1);
        lemma_boundaries_later(visible, count - 1);
        lemma_all_until(visible, count - 1, count);
        lemma_all_until(visible, count - 1, count - 1);
        if visible[count - 1] != was_visible(visible, count - 1) {
            assert(boundaries(visible, count).drop_last() =~= before);
        }
    }
}

/// Every boundary among some points is before the end of them.
proof fn lemma_all_until(visible: Seq<bool>, count: int, index: int)
    requires
        0 <= count <= index,
        count <= visible.len() <= u32::MAX,
    ensures
        rings_until(boundaries(visible, count), index) == boundaries(visible, count).len(),
    decreases count,
{
    if count > 0 {
        lemma_all_until(visible, count - 1, index);
        if visible[count - 1] != was_visible(visible, count - 1) {
            assert(boundaries(visible, count).drop_last() =~= boundaries(visible, count - 1));
        }
    }
}

/// Rings are where visibility changes, in order: a ring is at a point exactly when the point is
/// visible and the one before it is not, or the other way round. The observer can see the point
/// that they stand on, and nothing is visible from the end of the line of sight on.
pub proof fn law_rings_are_where_visibility_changes(visible: Seq<bool>, max_los: u32)
    requires
        visible.len() == max_los,
    ensures
        forall|j: int, k: int|
            0 <= j < k < rings(visible, max_los).len() ==> #[trigger] rings(visible, max_los)[j]
                < #[trigger] rings(visible, max_los)[k],
        forall|ring: u32| #[trigger]
            rings(visible, max_los).contains(ring) <==> {
                let is_visible = ring < max_los && visible[ring as int];
                let is_visible_before = ring == 0 || (ring <= max_los && visible[ring - 1]);
                is_visible != is_visible_before
            },
{
    lemma_boundaries_are_changes(visible, max_los as int);
    let found = boundaries(visible, max_los as int);
    let all = rings(visible, max_los);
    assert forall|j: int, k: int| 0 <= j < k < all.len() implies #[trigger] all[j]
        < #[trigger] all[k] by {
        assert(all[j] == found[j] && found.contains(found[j]));
        if k < found.len() {
            assert(all[k] == found[k]);
        }
    }
    assert forall|ring: u32| #[trigger] all.contains(ring) <==> {
        let is_visible = ring < max_los && visible[ring as int];
        let is_visible_before = ring == 0 || (ring <= max_los && visible[ring - 1]);
        is_visible != is_visible_before
    } by {
        if found.contains(ring) {
            let k = choose|k: int| 0 <= k < found.len() && found[k] == ring;
            assert(all[k] == ring);
        }
        if all.contains(ring) && ring != max_los {
            let k = choose|k: int| 0 <= k < all.len() && all[k] == ring;
            assert(found[k] == ring);
        }
        if was_visible(visible, max_los as int) {
            assert(all[found.len() as int] == max_los);
        } else {
            assert(all == found);
        }
    }
}

/// The boundaries among some points are where visibility changes.
proof fn lemma_boundaries_are_changes(visible: Seq<bool>, count: int)
    requires
        0 <= count <= visible.len() <= u32::MAX,
    ensures
        forall|j: int, k: int|
            0 <= j < k < boundaries(visible, count).len() ==> #[trigger] boundaries(
                visible,
                count,
            )[j] < #[trigger] boundaries(visible, count)[k],
        forall|ring: u32| #[trigger]
            boundaries(visible, count).contains(ring) <==> ring < count && visible[ring as int] != (
            ring == 0 || visible[ring - 1]),
    decreases count,
{
    if count > 0 {
        lemma_boundaries_are_changes(visible, count - 1);
        let before = boundaries(visible, count - 1);
        let after = boundaries(visible, count);
        assert forall|j: int, k: int| 0 <= j < k < after.len() implies #[trigger] after[j]
            < #[trigger] after[k] by {
            assert(after[j] == before[j] && before.contains(before[j]));
            if k < before.len() {
                assert(after[k] == before[k]);
            }
        }
        assert forall|ring: u32| #[trigger] after.contains(ring) <==> ring < count
            && visible[ring as int] != (ring == 0 || visible[ring - 1]) by {
            if before.contains(ring) {
                let k = choose|k: int| 0 <= k < before.len() && before[k] == ring;
                assert(after[k] == ring);
            }
            if after.contains(ring) && ring != count - 1 {
                let k = choose|k: int| 0 <= k < after.len() && after[k] == ring;
                assert(before[k] == ring);
            }
            if after.len() > before.len() {
                assert(after[before.len() as int] == count - 1);
            }
        }
    }
}

/// Every region that is opened is closed: the first region starts at the observer, so the number of
/// rings is odd, and it is odd from the end of the line of sight on. The last ring is at the end
/// exactly when the last point is visible.
pub proof fn law_every_region_is_closed(visible: Seq<bool>, max_los: u32, index: int)
    requires
        visible.len() == max_los,
        max_los <= index,
    ensures
        rings(visible, max_los).len() % 2 == 1,
        rings_until(rings(visible, max_los), index) % 2 == 1,
        rings(visible, max_los).last() == max_los <==> max_los == 0 || visible[max_los - 1],
{
    let found = boundaries(visible, max_los as int);
    let all = rings(visible, max_los);
    lemma_parity_of_boundaries(visible, max_los as int);
    lemma_all_until(visible, max_los as int, index);
    if was_visible(visible, max_los as int) {
        assert(all.drop_last() =~= found);
    } else {
        lemma_boundaries_are_changes(visible, max_los as int);
        assert(found.contains(found.last()));
    }
}

/// The number of boundaries tells whether the last point is visible.
proof fn lemma_parity_of_boundaries(visible: Seq<bool>, count: int)
    requires
        0 <= count <= visible.len() <= u32::MAX,
    ensures
        was_visible(visible, count) <==> boundaries(visible, count).len() % 2 == 0,
    decreases count,
{
    if count > 0 {
        lemma_parity_of_boundaries(visible, count - 1);
    }
}

/// A section starts with its own length, and then holds the first rings, as many as there is room
/// for: all of them, if there is.
pub proof fn law_section_holds_rings(rings: Seq<u32>, reserved_rings_per_band: u32)
    ensures
        ({
            let section = section(rings, reserved_rings_per_band);
            &&& section.len() == (if rings.len() < reserved_rings_per_band {
                rings.len() + 1
            } else if reserved_rings_per_band > 0 {
                reserved_rings_per_band as nat
            } else {
                1
            })
            &&& section[0] == section.len()
            &&& forall|k: int| 1 <= k < section.len() ==> #[trigger] section[k] == rings[k - 1]
        }),
{
}

/// Rings can be read back from a buffer that their section was written to, and nothing else in it
/// changes.
pub proof fn law_section_is_written(buffer: Seq<u32>, start: int, section: Seq<u32>)
    requires
        0 <= start,
        start + section.len() <= buffer.len(),
    ensures
        with_section(buffer, start, section).len() == buffer.len(),
        with_section(buffer, start, section).subrange(start, start + section.len()) == section,
        with_section(buffer, start, section).take(start) == buffer.take(start),
        with_section(buffer, start, section).skip(start + section.len()) == buffer.skip(
            start + section.len(),
        ),
{
    let after = with_section(buffer, start, section);
    assert(after.subrange(start, start + section.len()) =~= section);
    assert(after.take(start) =~= buffer.take(start));
    assert(after.skip(start + section.len() as int) =~= buffer.skip(start + section.len() as int));
}

} // verus!
