//! Total Viewsheds kernel. The heart of the calculations.
//!
//! Distances are counted in points. Angles are given by their place in the order of single
//! precision numbers, see [`crate::single::Single::key`].

use crate::chocolate_box;
use crate::chocolate_box::{chocolate_id_from_tvs_id, NOOP_DEM_ID};
use crate::constants::{Constants, Flag};
use crate::elevations::Direction;
use crate::ring_data;
use crate::ring_data::RingData;
use crate::unrolled_los;
use crate::vector;
use crate::vector::LOWEST_ANGLE;
use vstd::prelude::*;

verus! {

/// Where an invocation of the kernel looks from, and in which direction.
#[derive(Clone, Copy, Debug, PartialEq, Eq, Structural)]
pub struct Band {
    /// Whether going forwards or backwards along the line of sight.
    pub direction: Direction,
    /// The TVS ID in rotated coordinates.
    pub rotated_tvs_id: u32,
}

/// The band of each invocation: first all the forward ones, then all the backward ones.
pub open spec fn band_of(kernel_id: u32, total_bands: u32) -> Band {
    if kernel_id < total_bands / 2 {
        Band { direction: Direction::Forward, rotated_tvs_id: kernel_id }
    } else {
        Band {
            direction: Direction::Backward,
            rotated_tvs_id: (kernel_id - total_bands / 2) as u32,
        }
    }
}

/// Every point is looked from once in each direction: no two invocations have the same band.
pub proof fn law_bands_are_distinct(left: u32, right: u32, total_bands: u32)
    requires
        band_of(left, total_bands) == band_of(right, total_bands),
    ensures
        left == right,
{
}

impl Band {
    /// Translate a kernel ID to a TVS ID.
    pub fn new(kernel_id: u32, constants: &Constants) -> (band: Self)
        ensures
            band == band_of(kernel_id, constants.total_bands),
    {
        let half_total_bands: u32 = constants.total_bands / 2;
        if kernel_id < half_total_bands {
            Band { direction: Direction::Forward, rotated_tvs_id: kernel_id }
        } else {
            Band {
                direction: Direction::Backward,
                rotated_tvs_id: kernel_id - half_total_bands,
            }
        }
    }

    /// The elevations along the band, from that of the point of view on.
    pub fn elevations(&self, elevations: &[i16], constants: &Constants) -> (along: Vec<i16>)
        requires
            constants.tvs_width > 0,
            constants.dem_width == 3 * constants.tvs_width,
            self.rotated_tvs_id < constants.tvs_width * constants.tvs_width,
            constants.max_los_as_points <= constants.tvs_width,
            elevations@.len() == constants.dem_width * constants.tvs_width,
            elevations@.len() <= u32::MAX,
        ensures
            along@ == crate::rotation::filled(
                crate::elevations::elevations_along(
                    elevations@,
                    self.direction,
                    chocolate_box::chocolate_id(
                        self.rotated_tvs_id as int,
                        constants.tvs_width as int,
                        constants.dem_width as int,
                    ),
                    constants.max_los_as_points + 1,
                ),
            ),
    {
        proof {
            chocolate_box::law_bands_are_in_box(
                self.rotated_tvs_id as int,
                constants.tvs_width as int,
                constants.dem_width as int,
            );
        }
        let chocolate_id: usize = chocolate_id_from_tvs_id(self.rotated_tvs_id, constants);
        crate::elevations::along_band(
            elevations,
            self.direction,
            chocolate_id,
            constants.max_los_as_points,
        )
    }
}

/// Kernel state
pub struct Kernel {
    /// The current maximum angle between the observer and an elevation point.
    max_angle: i32,
    /// Is the current elevation visible.
    is_currently_visible: bool,
    /// Is the previous elevation visible.
    is_previously_visible: bool,
    /// Is region of visibility closing.
    is_closing: bool,
    /// Keep track of the distances visible from this particular band
    band_surface: u64,
    /// Keep track of the longest line.
    longest_line: u32,
}

/// What becomes of a longest line when another one is found. Backward lines are negative.
pub open spec fn longest_after(current: int, found: int, direction: Direction) -> int {
    if found > vstd::math::abs(current) {
        match direction {
            Direction::Forward => found,
            Direction::Backward => -found,
        }
    } else if direction == Direction::Forward && found == vstd::math::abs(current) {
        found
    } else {
        current
    }
}

/// A forward line takes precedence over an equally long backward one, whichever comes first.
pub proof fn law_longest_in_any_order(current: int, forward: int, backward: int)
    requires
        0 <= forward,
        0 <= backward,
    ensures
        longest_after(
            longest_after(current, forward, Direction::Forward),
            backward,
            Direction::Backward,
        ) == longest_after(
            longest_after(current, backward, Direction::Backward),
            forward,
            Direction::Forward,
        ),
{
}

impl Kernel {
    /// Whether this is the state after the first `count` points.
    spec fn is_after(self, constants: Constants, angles: Seq<i32>, count: int) -> bool {
        let visible = unrolled_los::visibility(angles);
        &&& self.max_angle == vector::highest_of(LOWEST_ANGLE, angles, count)
        &&& self.is_previously_visible == ring_data::was_visible(visible, count)
        &&& self.is_currently_visible == ring_data::was_visible(visible, count)
        &&& self.is_closing ==> !self.is_currently_visible
        &&& self.band_surface == (if constants.has(Flag::TotalSurfaces) {
            unrolled_los::visible_distance(visible, count)
        } else {
            0
        })
        &&& self.longest_line == (if constants.has(Flag::LongestLines) {
            unrolled_los::longest_line(visible, count)
        } else {
            0
        })
    }

    /// Instantiate.
    fn new(Ghost(constants): Ghost<Constants>, Ghost(angles): Ghost<Seq<i32>>) -> (runner: Self)
        ensures
            runner.is_after(constants, angles, 0),
    {
        Kernel {
            max_angle: LOWEST_ANGLE,
            is_currently_visible: true,
            is_previously_visible: true,
            is_closing: false,
            band_surface: 0,
            longest_line: 0,
        }
    }

    /// The kernel, on one point. It says whether a region of visibility opens or closes there.
    fn kernel(
        &mut self,
        constants: &Constants,
        index: u32,
        angle: i32,
        Ghost(angles): Ghost<Seq<i32>>,
    ) -> (changes: bool)
        requires
            index < angles.len() <= u32::MAX,
            angle == angles[index as int],
            old(self).is_after(*constants, angles, index as int),
        ensures
            final(self).is_after(*constants, angles, index + 1),
            changes == (constants.has(Flag::RingData) && unrolled_los::visibility(
                angles,
            )[index as int] != ring_data::was_visible(
                unrolled_los::visibility(angles),
                index as int,
            )),
    {
        //                            5              |-
        //                        4 .-`-. 6          |-
        //            1       3  .-`     `-.  7      |-
        //   o    0 .-`-. 2   .-`           `-.      |- Elevation deltas
        //   /\  .-`     `-.-`                 `-.8  |-
        //    |                                      |-
        //    |---|---|---|---|---|---|---|---|---|
        //    |       Distance deltas
        //    |
        //   PoV  --------> direction of band point iterations
        //
        // Notice how only points 1, 4 and 5 increase the angle between the viewer and
        // the land and therefore can be considered visible.
        proof {
            unrolled_los::lemma_visible_above_horizon(angles, index as int);
            unrolled_los::lemma_visible_distance_bounds(
                unrolled_los::visibility(angles),
                index as int,
            );
            assert(index * u32::MAX + u32::MAX <= u64::MAX) by (nonlinear_arith)
                requires
                    0 <= index < u32::MAX,
            ;
        }
        let distance: u32 = index + 1;
        self.is_currently_visible = angle > self.max_angle;
        if constants.is_total_surfaces() && self.is_currently_visible {
            self.band_surface = self.band_surface + distance as u64;
        }
        if constants.is_longest_lines() && self.is_currently_visible {
            self.longest_line = distance;
        }
        let mut changes: bool = false;
        if constants.is_ring_data() {
            let is_opening: bool = self.is_currently_visible && !self.is_previously_visible;
            self.is_closing = self.is_previously_visible && !self.is_currently_visible;
            changes = is_opening || self.is_closing;
        } else {
            self.is_closing = false;
        }
        // Prepare for the next iteration.
        self.is_previously_visible = self.is_currently_visible;
        if angle > self.max_angle {
            self.max_angle = angle;
        }
        changes
    }

    /// Look along a band, and collect where visibility changes.
    fn run_with_rings(
        kernel_id: u32,
        angles: &[i32],
        constants: &Constants,
        buffer: &mut [u32],
    ) -> (runner: Self)
        requires
            constants.has(Flag::RingData),
            angles@.len() == constants.max_los_as_points,
            kernel_id * constants.reserved_rings_per_band <= u32::MAX,
            kernel_id * constants.reserved_rings_per_band < old(buffer)@.len(),
            kernel_id * constants.reserved_rings_per_band + constants.reserved_rings_per_band
                <= old(buffer)@.len(),
        ensures
            runner.is_after(*constants, angles@, constants.max_los_as_points as int),
            final(buffer)@ == ring_data::with_section(
                old(buffer)@,
                kernel_id * constants.reserved_rings_per_band,
                ring_data::section(
                    ring_data::rings(
                        unrolled_los::visibility(angles@),
                        constants.max_los_as_points,
                    ),
                    constants.reserved_rings_per_band,
                ),
            ),
    {
        let ghost visible = unrolled_los::visibility(angles@);
        let ghost start = kernel_id * constants.reserved_rings_per_band;
        let ghost reserved = constants.reserved_rings_per_band;
        let ghost before = buffer@;
        let mut runner = Self::new(Ghost(*constants), Ghost(angles@));
        let mut rings = RingData::new(buffer, kernel_id, constants.reserved_rings_per_band);
        let ghost end = final(rings.ring_data)@;
        let ghost mut found: Seq<u32> = Seq::empty();
        assert(rings.ring_data@ =~= ring_data::with_section(
            before,
            start + 1,
            ring_data::kept(found, reserved),
        ));
        let mut index: u32 = 0;
        while index < constants.max_los_as_points
            invariant
                constants.has(Flag::RingData),
                index <= constants.max_los_as_points == angles@.len(),
                visible == unrolled_los::visibility(angles@),
                runner.is_after(*constants, angles@, index as int),
                rings.wf(),
                rings.start == start,
                rings.reserved_rings_per_band == reserved,
                found == ring_data::boundaries(visible, index as int),
                rings.cursor == 1 + ring_data::kept(found, reserved).len(),
                rings.ring_data@ == ring_data::with_section(
                    before,
                    start + 1,
                    ring_data::kept(found, reserved),
                ),
                start + reserved <= before.len(),
                final(rings.ring_data)@ == end,
            decreases constants.max_los_as_points - index,
        {
            let changes: bool = runner.kernel(
                constants,
                index,
                angles[index as usize],
                Ghost(angles@),
            );
            if changes {
                rings.save(index);
                proof {
                    lemma_saved(before, start, found, reserved, index);
                    found = found.push(index);
                }
            }
            index += 1;
        }
        // Close any ring sectors prematurely cut off by a restricted line of sight.
        if runner.is_currently_visible && !runner.is_closing {
            rings.save(constants.max_los_as_points);
            proof {
                lemma_saved(before, start, found, reserved, constants.max_los_as_points);
                found = found.push(constants.max_los_as_points);
            }
        }
        rings.finish();
        assert(rings.ring_data@ =~= ring_data::with_section(
            before,
            start,
            ring_data::section(found, reserved),
        ));
        runner
    }
}

/// What the kernels write to.
pub struct Outputs {
    /// The visible surface of each point.
    pub surfaces: Seq<u64>,
    /// The longest line of each point. It is negative where it goes backward.
    pub longest: Seq<i64>,
    /// The rings of each band.
    pub rings: Seq<u32>,
}

/// What is written once a band was looked along. There is nothing to do where the point of view
/// could not be rotated.
pub open spec fn outputs_after(
    before: Outputs,
    kernel_id: u32,
    original_tvs_id: usize,
    angles: Seq<i32>,
    constants: Constants,
) -> Outputs {
    let visible = unrolled_los::visibility(angles);
    let max_los = constants.max_los_as_points;
    let t = original_tvs_id as int;
    let works = original_tvs_id != NOOP_DEM_ID;
    Outputs {
        surfaces: if works && constants.has(Flag::TotalSurfaces) {
            before.surfaces.update(
                t,
                (before.surfaces[t] + unrolled_los::visible_distance(visible, max_los as int))
                    as u64,
            )
        } else {
            before.surfaces
        },
        longest: if works && constants.has(Flag::LongestLines) {
            before.longest.update(
                t,
                longest_after(
                    before.longest[t] as int,
                    unrolled_los::longest_line(visible, max_los as int),
                    band_of(kernel_id, constants.total_bands).direction,
                ) as i64,
            )
        } else {
            before.longest
        },
        rings: if works && constants.has(Flag::RingData) {
            ring_data::with_section(
                before.rings,
                kernel_id * constants.reserved_rings_per_band,
                ring_data::section(
                    ring_data::rings(visible, max_los),
                    constants.reserved_rings_per_band,
                ),
            )
        } else {
            before.rings
        },
    }
}

/// Whether there is a place for what is written, and it can be counted.
pub open spec fn has_room(
    before: Outputs,
    kernel_id: u32,
    original_tvs_id: usize,
    angles: Seq<i32>,
    constants: Constants,
) -> bool {
    let t = original_tvs_id as int;
    &&& angles.len() == constants.max_los_as_points
    &&& original_tvs_id != NOOP_DEM_ID && constants.has(Flag::RingData) ==> {
        &&& kernel_id * constants.reserved_rings_per_band <= u32::MAX
        &&& kernel_id * constants.reserved_rings_per_band < before.rings.len()
        &&& kernel_id * constants.reserved_rings_per_band + constants.reserved_rings_per_band
            <= before.rings.len()
    }
    &&& original_tvs_id != NOOP_DEM_ID && constants.has(Flag::TotalSurfaces) ==> {
        &&& t < before.surfaces.len()
        &&& before.surfaces[t] + unrolled_los::visible_distance(
            unrolled_los::visibility(angles),
            constants.max_los_as_points as int,
        ) <= u64::MAX
    }
    &&& original_tvs_id != NOOP_DEM_ID && constants.has(Flag::LongestLines) ==> {
        &&& t < before.longest.len()
        &&& before.longest[t] > i64::MIN
    }
}

/// What there is to see along a band.
#[derive(Clone, Debug)]
pub struct BandAngles {
    /// The TVS ID in its non-rotated coordinates, or none.
    pub original_tvs_id: usize,
    /// The angle of each point, as a key to order it by.
    pub angles: Vec<i32>,
}

/// What is written once the first `count` of some bands were looked along.
pub open spec fn outputs_after_bands(
    before: Outputs,
    first_kernel_id: u32,
    bands: Seq<BandAngles>,
    constants: Constants,
    count: int,
) -> Outputs
    decreases count,
{
    if count <= 0 {
        before
    } else {
        outputs_after(
            outputs_after_bands(before, first_kernel_id, bands, constants, count - 1),
            (first_kernel_id + count - 1) as u32,
            bands[count - 1].original_tvs_id,
            bands[count - 1].angles@,
            constants,
        )
    }
}

impl Kernel {
    /// Run the kernel for one band after the other. The first one has the given ID.
    pub fn run_bands(
        first_kernel_id: u32,
        bands: &[BandAngles],
        constants: &Constants,
        cumulative_surfaces: &mut [u64],
        longest_lines: &mut [i64],
        ring_data: &mut [u32],
    )
        requires
            first_kernel_id + bands@.len() <= u32::MAX,
            forall|k: int|
                0 <= k < bands@.len() ==> has_room(
                    outputs_after_bands(
                        (Outputs {
                            surfaces: old(cumulative_surfaces)@,
                            longest: old(longest_lines)@,
                            rings: old(ring_data)@,
                        }),
                        first_kernel_id,
                        bands@,
                        *constants,
                        k,
                    ),
                    (first_kernel_id + k) as u32,
                    (#[trigger] bands@[k]).original_tvs_id,
                    bands@[k].angles@,
                    *constants,
                ),
        ensures
            (Outputs {
                surfaces: final(cumulative_surfaces)@,
                longest: final(longest_lines)@,
                rings: final(ring_data)@,
            }) == outputs_after_bands(
                (Outputs {
                    surfaces: old(cumulative_surfaces)@,
                    longest: old(longest_lines)@,
                    rings: old(ring_data)@,
                }),
                first_kernel_id,
                bands@,
                *constants,
                bands@.len() as int,
            ),
    {
        let ghost before = Outputs {
            surfaces: cumulative_surfaces@,
            longest: longest_lines@,
            rings: ring_data@,
        };
        let mut index: usize = 0;
        while index < bands.len()
            invariant
                index <= bands@.len(),
                first_kernel_id + bands@.len() <= u32::MAX,
                forall|k: int|
                    0 <= k < bands@.len() ==> has_room(
                        outputs_after_bands(before, first_kernel_id, bands@, *constants, k),
                        (first_kernel_id + k) as u32,
                        (#[trigger] bands@[k]).original_tvs_id,
                        bands@[k].angles@,
                        *constants,
                    ),
                (Outputs {
                    surfaces: cumulative_surfaces@,
                    longest: longest_lines@,
                    rings: ring_data@,
                }) == outputs_after_bands(
                    before,
                    first_kernel_id,
                    bands@,
                    *constants,
                    index as int,
                ),
            decreases bands@.len() - index,
        {
            let band = &bands[index];
            assert(*band == bands@[index as int]);
            Self::run(
                first_kernel_id + index as u32,
                band.original_tvs_id,
                band.angles.as_slice(),
                constants,
                cumulative_surfaces,
                longest_lines,
                ring_data,
            );
            index += 1;
        }
    }

    /// The kernel
    ///
    /// `original_tvs_id` is the TVS ID in its non-rotated coordinates. There is nothing to do where
    /// it could not be rotated.
    pub fn run(
        kernel_id: u32,
        original_tvs_id: usize,
        angles: &[i32],
        constants: &Constants,
        cumulative_surfaces: &mut [u64],
        longest_lines: &mut [i64],
        ring_data: &mut [u32],
    )
        requires
            has_room(
                (Outputs {
                    surfaces: old(cumulative_surfaces)@,
                    longest: old(longest_lines)@,
                    rings: old(ring_data)@,
                }),
                kernel_id,
                original_tvs_id,
                angles@,
                *constants,
            ),
        ensures
            (Outputs {
                surfaces: final(cumulative_surfaces)@,
                longest: final(longest_lines)@,
                rings: final(ring_data)@,
            }) == outputs_after(
                (Outputs {
                    surfaces: old(cumulative_surfaces)@,
                    longest: old(longest_lines)@,
                    rings: old(ring_data)@,
                }),
                kernel_id,
                original_tvs_id,
                angles@,
                *constants,
            ),
    {
        if original_tvs_id == NOOP_DEM_ID {
            return ;
        }
        let ghost visible = unrolled_los::visibility(angles@);
        let direction = Band::new(kernel_id, constants).direction;
        let runner = if constants.is_ring_data() {
            Self::run_with_rings(kernel_id, angles, constants, ring_data)
        } else {
            let mut runner = Self::new(Ghost(*constants), Ghost(angles@));
            let mut index: u32 = 0;
            while index < constants.max_los_as_points
                invariant
                    index <= constants.max_los_as_points == angles@.len(),
                    runner.is_after(*constants, angles@, index as int),
                decreases constants.max_los_as_points - index,
            {
                runner.kernel(constants, index, angles[index as usize], Ghost(angles@));
                index += 1;
            }
            runner
        };
        // Accumulate surfaces for a given TVS ID.
        if constants.is_total_surfaces() {
            let surface: u64 = cumulative_surfaces[original_tvs_id] + runner.band_surface;
            cumulative_surfaces[original_tvs_id] = surface;
        }
        // Save the longest line of sight for the given TVS ID.
        if constants.is_longest_lines() {
            let current_longest: i64 = longest_lines[original_tvs_id];
            let current_length: i64 = if current_longest < 0 {
                -current_longest
            } else {
                current_longest
            };
            let longest_line: i64 = runner.longest_line as i64;
            let is_forward: bool = match direction {
                Direction::Forward => true,
                Direction::Backward => false,
            };
            if longest_line > current_length {
                longest_lines[original_tvs_id] = if is_forward {
                    longest_line
                } else {
                    -longest_line
                };
            } else if is_forward && longest_line == current_length {
                // We always want the first ever occurrence of a longest line to take precedence.
                // However we interleave the forward lines (0-179°) angles with the backward lines
                // (180-359°). This means we have to have this awkward check here where a forward
                // line takes precedence over an equally long backward line.
                longest_lines[original_tvs_id] = longest_line;
            }
            assert(longest_lines@ =~= old(longest_lines)@.update(
                original_tvs_id as int,
                longest_after(
                    old(longest_lines)@[original_tvs_id as int] as int,
                    unrolled_los::longest_line(visible, constants.max_los_as_points as int),
                    direction,
                ) as i64,
            ));
        }
    }
}

/// One more ring in the buffer, if there is room for it.
proof fn lemma_saved(before: Seq<u32>, start: int, found: Seq<u32>, reserved: u32, value: u32)
    requires
        0 <= start,
        start + reserved <= before.len(),
    ensures
        ({
            let kept = ring_data::kept(found, reserved);
            let next = ring_data::kept(found.push(value), reserved);
            &&& next == (if kept.len() + 1 < reserved {
                kept.push(value)
            } else {
                kept
            })
            &&& kept.len() + 1 < reserved ==> ring_data::with_section(before, start + 1, next)
                == ring_data::with_section(before, start + 1, kept).update(
                start + 1 + kept.len(),
                value,
            )
        }),
{
    let kept = ring_data::kept(found, reserved);
    let next = ring_data::kept(found.push(value), reserved);
    if kept.len() + 1 < reserved {
        assert(next =~= kept.push(value));
        assert(ring_data::with_section(before, start + 1, next) =~= ring_data::with_section(
            before,
            start + 1,
            kept,
        ).update(start + 1 + kept.len(), value));
    } else {
        assert(next =~= kept);
    }
}

/// The first half of the invocations look forward, and the other half backward, from the same points
/// in the same order.
pub proof fn law_bands_come_in_pairs(kernel_id: u32, total_bands: u32)
    requires
        kernel_id < total_bands / 2,
    ensures
        band_of(kernel_id, total_bands).direction == Direction::Forward,
        band_of(kernel_id, total_bands).rotated_tvs_id == kernel_id,
        band_of((kernel_id + total_bands / 2) as u32, total_bands).direction == Direction::Backward,
        band_of((kernel_id + total_bands / 2) as u32, total_bands).rotated_tvs_id == kernel_id,
{
}

/// The longest line is as long as the longer one of the two. It only turns to face the other way
/// where the other line is longer, or where it is as long and forward.
pub proof fn law_longest_line_is_kept(current: int, found: int, direction: Direction)
    requires
        0 <= found,
    ensures
        vstd::math::abs(longest_after(current, found, direction)) == vstd::math::max(
            vstd::math::abs(current) as int,
            found,
        ),
        found < vstd::math::abs(current) ==> longest_after(current, found, direction) == current,
        found > vstd::math::abs(current) ==> (longest_after(current, found, direction) > 0
            <==> direction == Direction::Forward),
        found == vstd::math::abs(current) ==> longest_after(current, found, direction) == (
        if direction == Direction::Forward {
            found
        } else {
            current
        }),
{
}

/// Looking along a band changes what is known of its own point of view only: the visible surface
/// grows by the sum of the distances to what is visible.
pub proof fn law_band_adds_to_its_point(
    before: Outputs,
    kernel_id: u32,
    original_tvs_id: usize,
    angles: Seq<i32>,
    constants: Constants,
    i: int,
)
    requires
        has_room(before, kernel_id, original_tvs_id, angles, constants),
    ensures
        ({
            let after = outputs_after(before, kernel_id, original_tvs_id, angles, constants);
            let works = original_tvs_id != NOOP_DEM_ID;
            &&& after.surfaces.len() == before.surfaces.len()
            &&& after.longest.len() == before.longest.len()
            &&& after.rings.len() == before.rings.len()
            &&& !works ==> after == before
            &&& !constants.has(Flag::TotalSurfaces) ==> after.surfaces == before.surfaces
            &&& !constants.has(Flag::LongestLines) ==> after.longest == before.longest
            &&& !constants.has(Flag::RingData) ==> after.rings == before.rings
            &&& 0 <= i < before.surfaces.len() && i != original_tvs_id ==> after.surfaces[i]
                == before.surfaces[i]
            &&& 0 <= i < before.longest.len() && i != original_tvs_id ==> after.longest[i]
                == before.longest[i]
            &&& works && constants.has(Flag::TotalSurfaces) ==> after.surfaces[original_tvs_id as int]
                - before.surfaces[original_tvs_id as int] == crate::integers::sum(
                |k: int|
                    if unrolled_los::is_visible(angles, k) {
                        k + 1
                    } else {
                        0
                    },
                angles.len() as int,
            )
        }),
{
    let visible = unrolled_los::visibility(angles);
    unrolled_los::law_surface_is_a_sum(visible, angles.len() as int);
    unrolled_los::lemma_visible_distance_bounds(visible, angles.len() as int);
    crate::integers::lemma_same_sum(
        |k: int|
            if visible[k] {
                k + 1
            } else {
                0
            },
        |k: int|
            if unrolled_los::is_visible(angles, k) {
                k + 1
            } else {
                0
            },
        angles.len() as int,
    );
}

/// The longest line of a point is as long as the longer one of what it was and of the line to the
/// last visible point.
pub proof fn law_band_keeps_longest_line(
    before: Outputs,
    kernel_id: u32,
    original_tvs_id: usize,
    angles: Seq<i32>,
    constants: Constants,
    last: int,
)
    requires
        has_room(before, kernel_id, original_tvs_id, angles, constants),
        original_tvs_id != NOOP_DEM_ID,
        constants.has(Flag::LongestLines),
        0 <= last < angles.len(),
        unrolled_los::is_visible(angles, last),
        forall|k: int| last < k < angles.len() ==> !#[trigger] unrolled_los::is_visible(angles, k),
    ensures
        vstd::math::abs(
            outputs_after(
                before,
                kernel_id,
                original_tvs_id,
                angles,
                constants,
            ).longest[original_tvs_id as int] as int,
        ) == vstd::math::max(
            vstd::math::abs(before.longest[original_tvs_id as int] as int) as int,
            last + 1,
        ),
{
    let visible = unrolled_los::visibility(angles);
    let longest = unrolled_los::longest_line(visible, angles.len() as int);
    unrolled_los::law_longest_line_ends_at_last_visible(visible, angles.len() as int);
    if longest > last + 1 {
        assert(visible[longest - 1]);
        assert(!unrolled_los::is_visible(angles, longest - 1));
    }
    assert(visible[last]);
    law_longest_line_is_kept(
        before.longest[original_tvs_id as int] as int,
        longest,
        band_of(kernel_id, constants.total_bands).direction,
    );
}

/// Every band with room for its rings has them in its own section, after their count: where
/// visibility changes along the band, in order, and where the end of the line of sight closes what
/// is still visible.
pub proof fn law_band_writes_its_rings(
    before: Outputs,
    kernel_id: u32,
    original_tvs_id: usize,
    angles: Seq<i32>,
    constants: Constants,
)
    requires
        has_room(before, kernel_id, original_tvs_id, angles, constants),
        original_tvs_id != NOOP_DEM_ID,
        constants.has(Flag::RingData),
        angles.len() + 1 < constants.reserved_rings_per_band,
    ensures
        ({
            let after = outputs_after(before, kernel_id, original_tvs_id, angles, constants).rings;
            let start = kernel_id * constants.reserved_rings_per_band;
            let count = after[start] as int;
            let rings = after.subrange(start + 1, start + count);
            &&& 2 <= count <= constants.reserved_rings_per_band
            &&& count % 2 == 0
            &&& forall|j: int, k: int|
                0 <= j < k < rings.len() ==> #[trigger] rings[j] < #[trigger] rings[k]
            &&& forall|ring: u32| #[trigger]
                rings.contains(ring) <==> {
                    let is_visible = ring < angles.len() && unrolled_los::is_visible(
                        angles,
                        ring as int,
                    );
                    let is_visible_before = ring == 0 || (ring <= angles.len()
                        && unrolled_los::is_visible(angles, ring - 1));
                    is_visible != is_visible_before
                }
            &&& after.take(start) == before.rings.take(start)
            &&& after.skip(start + count) == before.rings.skip(start + count)
        }),
{
    let visible = unrolled_los::visibility(angles);
    let max_los = constants.max_los_as_points;
    let reserved = constants.reserved_rings_per_band;
    let start = kernel_id * reserved;
    let found = ring_data::rings(visible, max_los);
    let section = ring_data::section(found, reserved);
    ring_data::law_rings_are_where_visibility_changes(visible, max_los);
    ring_data::law_every_region_is_closed(visible, max_los, max_los as int);
    lemma_few_rings(found, max_los);
    ring_data::law_section_holds_rings(found, reserved);
    ring_data::law_section_is_written(before.rings, start, section);
    let after = outputs_after(before, kernel_id, original_tvs_id, angles, constants).rings;
    let written = after.subrange(start, start + section.len());
    assert(written[0] == after[start]);
    let rings = after.subrange(start + 1, start + section.len());
    assert forall|k: int| 0 <= k < rings.len() implies rings[k] == found[k] by {
        assert(rings[k] == written[k + 1]);
        assert(section[k + 1] == found[k]);
    }
    assert(rings =~= found);
    assert forall|ring: u32| #[trigger] rings.contains(ring) <==> {
        let is_visible = ring < angles.len() && unrolled_los::is_visible(angles, ring as int);
        let is_visible_before = ring == 0 || (ring <= angles.len() && unrolled_los::is_visible(
            angles,
            ring - 1,
        ));
        is_visible != is_visible_before
    } by {
        assert(found.contains(ring) == rings.contains(ring));
    }
}

/// Rings that rise up to the end of a line of sight are no more than it has points, and one more.
proof fn lemma_few_rings(rings: Seq<u32>, max_los: u32)
    requires
        forall|j: int, k: int|
            0 <= j < k < rings.len() ==> #[trigger] rings[j] < #[trigger] rings[k],
        forall|ring: u32| #[trigger] rings.contains(ring) ==> ring <= max_los,
    ensures
        rings.len() <= max_los + 1,
{
    if rings.len() > 0 {
        lemma_rings_rise(rings, rings.len() - 1);
        assert(rings.contains(rings[rings.len() - 1]));
    }
}

/// Rings that rise are each at least as far as their place.
proof fn lemma_rings_rise(rings: Seq<u32>, place: int)
    requires
        0 <= place < rings.len(),
        forall|j: int, k: int|
            0 <= j < k < rings.len() ==> #[trigger] rings[j] < #[trigger] rings[k],
    ensures
        rings[place] >= place,
    decreases place,
{
    if place > 0 {
        lemma_rings_rise(rings, place - 1);
    }
}

/// Running bands one after the other is running the first ones and then the others.
pub proof fn law_bands_add_up(
    before: Outputs,
    first_kernel_id: u32,
    bands: Seq<BandAngles>,
    constants: Constants,
    few: int,
    many: int,
)
    requires
        0 <= few <= many <= bands.len(),
        first_kernel_id + bands.len() <= u32::MAX,
    ensures
        outputs_after_bands(before, first_kernel_id, bands, constants, many) == outputs_after_bands(
            outputs_after_bands(before, first_kernel_id, bands, constants, few),
            (first_kernel_id + few) as u32,
            bands.skip(few),
            constants,
            many - few,
        ),
        outputs_after_bands(before, first_kernel_id, bands, constants, 0) == before,
        bands.len() > 0 ==> outputs_after_bands(before, first_kernel_id, bands, constants, 1)
            == outputs_after(
            before,
            first_kernel_id,
            bands[0].original_tvs_id,
            bands[0].angles@,
            constants,
        ),
    decreases many - few,
{
    reveal_with_fuel(outputs_after_bands, 2);
    if few < many {
        law_bands_add_up(before, first_kernel_id, bands, constants, few, many - 1);
        assert(bands.skip(few)[many - few - 1] == bands[many - 1]);
    }
}

/// A band that is longer than what was longest is kept with its direction: those of the first half of
/// the invocations are positive. A band along which nothing is visible changes no longest line.
pub proof fn law_longest_line_has_direction(
    before: Outputs,
    kernel_id: u32,
    original_tvs_id: usize,
    angles: Seq<i32>,
    constants: Constants,
    last: int,
)
    requires
        has_room(before, kernel_id, original_tvs_id, angles, constants),
        original_tvs_id != NOOP_DEM_ID,
        constants.has(Flag::LongestLines),
        -1 <= last < angles.len(),
        last >= 0 ==> unrolled_los::is_visible(angles, last),
        forall|k: int| last < k < angles.len() ==> !#[trigger] unrolled_los::is_visible(angles, k),
    ensures
        ({
            let after = outputs_after(before, kernel_id, original_tvs_id, angles, constants).longest;
            let t = original_tvs_id as int;
            &&& last == -1 ==> after == before.longest
            &&& last + 1 > vstd::math::abs(before.longest[t] as int) ==> (after[t] > 0 <==> kernel_id
                < constants.total_bands / 2)
            &&& last + 1 < vstd::math::abs(before.longest[t] as int) ==> after == before.longest
        }),
{
    let visible = unrolled_los::visibility(angles);
    let longest = unrolled_los::longest_line(visible, angles.len() as int);
    unrolled_los::law_longest_line_ends_at_last_visible(visible, angles.len() as int);
    if longest > last + 1 {
        assert(visible[longest - 1]);
        assert(!unrolled_los::is_visible(angles, longest - 1));
    }
    if last >= 0 {
        assert(visible[last]);
    }
    let after = outputs_after(before, kernel_id, original_tvs_id, angles, constants).longest;
    if last == -1 || last + 1 < vstd::math::abs(before.longest[original_tvs_id as int] as int) {
        assert(after =~= before.longest);
    }
}

/// Where there is no room for all rings of a band, the first ones are written, after the count of
/// what is written.
pub proof fn law_band_writes_what_fits(
    before: Outputs,
    kernel_id: u32,
    original_tvs_id: usize,
    angles: Seq<i32>,
    constants: Constants,
)
    requires
        has_room(before, kernel_id, original_tvs_id, angles, constants),
        original_tvs_id != NOOP_DEM_ID,
        constants.has(Flag::RingData),
        constants.reserved_rings_per_band > 0,
    ensures
        ({
            let after = outputs_after(before, kernel_id, original_tvs_id, angles, constants).rings;
            let start = kernel_id * constants.reserved_rings_per_band;
            let rings = ring_data::rings(
                unrolled_los::visibility(angles),
                constants.max_los_as_points,
            );
            let count = after[start] as int;
            &&& count == vstd::math::min(
                rings.len() as int + 1,
                constants.reserved_rings_per_band as int,
            )
            &&& after.subrange(start + 1, start + count) == rings.take(count - 1)
            &&& after.take(start) == before.rings.take(start)
            &&& after.skip(start + count) == before.rings.skip(start + count)
        }),
{
    let visible = unrolled_los::visibility(angles);
    let reserved = constants.reserved_rings_per_band;
    let start = kernel_id * reserved;
    let found = ring_data::rings(visible, constants.max_los_as_points);
    let section = ring_data::section(found, reserved);
    ring_data::law_section_holds_rings(found, reserved);
    ring_data::law_section_is_written(before.rings, start, section);
    let after = outputs_after(before, kernel_id, original_tvs_id, angles, constants).rings;
    let written = after.subrange(start, start + section.len());
    assert(written[0] == after[start]);
    let count = section.len() as int;
    let rings = after.subrange(start + 1, start + count);
    assert forall|k: int| 0 <= k < count - 1 implies #[trigger] rings[k] == found[k] by {
        assert(written[k + 1] == after[start + 1 + k]);
        assert(section[k + 1] == found[k]);
    }
    assert(rings =~= found.take(count - 1));
}

} // verus!
