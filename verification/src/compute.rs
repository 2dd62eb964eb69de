//! What to compute, and how much room it takes.

use crate::chocolate_box;
use crate::config::{ConfigError, Process};
use crate::constants;
use crate::constants::{Constants, Dimensions, Flag};
use crate::dem::DEM;
use crate::los_pack;
use crate::los_pack::{LineOfSightPacked, PackError};
use crate::ring_data;
use vstd::prelude::*;

verus! {

/// The number of angles we rotate through. The other half are done via "backwards" lines of sight.
pub const SECTOR_STEPS: u16 = 180;

/// Whether a process was asked for.
fn contains(process: &[Process], wanted: Process) -> (found: bool)
    ensures
        found == process@.contains(wanted),
{
    let mut index: usize = 0;
    while index < process.len()
        invariant
            index <= process@.len(),
            forall|i: int| 0 <= i < index ==> process@[i] != wanted,
        decreases process@.len() - index,
    {
        if process[index] == wanted {
            return true;
        }
        index += 1;
    }
    false
}

/// Whether a process was asked for, by itself or with everything.
pub open spec fn is_process(process: Seq<Process>, wanted: Process) -> bool {
    process.contains(Process::All) || process.contains(wanted)
}

/// Are we computing everything?
pub fn is_process_everything(process: &[Process]) -> (everything: bool)
    ensures
        everything == process@.contains(Process::All),
{
    contains(process, Process::All)
}

/// Are we computing total surface areas?
pub fn is_process_surfaces(process: &[Process]) -> (surfaces: bool)
    ensures
        surfaces == is_process(process@, Process::TotalSurfaces),
{
    is_process_everything(process) || contains(process, Process::TotalSurfaces)
}

/// Are we computing viewsheds?
pub fn is_process_viewsheds(process: &[Process]) -> (viewsheds: bool)
    ensures
        viewsheds == is_process(process@, Process::Viewsheds),
{
    is_process_everything(process) || contains(process, Process::Viewsheds)
}

/// Are we computing the longest lines of sight?
pub fn is_process_longest_lines(process: &[Process]) -> (longest_lines: bool)
    ensures
        longest_lines == is_process(process@, Process::LongestLines),
{
    is_process_everything(process) || contains(process, Process::LongestLines)
}

/// Check that viewsheds are only computed where they can be stored.
pub fn check_viewshed_storage(process: &[Process], ring_data: bool) -> (checked: Result<
    (),
    ConfigError,
>)
    ensures
        checked == (if is_process(process@, Process::Viewsheds) && !ring_data {
            Err(ConfigError::ViewshedStorage)
        } else {
            Ok(())
        }),
{
    if is_process_viewsheds(process) && !ring_data {
        return Err(ConfigError::ViewshedStorage);
    }
    Ok(())
}

/// Create a GPU-friendly bitmask of flags to use in the kernel.
pub fn bitmask_flags_for_kernel(processes: &[Process]) -> (flags: u32)
    ensures
        flags == constants::bitmask(
            is_process(processes@, Process::TotalSurfaces),
            is_process(processes@, Process::Viewsheds),
            is_process(processes@, Process::LongestLines),
        ),
{
    let mut flags: u32 = 0;
    if is_process_surfaces(processes) {
        flags = flags + Flag::TotalSurfaces.bit();
    }
    if is_process_viewsheds(processes) {
        flags = flags + Flag::RingData.bit();
    }
    if is_process_longest_lines(processes) {
        flags = flags + Flag::LongestLines.bit();
    }
    flags
}

/// What a computation needs.
#[derive(Clone, Copy, Debug)]
pub struct Plan {
    /// The constants for each kernel computation.
    pub constants: Constants,
    /// The amount of reserved memory for ring data.
    pub total_reserved_rings: usize,
    /// We only need the "chocolate box" section of rotations to do visibility calculations.
    pub rotations_size: u32,
    /// Whether there is a place for ring data.
    pub has_storage: bool,
}

/// Why there cannot be such a computation.
#[derive(Clone, Copy, Debug, PartialEq, Eq, Structural)]
pub enum PlanError {
    /// More rings are expected per band of sight than can be counted.
    TooManyRings(usize),
}

/// The number of rings to reserve for each band.
pub open spec fn reserved_rings(process: Seq<Process>, ring_count_per_band: usize) -> usize {
    if is_process(process, Process::Viewsheds) {
        ring_count_per_band
    } else {
        1
    }
}

impl Plan {
    /// Whether this is the plan for a computation.
    pub open spec fn is_for(
        self,
        dem: DEM,
        process: Seq<Process>,
        ring_count_per_band: usize,
        has_output_directory: bool,
    ) -> bool {
        let rings = reserved_rings(process, ring_count_per_band);
        &&& rings <= u32::MAX
        &&& self.constants == (Constants {
            total_bands: (2 * dem.computable_points_count) as u32,
            max_los_as_points: dem.max_los_as_points,
            dem_width: dem.width,
            tvs_width: dem.tvs_width,
            reserved_rings_per_band: rings as u32,
            process: constants::bitmask(
                is_process(process, Process::TotalSurfaces),
                is_process(process, Process::Viewsheds),
                is_process(process, Process::LongestLines),
            ),
            dimensions: (Dimensions { x: 0, y: 0, z: 0, w: 0 }),
        })
        &&& self.total_reserved_rings == (if is_process(process, Process::Viewsheds) {
            2 * dem.computable_points_count * rings
        } else {
            1
        })
        &&& self.rotations_size == dem.width * dem.tvs_width
        &&& self.has_storage == (is_process(process, Process::Viewsheds) && has_output_directory)
    }

    /// Instantiate.
    pub fn new(
        dem: &DEM,
        process: &[Process],
        ring_count_per_band: usize,
        has_output_directory: bool,
    ) -> (plan: Result<Self, PlanError>)
        requires
            dem.wf(),
            2 * dem.computable_points_count <= u32::MAX,
            dem.width * dem.tvs_width <= u32::MAX,
            is_process(process@, Process::Viewsheds) ==> 2 * dem.computable_points_count
                * ring_count_per_band <= usize::MAX,
        ensures
            match plan {
                Ok(plan) => plan.is_for(*dem, process@, ring_count_per_band, has_output_directory),
                Err(PlanError::TooManyRings(rings)) => {
                    &&& rings == reserved_rings(process@, ring_count_per_band)
                    &&& rings > u32::MAX
                },
            },
    {
        let total_bands: u32 = dem.computable_points_count * 2;
        let is_viewsheds: bool = is_process_viewsheds(process);
        let rings_per_band: usize = if is_viewsheds {
            ring_count_per_band
        } else {
            1
        };
        let total_reserved_rings: usize = if is_viewsheds {
            total_bands as usize * rings_per_band
        } else {
            1
        };
        if rings_per_band as u64 > u32::MAX as u64 {
            return Err(PlanError::TooManyRings(rings_per_band));
        }
        let constants = Constants {
            total_bands,
            max_los_as_points: dem.max_los_as_points,
            dem_width: dem.width,
            tvs_width: dem.tvs_width,
            reserved_rings_per_band: rings_per_band as u32,
            process: bitmask_flags_for_kernel(process),
            dimensions: Dimensions { x: 0, y: 0, z: 0, w: 0 },
        };
        let rotations_size: u32 = chocolate_box::size(dem.width, dem.tvs_width);
        Ok(
            Plan {
                constants,
                total_reserved_rings,
                rotations_size,
                has_storage: is_viewsheds && has_output_directory,
            },
        )
    }
}

/// Each band has a section of its own in the ring data buffer.
pub proof fn law_ring_sections_fit(plan: Plan, process: Seq<Process>, kernel_id: int)
    requires
        is_process(process, Process::Viewsheds),
        plan.total_reserved_rings == plan.constants.total_bands
            * plan.constants.reserved_rings_per_band,
        0 <= kernel_id < plan.constants.total_bands,
    ensures
        kernel_id * plan.constants.reserved_rings_per_band
            + plan.constants.reserved_rings_per_band <= plan.total_reserved_rings,
{
    let reserved = plan.constants.reserved_rings_per_band as int;
    let bands = plan.constants.total_bands as int;
    assert(kernel_id * reserved + reserved <= bands * reserved) by (nonlinear_arith)
        requires
            0 <= kernel_id < bands,
            0 <= reserved,
    ;
}

/// No two bands write to the same place in the ring data buffer: what is in the section of one band
/// stays as it is when the rings of another band are written.
pub proof fn law_ring_sections_do_not_overlap(
    plan: Plan,
    first: int,
    second: int,
    rings: Seq<u32>,
    buffer: Seq<u32>,
    index: int,
)
    requires
        plan.constants.reserved_rings_per_band > 0,
        0 <= first < plan.constants.total_bands,
        0 <= second < plan.constants.total_bands,
        first != second,
        first * plan.constants.reserved_rings_per_band <= index < first
            * plan.constants.reserved_rings_per_band + plan.constants.reserved_rings_per_band,
        index < buffer.len(),
    ensures
        !(second * plan.constants.reserved_rings_per_band <= index < second
            * plan.constants.reserved_rings_per_band + plan.constants.reserved_rings_per_band),
        ring_data::with_section(
            buffer,
            second * plan.constants.reserved_rings_per_band,
            ring_data::section(rings, plan.constants.reserved_rings_per_band),
        )[index] == buffer[index],
{
    let reserved = plan.constants.reserved_rings_per_band as int;
    assert(first * reserved + reserved <= second * reserved || second * reserved + reserved <= first
        * reserved) by (nonlinear_arith)
        requires
            first != second,
            0 < reserved,
    ;
}

/// What is left to do once a sector was computed.
#[derive(Clone, Copy, Debug, PartialEq, Eq, Structural)]
pub struct SectorSteps {
    /// Write the ring data to disk.
    pub save_ring_data: bool,
    /// Hold the ring data in memory.
    pub keep_ring_data: bool,
    /// Check the longest lines of sight against those of the other sectors.
    pub increment_longest_lines: bool,
    /// Render the longest lines of sight.
    pub render_longest_lines: bool,
}

/// What is left to do once the sector at an angle was computed.
pub fn sector_steps(process: &[Process], has_output_directory: bool, angle: u16) -> (steps:
    SectorSteps)
    ensures
        steps.save_ring_data == (is_process(process@, Process::Viewsheds) && has_output_directory),
        steps.keep_ring_data == (is_process(process@, Process::Viewsheds) && !has_output_directory),
        steps.increment_longest_lines == is_process(process@, Process::LongestLines),
        steps.render_longest_lines == (is_process(process@, Process::LongestLines) && angle
            == SECTOR_STEPS - 1),
{
    let is_viewsheds: bool = is_process_viewsheds(process);
    let is_longest_lines: bool = is_process_longest_lines(process);
    SectorSteps {
        save_ring_data: is_viewsheds && has_output_directory,
        keep_ring_data: is_viewsheds && !has_output_directory,
        increment_longest_lines: is_longest_lines,
        render_longest_lines: is_longest_lines && angle == SECTOR_STEPS - 1,
    }
}

/// A longest line of a sector, as it is measured.
#[derive(Clone, Copy, Debug, PartialEq, Eq, Structural)]
pub struct SectorLine {
    /// How long it is, in whole meters.
    pub distance: u32,
    /// Whether it goes backwards from the observer.
    pub is_backward: bool,
}

/// The angle of a line of a sector: backward lines face the other way.
pub open spec fn line_angle(line: SectorLine, sector: u16) -> int {
    if line.is_backward {
        sector + 180
    } else {
        sector as int
    }
}

/// Whether a line is longer than what was longest before.
pub open spec fn is_longer(longest: LineOfSightPacked, line: SectorLine) -> bool {
    line.distance > longest.spec_distance()
}

/// Why a line cannot be packed, if it is longer than what was longest before and cannot.
pub open spec fn line_error(longest: LineOfSightPacked, line: SectorLine, sector: u16) -> Option<
    PackError,
> {
    if !is_longer(longest, line) {
        None
    } else if line.distance > los_pack::U22_MAX {
        Some(PackError::Distance(line.distance))
    } else if line_angle(line, sector) > los_pack::U10_MAX {
        Some(PackError::Angle(line_angle(line, sector) as u16))
    } else {
        None
    }
}

/// Whether `after` is what is longest once a line was found.
pub open spec fn is_longest_of(
    after: LineOfSightPacked,
    before: LineOfSightPacked,
    line: SectorLine,
    sector: u16,
) -> bool {
    if is_longer(before, line) {
        after.spec_distance() == line.distance && after.spec_angle() == line_angle(line, sector)
    } else {
        after == before
    }
}

/// How many pairs two lists make.
pub open spec fn pairs(left: nat, right: nat) -> nat {
    if left <= right {
        left
    } else {
        right
    }
}

/// Whether the longest lines of the first `count` points were checked against those of a sector,
/// and the others were not.
pub open spec fn are_longest_until(
    after: Seq<LineOfSightPacked>,
    before: Seq<LineOfSightPacked>,
    lines: Seq<SectorLine>,
    sector: u16,
    count: int,
) -> bool {
    &&& after.len() == before.len()
    &&& forall|i: int|
        0 <= i < count ==> line_error(before[i], #[trigger] lines[i], sector) is None
            && is_longest_of(after[i], before[i], lines[i], sector)
    &&& forall|i: int| count <= i < before.len() ==> #[trigger] after[i] == before[i]
}

/// Check to see if this angle increases the current longest line of sight for each point. It stops
/// at the first line that cannot be packed.
pub fn increment_longest_lines(
    longest: &mut [LineOfSightPacked],
    lines: &[SectorLine],
    sector: u16,
) -> (checked: Result<(), PackError>)
    requires
        sector + 180 <= u16::MAX,
    ensures
        match checked {
            Ok(_) => are_longest_until(
                final(longest)@,
                old(longest)@,
                lines@,
                sector,
                pairs(old(longest)@.len(), lines@.len()) as int,
            ),
            Err(error) => exists|at: int|
                0 <= at < pairs(old(longest)@.len(), lines@.len()) && line_error(
                    old(longest)@[at],
                    #[trigger] lines@[at],
                    sector,
                ) == Some(error) && are_longest_until(
                    final(longest)@,
                    old(longest)@,
                    lines@,
                    sector,
                    at,
                ),
        },
{
    let mut index: usize = 0;
    while index < longest.len() && index < lines.len()
        invariant
            sector + 180 <= u16::MAX,
            index <= pairs(old(longest)@.len(), lines@.len()),
            are_longest_until(longest@, old(longest)@, lines@, sector, index as int),
        decreases lines@.len() - index,
    {
        let line = lines[index];
        let current: u32 = line.distance;
        if current > longest[index].distance() {
            let angle: u16 = if line.is_backward {
                sector + 180
            } else {
                sector
            };
            match LineOfSightPacked::new(current, angle) {
                Ok(packed) => {
                    longest[index] = packed;
                },
                Err(error) => {
                    assert(line_error(
                        old(longest)@[index as int],
                        lines@[index as int],
                        sector,
                    ) == Some(error));
                    return Err(error);
                },
            }
        }
        index += 1;
    }
    Ok(())
}

/// The running total once the surface areas of a sector were added. Points without any stay as they
/// are.
pub open spec fn running_total(total_surfaces: Seq<u64>, cumulative_surfaces: Seq<u64>) -> Seq<u64> {
    Seq::new(
        total_surfaces.len(),
        |i: int|
            if i < cumulative_surfaces.len() {
                (total_surfaces[i] + cumulative_surfaces[i]) as u64
            } else {
                total_surfaces[i]
            },
    )
}

/// Add the accumulated total surface areas for the current sector to the running total.
pub fn add_sector_surfaces_to_running_total(
    total_surfaces: &mut [u64],
    cumulative_surfaces: &[u64],
)
    requires
        forall|i: int|
            0 <= i < pairs(old(total_surfaces)@.len(), cumulative_surfaces@.len())
                ==> #[trigger] old(total_surfaces)@[i] + cumulative_surfaces@[i] <= u64::MAX,
    ensures
        final(total_surfaces)@ == running_total(old(total_surfaces)@, cumulative_surfaces@),
{
    let ghost count = pairs(old(total_surfaces)@.len(), cumulative_surfaces@.len());
    let mut index: usize = 0;
    while index < total_surfaces.len() && index < cumulative_surfaces.len()
        invariant
            total_surfaces@.len() == old(total_surfaces)@.len(),
            count == pairs(old(total_surfaces)@.len(), cumulative_surfaces@.len()),
            index <= count,
            forall|i: int|
                0 <= i < count ==> #[trigger] old(total_surfaces)@[i] + cumulative_surfaces@[i]
                    <= u64::MAX,
            forall|i: int|
                0 <= i < index ==> #[trigger] total_surfaces@[i] == old(total_surfaces)@[i]
                    + cumulative_surfaces@[i],
            forall|i: int|
                index <= i < total_surfaces@.len() ==> #[trigger] total_surfaces@[i] == old(
                    total_surfaces,
                )@[i],
        decreases count - index,
    {
        assert(old(total_surfaces)@[index as int] + cumulative_surfaces@[index as int]
            <= u64::MAX);
        let sum: u64 = total_surfaces[index] + cumulative_surfaces[index];
        total_surfaces[index] = sum;
        index += 1;
    }
    assert(total_surfaces@ =~= running_total(old(total_surfaces)@, cumulative_surfaces@));
}

/// Everything was asked for exactly when all processes are on, and otherwise a process is on exactly
/// when it was asked for.
pub proof fn law_processes_that_are_on(process: Seq<Process>, wanted: Process)
    ensures
        process.contains(wanted) ==> is_process(process, wanted),
        process.contains(Process::All) ==> is_process(process, wanted),
        !process.contains(Process::All) && !process.contains(wanted) ==> !is_process(
            process,
            wanted,
        ),
        is_process(process, Process::All) ==> is_process(process, wanted),
{
}

/// A line of a sector faces the angle of the sector, or the other way.
pub proof fn law_backward_lines_face_the_other_way(distance: u32, sector: u16)
    ensures
        line_angle(SectorLine { distance, is_backward: false }, sector) == sector,
        line_angle(SectorLine { distance, is_backward: true }, sector) - line_angle(
            SectorLine { distance, is_backward: false },
            sector,
        ) == 180,
{
}

/// Once lines were checked, the longest line of each of their points is as long as the longer one of
/// what it was and of the new line, and it only changes where the new line is longer. Then it is at
/// the angle that the new line faces.
pub proof fn law_checked_lines_are_longest(
    after: Seq<LineOfSightPacked>,
    before: Seq<LineOfSightPacked>,
    lines: Seq<SectorLine>,
    sector: u16,
    count: int,
    i: int,
)
    requires
        are_longest_until(after, before, lines, sector, count),
        0 <= count <= before.len(),
        count <= lines.len(),
        0 <= i < before.len(),
    ensures
        i >= count ==> after[i] == before[i],
        i < count ==> after[i].spec_distance() == vstd::math::max(
            before[i].spec_distance(),
            lines[i].distance as int,
        ),
        i < count && lines[i].distance <= before[i].spec_distance() ==> after[i] == before[i],
        i < count && lines[i].distance > before[i].spec_distance() ==> after[i].spec_angle()
            == sector + (if lines[i].is_backward {
            180int
        } else {
            0
        }),
{
    if i < count {
        assert(is_longest_of(after[i], before[i], lines[i], sector));
    }
}

/// A line cannot be packed exactly when it is longer than what was longest, and its length or its
/// angle takes too many bits. The length goes first.
pub proof fn law_lines_that_cannot_be_packed(
    longest: LineOfSightPacked,
    line: SectorLine,
    sector: u16,
)
    requires
        sector + 180 <= u16::MAX,
    ensures
        ({
            let angle = sector + (if line.is_backward {
                180int
            } else {
                0
            });
            match line_error(longest, line, sector) {
                None => line.distance <= longest.spec_distance() || (line.distance < 0x40_0000
                    && angle < 0x400),
                Some(PackError::Distance(distance)) => distance == line.distance && distance
                    >= 0x40_0000 && distance > longest.spec_distance(),
                Some(PackError::Angle(found)) => found == angle && angle >= 0x400 && line.distance
                    < 0x40_0000 && line.distance > longest.spec_distance(),
            }
        }),
{
}

/// There are as many pairs as the shorter list has items.
pub proof fn law_pairs_of_shorter_list(left: nat, right: nat)
    ensures
        pairs(left, right) <= left,
        pairs(left, right) <= right,
        pairs(left, right) == left || pairs(left, right) == right,
{
}

/// Without viewsheds one ring is reserved for each band, and with them as many as are expected.
pub proof fn law_rings_are_reserved_for_viewsheds(process: Seq<Process>, ring_count_per_band: usize)
    ensures
        is_process(process, Process::Viewsheds) ==> reserved_rings(process, ring_count_per_band)
            == ring_count_per_band,
        !is_process(process, Process::Viewsheds) ==> reserved_rings(process, ring_count_per_band)
            == 1,
{
}

/// A plan has room for everything: a forward and a backward band for each computable point, a section
/// of rings for each band where viewsheds are computed, and a rotated elevation for each point of the
/// middle third of the rows. What is on is what was asked for.
pub proof fn law_plan_has_room_for_everything(
    plan: Plan,
    dem: DEM,
    process: Seq<Process>,
    ring_count_per_band: usize,
    has_output_directory: bool,
    kernel_id: int,
)
    requires
        dem.wf(),
        2 * dem.computable_points_count <= u32::MAX,
        plan.is_for(dem, process, ring_count_per_band, has_output_directory),
        0 <= kernel_id < 2 * (dem.tvs_width * dem.tvs_width),
    ensures
        plan.constants.total_bands == 2 * (dem.tvs_width * dem.tvs_width),
        plan.constants.dem_width == 3 * plan.constants.tvs_width,
        plan.constants.tvs_width == dem.tvs_width,
        plan.constants.max_los_as_points == dem.max_los_as_points,
        plan.rotations_size == 3 * plan.constants.tvs_width * plan.constants.tvs_width,
        plan.constants.has(Flag::TotalSurfaces) == is_process(process, Process::TotalSurfaces),
        plan.constants.has(Flag::RingData) == is_process(process, Process::Viewsheds),
        plan.constants.has(Flag::LongestLines) == is_process(process, Process::LongestLines),
        is_process(process, Process::Viewsheds) ==> plan.constants.reserved_rings_per_band
            == ring_count_per_band && kernel_id * ring_count_per_band + ring_count_per_band
            <= plan.total_reserved_rings && plan.total_reserved_rings == 2 * (dem.tvs_width
            * dem.tvs_width) * ring_count_per_band,
        plan.has_storage ==> has_output_directory && is_process(process, Process::Viewsheds),
        has_output_directory && is_process(process, Process::Viewsheds) ==> plan.has_storage,
{
    constants::law_bitmask_has_flags(
        plan.constants,
        is_process(process, Process::TotalSurfaces),
        is_process(process, Process::Viewsheds),
        is_process(process, Process::LongestLines),
    );
    let bands = 2 * (dem.tvs_width * dem.tvs_width);
    let rings = ring_count_per_band as int;
    assert(kernel_id * rings + rings <= bands * rings) by (nonlinear_arith)
        requires
            0 <= kernel_id < bands,
            0 <= rings,
    ;
}

/// Each point's total grows by its own surface in the sector, and it does not matter in which order
/// sectors are added.
pub proof fn law_totals_grow_by_sectors(
    total_surfaces: Seq<u64>,
    first: Seq<u64>,
    second: Seq<u64>,
    i: int,
)
    requires
        first.len() == total_surfaces.len(),
        second.len() == total_surfaces.len(),
        forall|k: int|
            0 <= k < total_surfaces.len() ==> #[trigger] total_surfaces[k] + first[k] + second[k]
                <= u64::MAX,
        0 <= i < total_surfaces.len(),
    ensures
        running_total(total_surfaces, first).len() == total_surfaces.len(),
        running_total(total_surfaces, first)[i] - total_surfaces[i] == first[i],
        running_total(total_surfaces, Seq::empty()) == total_surfaces,
        running_total(running_total(total_surfaces, first), second) == running_total(
            running_total(total_surfaces, second),
            first,
        ),
{
    assert(total_surfaces[i] + first[i] + second[i] <= u64::MAX);
    assert(running_total(total_surfaces, Seq::empty()) =~= total_surfaces);
    let left = running_total(running_total(total_surfaces, first), second);
    let right = running_total(running_total(total_surfaces, second), first);
    assert forall|k: int| 0 <= k < total_surfaces.len() implies left[k] == right[k] by {
        assert(total_surfaces[k] + first[k] + second[k] <= u64::MAX);
    }
    assert(left =~= right);
}

} // verus!
