//! For kernels that run each angle in parallel.

use crate::compute;
use crate::compute::is_process_viewsheds;
use crate::config::Process;
use crate::cpu_kernel::OutputData;
use crate::los_pack::LineOfSightPacked;
use vstd::prelude::*;

verus! {

/// Which databases the workers write to.
#[derive(Clone, Copy, Debug, PartialEq, Eq, Structural)]
pub struct Databases {
    /// All workers share one.
    pub global: bool,
    /// Each worker has its own.
    pub local: bool,
}

/// Should a database aggregate per thread? Only viewsheds need one at all.
pub fn databases(process: &[Process], database_per_thread: bool) -> (databases: Databases)
    ensures
        databases.global == (compute::is_process(process@, Process::Viewsheds)
            && !database_per_thread),
        databases.local == (compute::is_process(process@, Process::Viewsheds)
            && database_per_thread),
{
    let is_viewsheds: bool = is_process_viewsheds(process);
    Databases {
        global: is_viewsheds && !database_per_thread,
        local: is_viewsheds && database_per_thread,
    }
}

/// All the angles of a full turn, in order.
pub open spec fn all_angles(angle_subdivisions: u8) -> Seq<u16> {
    Seq::new((360 * angle_subdivisions) as nat, |i: int| i as u16)
}

/// All the angles there are, with each degree divided into `angle_subdivisions` parts.
pub fn angles(angle_subdivisions: u8) -> (angles: Vec<u16>)
    requires
        360 * angle_subdivisions <= u16::MAX,
    ensures
        angles@ == all_angles(angle_subdivisions),
{
    let count: u16 = 360 * angle_subdivisions as u16;
    let mut angles: Vec<u16> = Vec::new();
    let mut angle: u16 = 0;
    while angle < count
        invariant
            angle <= count,
            angles@ == Seq::new(angle as nat, |i: int| i as u16),
        decreases count - angle,
    {
        angles.push(angle);
        angle += 1;
        assert(angles@ =~= Seq::new(angle as nat, |i: int| i as u16));
    }
    angles
}

/// The surface of a point, added up over the first `count` results.
pub open spec fn total_surface(work: Seq<OutputData>, index: int, count: int) -> int
    decreases count,
{
    if count <= 0 {
        0
    } else {
        total_surface(work, index, count - 1) + work[count - 1].surfaces@[index]
    }
}

/// The longest line of a point among the first `count` results.
pub open spec fn longest_of(work: Seq<OutputData>, index: int, count: int) -> LineOfSightPacked
    decreases count,
{
    if count <= 0 {
        LineOfSightPacked(0)
    } else {
        longest_of(work, index, count - 1).spec_max(work[count - 1].longest@[index])
    }
}

/// No result has a longer line.
pub proof fn law_longest_of_all(work: Seq<OutputData>, index: int, count: int, which: int)
    requires
        0 <= which < count <= work.len(),
    ensures
        work[which].longest@[index].spec_distance() <= longest_of(
            work,
            index,
            count,
        ).spec_distance(),
    decreases count,
{
    if which < count - 1 {
        law_longest_of_all(work, index, count - 1, which);
    }
}

/// Surfaces only grow.
proof fn lemma_total_grows(work: Seq<OutputData>, index: int, few: int, many: int)
    requires
        0 <= few <= many,
    ensures
        0 <= total_surface(work, index, few) <= total_surface(work, index, many),
    decreases many,
{
    if few < many {
        lemma_total_grows(work, index, few, many - 1);
    } else if few > 0 {
        lemma_total_grows(work, index, few - 1, many - 1);
    }
}

/// Nothing was seen yet from any of the points.
pub fn blank_output(max_los: usize) -> (output: OutputData)
    requires
        max_los * max_los <= usize::MAX,
    ensures
        output.surfaces@ == Seq::new((max_los * max_los) as nat, |i: int| 0u64),
        output.longest@ == Seq::new((max_los * max_los) as nat, |i: int| LineOfSightPacked(0)),
{
    let size: usize = max_los * max_los;
    let surfaces: Vec<u64> = vec![0u64; size];
    let mut longest: Vec<LineOfSightPacked> = Vec::with_capacity(size);
    while longest.len() < size
        invariant
            longest@.len() <= size,
            longest@ == Seq::new(longest@.len(), |i: int| LineOfSightPacked(0)),
        decreases size - longest@.len(),
    {
        longest.push(LineOfSightPacked::new_unchecked(0, 0));
    }
    assert(surfaces@ =~= Seq::new((max_los * max_los) as nat, |i: int| 0u64));
    OutputData { surfaces, longest }
}

/// Final aggregation step to aggregate the workers' results.
pub fn compilation_worker(work: &[OutputData], max_los: usize) -> (output: OutputData)
    requires
        max_los * max_los <= usize::MAX,
        forall|k: int|
            0 <= k < work@.len() ==> (#[trigger] work@[k]).surfaces@.len() == max_los * max_los
                && work@[k].longest@.len() == max_los * max_los,
        forall|i: int|
            0 <= i < max_los * max_los ==> #[trigger] total_surface(
                work@,
                i,
                work@.len() as int,
            ) <= u64::MAX,
    ensures
        output.surfaces@.len() == max_los * max_los,
        output.longest@.len() == max_los * max_los,
        forall|i: int|
            0 <= i < max_los * max_los ==> #[trigger] output.surfaces@[i] == total_surface(
                work@,
                i,
                work@.len() as int,
            ),
        forall|i: int|
            0 <= i < max_los * max_los ==> #[trigger] output.longest@[i] == longest_of(
                work@,
                i,
                work@.len() as int,
            ),
{
    let mut output = blank_output(max_los);
    let size: usize = max_los * max_los;
    let mut done: usize = 0;
    while done < work.len()
        invariant
            size == max_los * max_los,
            done <= work@.len(),
            forall|k: int|
                0 <= k < work@.len() ==> (#[trigger] work@[k]).surfaces@.len() == size
                    && work@[k].longest@.len() == size,
            forall|i: int|
                0 <= i < size ==> #[trigger] total_surface(work@, i, work@.len() as int)
                    <= u64::MAX,
            output.surfaces@.len() == size,
            output.longest@.len() == size,
            forall|i: int|
                0 <= i < size ==> #[trigger] output.surfaces@[i] == total_surface(
                    work@,
                    i,
                    done as int,
                ),
            forall|i: int|
                0 <= i < size ==> #[trigger] output.longest@[i] == longest_of(
                    work@,
                    i,
                    done as int,
                ),
        decreases work@.len() - done,
    {
        let data = &work[done];
        let mut index: usize = 0;
        while index < size
            invariant
                done < work@.len(),
                *data == work@[done as int],
                data.surfaces@.len() == size,
                data.longest@.len() == size,
                index <= size,
                forall|i: int|
                    0 <= i < size ==> #[trigger] total_surface(work@, i, work@.len() as int)
                        <= u64::MAX,
                output.surfaces@.len() == size,
                output.longest@.len() == size,
                forall|i: int|
                    0 <= i < size ==> #[trigger] output.surfaces@[i] == total_surface(
                        work@,
                        i,
                        if i < index {
                            done + 1
                        } else {
                            done as int
                        },
                    ),
                forall|i: int|
                    0 <= i < size ==> #[trigger] output.longest@[i] == longest_of(
                        work@,
                        i,
                        if i < index {
                            done + 1
                        } else {
                            done as int
                        },
                    ),
            decreases size - index,
        {
            proof {
                lemma_total_grows(work@, index as int, done + 1, work@.len() as int);
                assert(total_surface(work@, index as int, work@.len() as int) <= u64::MAX);
            }
            let surface: u64 = output.surfaces[index] + data.surfaces[index];
            output.surfaces[index] = surface;
            let longest = output.longest[index].max(data.longest[index]);
            output.longest[index] = longest;
            index += 1;
        }
        done += 1;
    }
    output
}

/// The surface of a point is the sum of its surfaces in all results.
pub proof fn law_surfaces_add_up(work: Seq<OutputData>, index: int, count: int)
    requires
        0 <= count <= work.len(),
    ensures
        total_surface(work, index, count) == crate::integers::sum(
            |k: int| work[k].surfaces@[index] as int,
            count,
        ),
    decreases count,
{
    if count > 0 {
        law_surfaces_add_up(work, index, count - 1);
    }
}

/// The longest line of a point is the first one among the results that is as long as any, and none
/// where all of them have no length.
pub proof fn law_longest_is_first_of_all(work: Seq<OutputData>, index: int, count: int)
    requires
        0 <= count <= work.len(),
    ensures
        longest_of(work, index, count).spec_distance() == 0 ==> longest_of(work, index, count)
            == LineOfSightPacked(0),
        longest_of(work, index, count).spec_distance() > 0 ==> exists|k: int|
            #![trigger work[k]]
            0 <= k < count && work[k].longest@[index] == longest_of(work, index, count) && forall|
                j: int,
            |
                0 <= j < k ==> (#[trigger] work[j]).longest@[index].spec_distance() < longest_of(
                    work,
                    index,
                    count,
                ).spec_distance(),
    decreases count,
{
    if count > 0 {
        law_longest_is_first_of_all(work, index, count - 1);
        let last = work[count - 1];
        assert(last == work[count - 1]);
        let before = longest_of(work, index, count - 1);
        if last.longest@[index].spec_distance() > before.spec_distance() {
            assert forall|j: int| 0 <= j < count - 1 implies (
            #[trigger] work[j]).longest@[index].spec_distance() < longest_of(
                work,
                index,
                count,
            ).spec_distance() by {
                law_longest_of_all(work, index, count - 1, j);
            }
        }
    }
}

/// Every part of every degree of a full turn is looked at once, in order, from 0 on.
pub proof fn law_angles_make_a_full_turn(angle_subdivisions: u8, i: int)
    requires
        360 * angle_subdivisions <= u16::MAX,
        0 <= i < 360 * angle_subdivisions,
    ensures
        all_angles(angle_subdivisions).len() == 360 * angle_subdivisions,
        all_angles(angle_subdivisions)[0] == 0,
        i > 0 ==> all_angles(angle_subdivisions)[i] == all_angles(angle_subdivisions)[i - 1] + 1,
        all_angles(angle_subdivisions).contains(i as u16),
{
    assert(all_angles(angle_subdivisions)[i] == i);
}

} // verus!
