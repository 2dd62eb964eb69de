//! What the GPU pipeline needs: how many invocations of the kernels, and how big buffers.

use crate::constants::{Constants, Dimensions};
use vstd::prelude::*;

verus! {

/// Size of each kernel workgroup, in each dimension.
pub const KERNEL_WORKGROUPS: (u32, u32, u32) = (8, 8, 4);

/// How many times all three dimensions are increased before giving up.
pub const MAX_TRIES: u32 = 1_000_000;

/// The size of a number in a buffer, in bytes.
pub const NUMBER_SIZE: u64 = 4;

/// The biggest buffer that there can be, in bytes.
pub const MAX_BUFFER_SIZE: u32 = 0x7FFF_FFFF;

/// Why there cannot be such a pipeline.
#[derive(Clone, Copy, Debug, PartialEq, Eq, Structural)]
pub enum VulkanError {
    /// There are more points than invocations can be counted.
    TooManyPoints(usize),
    /// No dimensions were found that make enough invocations.
    NoDispatchDimensions,
}

impl VulkanError {
    /// What to tell the user.
    pub fn message(&self) -> (text: &'static str)
        ensures
            text@ == (match *self {
                VulkanError::TooManyPoints(_) => "Too many points for GPU dispatch dimensions"@,
                VulkanError::NoDispatchDimensions => "Couldn't find GPU dispatch dimensions"@,
            }),
    {
        match self {
            VulkanError::TooManyPoints(_) => "Too many points for GPU dispatch dimensions",
            VulkanError::NoDispatchDimensions => "Couldn't find GPU dispatch dimensions",
        }
    }
}

/// The dispatches once one dimension after the other was increased, `steps` times in all.
pub open spec fn dispatches_after(steps: int) -> (int, int, int) {
    ((steps + 2) / 3, (steps + 1) / 3, steps / 3)
}

/// The invocations in each dimension after so many steps.
pub open spec fn invocations_after(steps: int, workgroups: (u32, u32, u32)) -> (int, int, int) {
    let dispatches = dispatches_after(steps);
    (dispatches.0 * workgroups.0, dispatches.1 * workgroups.1, dispatches.2 * workgroups.2)
}

/// The invocations in all after so many steps.
pub open spec fn total_after(steps: int, workgroups: (u32, u32, u32)) -> int {
    let invocations = invocations_after(steps, workgroups);
    invocations.0 * invocations.1 * invocations.2
}

/// Whether no number of steps before this one makes enough invocations.
pub open spec fn none_before(
    steps: int,
    total_invocations: int,
    workgroups: (u32, u32, u32),
) -> bool {
    forall|j: int|
        1 <= j < steps ==> #[trigger] total_after(j, workgroups) < total_invocations
}

/// Whether the numbers of invocations after so many steps can be counted.
pub open spec fn can_count(steps: int, workgroups: (u32, u32, u32)) -> bool {
    let invocations = invocations_after(steps, workgroups);
    &&& invocations.0 <= u32::MAX
    &&& invocations.1 <= u32::MAX
    &&& invocations.2 <= u32::MAX
    &&& invocations.0 * invocations.1 <= u32::MAX
    &&& total_after(steps, workgroups) <= u32::MAX
}

/// Find a 3D kernel dispatch that balances all dimensions.
pub fn find_dispatch_dimensions(
    total_invocations: u32,
    workgroups: (u32, u32, u32),
) -> (found: Result<((u32, u32, u32), (u32, u32, u32)), VulkanError>)
    requires
        forall|steps: int|
            1 <= steps <= 3 * MAX_TRIES && none_before(
                steps,
                total_invocations as int,
                workgroups,
            ) ==> #[trigger] can_count(steps, workgroups),
    ensures
        match found {
            Ok((dispatches, invocations)) => exists|steps: int|
                1 <= steps <= 3 * MAX_TRIES && #[trigger] none_before(
                    steps,
                    total_invocations as int,
                    workgroups,
                ) && total_after(steps, workgroups) >= total_invocations && (
                    dispatches.0 as int,
                    dispatches.1 as int,
                    dispatches.2 as int,
                ) == dispatches_after(steps) && (
                    invocations.0 as int,
                    invocations.1 as int,
                    invocations.2 as int,
                ) == invocations_after(steps, workgroups),
            Err(error) => {
                &&& error == VulkanError::NoDispatchDimensions
                &&& none_before(3 * MAX_TRIES + 1, total_invocations as int, workgroups)
            },
        },
{
    let mut dispatches: (u32, u32, u32) = (0, 0, 0);
    let mut steps: u32 = 0;
    while steps < 3 * MAX_TRIES
        invariant
            steps <= 3 * MAX_TRIES,
            (dispatches.0 as int, dispatches.1 as int, dispatches.2 as int) == dispatches_after(
                steps as int,
            ),
            none_before(steps + 1, total_invocations as int, workgroups),
            forall|s: int|
                1 <= s <= 3 * MAX_TRIES && none_before(s, total_invocations as int, workgroups)
                    ==> #[trigger] can_count(s, workgroups),
        decreases 3 * MAX_TRIES - steps,
    {
        let dimension: u32 = steps % 3;
        if dimension == 0 {
            dispatches.0 = dispatches.0 + 1;
        } else if dimension == 1 {
            dispatches.1 = dispatches.1 + 1;
        } else {
            dispatches.2 = dispatches.2 + 1;
        }
        steps += 1;
        assert(can_count(steps as int, workgroups));
        proof {
            let counted = invocations_after(steps as int, workgroups);
            assert(0 <= counted.0 && 0 <= counted.1 && 0 <= counted.2) by (nonlinear_arith)
                requires
                    counted.0 == dispatches.0 * workgroups.0,
                    counted.1 == dispatches.1 * workgroups.1,
                    counted.2 == dispatches.2 * workgroups.2,
                    0 <= dispatches.0,
                    0 <= dispatches.1,
                    0 <= dispatches.2,
                    0 <= workgroups.0,
                    0 <= workgroups.1,
                    0 <= workgroups.2,
            ;
            assert(0 <= counted.0 * counted.1 && 0 <= counted.0 * counted.1 * counted.2)
                by (nonlinear_arith)
                requires
                    0 <= counted.0,
                    0 <= counted.1,
                    0 <= counted.2,
            ;
        }
        let invocations: (u32, u32, u32) = (
            dispatches.0 * workgroups.0,
            dispatches.1 * workgroups.1,
            dispatches.2 * workgroups.2,
        );
        let total_invocations_generated: u32 = invocations.0 * invocations.1 * invocations.2;
        if total_invocations_generated >= total_invocations {
            return Ok((dispatches, invocations));
        }
        assert(none_before(steps + 1, total_invocations as int, workgroups)) by {
            assert forall|j: int| 1 <= j < steps + 1 implies #[trigger] total_after(j, workgroups)
                < total_invocations by {
                if j == steps {
                    assert(total_after(j, workgroups) == total_invocations_generated);
                }
            }
        }
    }
    Err(VulkanError::NoDispatchDimensions)
}

/// What a kernel needs of the GPU.
#[derive(Clone, Copy, Debug, PartialEq, Eq)]
pub struct ComputePass {
    /// The dimensions of kernel invocations.
    pub dispatches: (u32, u32, u32),
    /// The constants for sending to the uniforms.
    pub constants: Constants,
}

/// Whether a pass makes enough invocations of a kernel, and no more than it takes.
pub open spec fn is_pass(pass: ComputePass, constants: Constants, required: u32) -> bool {
    exists|steps: int|
        1 <= steps <= 3 * MAX_TRIES && #[trigger] none_before(
            steps,
            required as int,
            KERNEL_WORKGROUPS,
        ) && total_after(steps, KERNEL_WORKGROUPS) >= required && (
            pass.dispatches.0 as int,
            pass.dispatches.1 as int,
            pass.dispatches.2 as int,
        ) == dispatches_after(steps) && pass.constants == (Constants {
            dimensions: (Dimensions {
                x: invocations_after(steps, KERNEL_WORKGROUPS).0 as u32,
                y: invocations_after(steps, KERNEL_WORKGROUPS).1 as u32,
                z: invocations_after(steps, KERNEL_WORKGROUPS).2 as u32,
                w: required,
            }),
            ..constants
        })
}

/// The kernels of a pipeline, and the sizes of its buffers in bytes.
#[derive(Clone, Copy, Debug, PartialEq, Eq)]
pub struct Pipeline {
    /// The kernel that rotates elevations.
    pub rotation: ComputePass,
    /// The kernel that calculates visibility.
    pub visibility: ComputePass,
    /// Memory size of the rotated elevations.
    pub rotations_size: u64,
    /// Memory size of all the accumulated surface data.
    pub output_surfaces_size: u64,
    /// Memory size of the ring data (raw viewshed data).
    pub output_rings_size: u64,
    /// Memory size of the longest lines of sight data.
    pub output_longest_lines_size: u64,
}

/// The dimensions for so many invocations can be counted.
pub open spec fn can_dispatch(required: u32) -> bool {
    forall|steps: int|
        1 <= steps <= 3 * MAX_TRIES && none_before(steps, required as int, KERNEL_WORKGROUPS)
            ==> #[trigger] can_count(steps, KERNEL_WORKGROUPS)
}

impl Pipeline {
    /// A pass of a kernel that makes so many invocations of it.
    fn pass(constants: Constants, required: u32) -> (pass: Result<ComputePass, VulkanError>)
        requires
            can_dispatch(required),
        ensures
            match pass {
                Ok(pass) => is_pass(pass, constants, required),
                Err(error) => error == VulkanError::NoDispatchDimensions && none_before(
                    3 * MAX_TRIES + 1,
                    required as int,
                    KERNEL_WORKGROUPS,
                ),
            },
    {
        match find_dispatch_dimensions(required, KERNEL_WORKGROUPS) {
            Ok((dispatches, invocations)) => {
                let mut pass_constants = constants;
                pass_constants.dimensions = Dimensions {
                    x: invocations.0,
                    y: invocations.1,
                    z: invocations.2,
                    w: required,
                };
                Ok(ComputePass { dispatches, constants: pass_constants })
            },
            Err(error) => Err(error),
        }
    }

    /// Instantiate.
    pub fn new(
        constants: Constants,
        chocolate_box_size: usize,
        total_reserved_rings: usize,
    ) -> (pipeline: Result<Self, VulkanError>)
        requires
            chocolate_box_size * NUMBER_SIZE <= u64::MAX,
            total_reserved_rings * NUMBER_SIZE <= u64::MAX,
            2 * constants.total_bands <= u32::MAX,
            chocolate_box_size <= u32::MAX ==> can_dispatch(chocolate_box_size as u32),
            can_dispatch((2 * constants.total_bands) as u32),
        ensures
            match pipeline {
                Ok(pipeline) => {
                    &&& chocolate_box_size <= u32::MAX
                    &&& is_pass(pipeline.rotation, constants, chocolate_box_size as u32)
                    &&& is_pass(
                        pipeline.visibility,
                        constants,
                        (2 * constants.total_bands) as u32,
                    )
                    &&& pipeline.rotations_size == chocolate_box_size * NUMBER_SIZE
                    &&& pipeline.output_surfaces_size == constants.total_bands / 2 * NUMBER_SIZE
                    &&& pipeline.output_rings_size == total_reserved_rings * NUMBER_SIZE
                    &&& pipeline.output_longest_lines_size == constants.total_bands / 2
                        * NUMBER_SIZE
                },
                Err(VulkanError::TooManyPoints(size)) => size == chocolate_box_size && size
                    > u32::MAX,
                Err(VulkanError::NoDispatchDimensions) => {
                    &&& chocolate_box_size <= u32::MAX
                    &&& none_before(
                        3 * MAX_TRIES + 1,
                        chocolate_box_size as int,
                        KERNEL_WORKGROUPS,
                    ) || none_before(
                        3 * MAX_TRIES + 1,
                        2 * constants.total_bands,
                        KERNEL_WORKGROUPS,
                    )
                },
            },
    {
        let total_bands: u64 = (constants.total_bands / 2) as u64;
        let rotations_size: u64 = chocolate_box_size as u64 * NUMBER_SIZE;
        let output_surfaces_size: u64 = total_bands * NUMBER_SIZE;
        let output_rings_size: u64 = total_reserved_rings as u64 * NUMBER_SIZE;
        let output_longest_lines_size: u64 = total_bands * NUMBER_SIZE;

        if chocolate_box_size as u64 > u32::MAX as u64 {
            return Err(VulkanError::TooManyPoints(chocolate_box_size));
        }
        let required_rotation_invocations: u32 = chocolate_box_size as u32;
        let rotation = match Self::pass(constants, required_rotation_invocations) {
            Ok(pass) => pass,
            Err(error) => return Err(error),
        };
        let required_visibility_invocations: u32 = constants.total_bands * 2;
        let visibility = match Self::pass(constants, required_visibility_invocations) {
            Ok(pass) => pass,
            Err(error) => return Err(error),
        };
        Ok(
            Pipeline {
                rotation,
                visibility,
                rotations_size,
                output_surfaces_size,
                output_rings_size,
                output_longest_lines_size,
            },
        )
    }
}

/// Get the limits for the GPU: how big a binding and a buffer can be.
pub fn limits(max_storage_buffer_binding_size: u32, max_buffer_size: u64) -> (limits: (u32, u64))
    ensures
        limits.0 == (if max_storage_buffer_binding_size < MAX_BUFFER_SIZE {
            max_storage_buffer_binding_size
        } else {
            MAX_BUFFER_SIZE
        }),
        limits.1 == (if max_buffer_size < MAX_BUFFER_SIZE {
            max_buffer_size
        } else {
            MAX_BUFFER_SIZE as u64
        }),
{
    let binding_size: u32 = if max_storage_buffer_binding_size < MAX_BUFFER_SIZE {
        max_storage_buffer_binding_size
    } else {
        MAX_BUFFER_SIZE
    };
    let buffer_size: u64 = if max_buffer_size < MAX_BUFFER_SIZE as u64 {
        max_buffer_size
    } else {
        MAX_BUFFER_SIZE as u64
    };
    (binding_size, buffer_size)
}

/// Dimensions are balanced: no dimension has more than one dispatch more than another.
pub proof fn law_dispatches_are_balanced(steps: int)
    requires
        0 <= steps,
    ensures
        ({
            let dispatches = dispatches_after(steps);
            &&& dispatches.2 <= dispatches.1 <= dispatches.0 <= dispatches.2 + 1
            &&& dispatches.0 + dispatches.1 + dispatches.2 == steps
        }),
{
}

/// There are dimensions that can be counted for up to half as many invocations as can be counted.
pub proof fn law_can_dispatch(required: u32)
    requires
        required <= 0x7fff_ffff,
    ensures
        can_dispatch(required),
{
    assert forall|steps: int|
        1 <= steps <= 3 * MAX_TRIES && none_before(
            steps,
            required as int,
            KERNEL_WORKGROUPS,
        ) implies #[trigger] can_count(steps, KERNEL_WORKGROUPS) by {
        let (a, b, c) = dispatches_after(steps);
        let total = total_after(steps, KERNEL_WORKGROUPS);
        lemma_total(steps);
        if steps >= 4 {
            lemma_total(steps - 1);
            let (d, e, f) = dispatches_after(steps - 1);
            assert(total_after(steps - 1, KERNEL_WORKGROUPS) < required);
            assert(a * b * c <= 2 * (d * e * f)) by (nonlinear_arith)
                requires
                    1 <= d,
                    1 <= e,
                    1 <= f,
                    (a == d + 1 && b == e && c == f) || (a == d && b == e + 1 && c == f) || (a == d
                        && b == e && c == f + 1),
            ;
            assert(total <= u32::MAX);
        }
        let invocations = invocations_after(steps, KERNEL_WORKGROUPS);
        assert(invocations == (8 * a, 8 * b, 4 * c));
        if steps < 4 {
            assert(total <= 256) by (nonlinear_arith)
                requires
                    total == 256 * (a * b * c),
                    a == 1,
                    b == 0 || b == 1,
                    c == 0 || c == 1,
            ;
            assert((8 * a) * (8 * b) <= 64) by (nonlinear_arith)
                requires
                    a == 1,
                    b == 0 || b == 1,
            ;
        } else {
            assert(8 * a <= 256 * (a * b * c) && 8 * b <= 256 * (a * b * c) && 4 * c <= 256 * (a * b
                * c) && (8 * a) * (8 * b) <= 256 * (a * b * c)) by (nonlinear_arith)
                requires
                    1 <= a,
                    1 <= b,
                    1 <= c,
            ;
        }
    }
}

/// The invocations in all, by the dispatches.
proof fn lemma_total(steps: int)
    requires
        1 <= steps,
    ensures
        ({
            let (a, b, c) = dispatches_after(steps);
            total_after(steps, KERNEL_WORKGROUPS) == 256 * (a * b * c)
        }),
{
    let (a, b, c) = dispatches_after(steps);
    assert((a * 8) * (b * 8) * (c * 4) == 256 * (a * b * c)) by (nonlinear_arith);
}

/// A pass makes enough invocations, and all of them are told to the kernel: in each dimension there
/// are as many as dispatches of whole workgroups. Nothing else that the kernel is told changes.
pub proof fn law_pass_is_enough(pass: ComputePass, constants: Constants, required: u32)
    requires
        is_pass(pass, constants, required),
        required <= 0x7fff_ffff,
    ensures
        ({
            let dimensions = pass.constants.dimensions;
            &&& dimensions.x == pass.dispatches.0 * 8
            &&& dimensions.y == pass.dispatches.1 * 8
            &&& dimensions.z == pass.dispatches.2 * 4
            &&& dimensions.w == required
            &&& dimensions.x * dimensions.y * dimensions.z >= required
            &&& pass.dispatches.2 <= pass.dispatches.1 <= pass.dispatches.0 <= pass.dispatches.2 + 1
            &&& pass.constants == (Constants { dimensions, ..constants })
        }),
{
    let steps = choose|steps: int|
        1 <= steps <= 3 * MAX_TRIES && #[trigger] none_before(
            steps,
            required as int,
            KERNEL_WORKGROUPS,
        ) && total_after(steps, KERNEL_WORKGROUPS) >= required && (
            pass.dispatches.0 as int,
            pass.dispatches.1 as int,
            pass.dispatches.2 as int,
        ) == dispatches_after(steps) && pass.constants == (Constants {
            dimensions: (Dimensions {
                x: invocations_after(steps, KERNEL_WORKGROUPS).0 as u32,
                y: invocations_after(steps, KERNEL_WORKGROUPS).1 as u32,
                z: invocations_after(steps, KERNEL_WORKGROUPS).2 as u32,
                w: required,
            }),
            ..constants
        });
    law_can_dispatch(required);
    assert(can_count(steps, KERNEL_WORKGROUPS));
    law_dispatches_are_balanced(steps);
}

/// A pass makes no more invocations than it takes: fewer dispatches, balanced in the same way, are
/// not enough.
pub proof fn law_pass_is_no_bigger(
    pass: ComputePass,
    constants: Constants,
    required: u32,
    fewer: (int, int, int),
)
    requires
        is_pass(pass, constants, required),
        0 <= fewer.2 <= fewer.1 <= fewer.0 <= fewer.2 + 1,
        1 <= fewer.0 + fewer.1 + fewer.2 < pass.dispatches.0 + pass.dispatches.1
            + pass.dispatches.2,
    ensures
        (fewer.0 * 8) * (fewer.1 * 8) * (fewer.2 * 4) < required,
{
    let steps = choose|steps: int|
        1 <= steps <= 3 * MAX_TRIES && #[trigger] none_before(
            steps,
            required as int,
            KERNEL_WORKGROUPS,
        ) && total_after(steps, KERNEL_WORKGROUPS) >= required && (
            pass.dispatches.0 as int,
            pass.dispatches.1 as int,
            pass.dispatches.2 as int,
        ) == dispatches_after(steps) && pass.constants == (Constants {
            dimensions: (Dimensions {
                x: invocations_after(steps, KERNEL_WORKGROUPS).0 as u32,
                y: invocations_after(steps, KERNEL_WORKGROUPS).1 as u32,
                z: invocations_after(steps, KERNEL_WORKGROUPS).2 as u32,
                w: required,
            }),
            ..constants
        });
    let few = fewer.0 + fewer.1 + fewer.2;
    law_dispatches_are_balanced(steps);
    law_dispatches_are_balanced(few);
    assert(dispatches_after(few) == fewer);
    assert(total_after(few, KERNEL_WORKGROUPS) < required);
}

} // verus!
