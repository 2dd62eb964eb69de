//! Converting final output to PNG images.

use vstd::prelude::*;

verus! {

/// Why there is no image.
#[derive(Debug, Clone, Copy, PartialEq, Eq, Structural)]
pub enum PngError {
    /// The count of pixels doesn't fit into the dimensions.
    PixelCount(usize, u32, u32),
}

/// Check that there is one pixel for every point of an image.
pub fn check_pixel_count(count: usize, width: u32, height: u32) -> (checked: Result<(), PngError>)
    requires
        width * height <= u32::MAX,
    ensures
        checked == (if count == width * height {
            Ok(())
        } else {
            Err(PngError::PixelCount(count, width, height))
        }),
{
    if count as u64 != (width * height) as u64 {
        return Err(PngError::PixelCount(count, width, height));
    }
    Ok(())
}

} // verus!
