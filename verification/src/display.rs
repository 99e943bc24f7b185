//! Sizes as a front end shows them.

use vstd::prelude::*;

verus! {

/// The width at which the preview of an image is shown.
pub const PREVIEW_WIDTH: usize = 400;

/// The height that keeps the proportions of an image of that size when it
/// is shown at the preview width, rounded down.
pub open spec fn scaled_height(width: int, height: int) -> int {
    400 * height / width
}

/// The height at which to show the preview of an image of that size. There
/// is none for an image without width, nor for one so high that the height
/// cannot be scaled in a `usize`.
pub fn preview_height(width: usize, height: usize) -> (r: Option<usize>)
    ensures
        r is Some <==> width > 0 && 400 * height <= usize::MAX,
        r matches Some(h) ==> h == scaled_height(width as int, height as int),
{
    if width == 0 {
        return None;
    }
    match PREVIEW_WIDTH.checked_mul(height) {
        Some(scaled) => Some(scaled / width),
        None => None,
    }
}

} // verus!
