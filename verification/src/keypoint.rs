//! Keypoints and the edge-margin test.

use vstd::prelude::*;

verus! {

/// A corner: integer pixel coordinates and a score.
///
/// The score is held as the bit pattern of a single-precision number; see
/// [`crate::score`] for how it is ordered.
#[derive(Clone, Copy, Debug, PartialEq, Eq, Structural)]
pub struct Keypoint {
    pub x: u32,
    pub y: u32,
    pub score_bits: u32,
}

/// The point lies at least `radius` pixels from every edge of a
/// `width` x `height` frame, the far edges counted inclusively.
pub open spec fn within_margin(keypoint: Keypoint, height: u32, width: u32, radius: u32) -> bool {
    &&& radius <= keypoint.x
    &&& keypoint.x + radius <= width
    &&& radius <= keypoint.y
    &&& keypoint.y + radius <= height
}

/// The keypoint shifted by `(dx, dy)`, score untouched.
pub open spec fn shifted(keypoint: Keypoint, dx: u32, dy: u32) -> Keypoint
    recommends
        keypoint.x + dx <= u32::MAX,
        keypoint.y + dy <= u32::MAX,
{
    Keypoint {
        x: (keypoint.x + dx) as u32,
        y: (keypoint.y + dy) as u32,
        score_bits: keypoint.score_bits,
    }
}

impl Keypoint {
    pub fn new(x: u32, y: u32, score_bits: u32) -> (keypoint: Keypoint)
        ensures
            keypoint == (Keypoint { x, y, score_bits }),
    {
        Keypoint { x, y, score_bits }
    }
}

/// Checks that a keypoint keeps the edge margin `radius` in a frame of the
/// given height and width.
pub fn point_in_bound(keypoint: &Keypoint, height: u32, width: u32, radius: u32) -> (inside: bool)
    ensures
        inside == within_margin(*keypoint, height, width, radius),
{
    radius <= width && radius <= height && keypoint.x >= radius && keypoint.x <= width - radius
        && keypoint.y >= radius && keypoint.y <= height - radius
}

} // verus!
