//! The FAST-9 corner detector, reached through `imageproc`.

use crate::frame::GrayFrame;
use crate::keypoint::Keypoint;
use vstd::prelude::*;

verus! {

/// The corners that `imageproc::corners::corners_fast9` reports for a frame
/// of the given dimensions and row-major intensities at the given threshold,
/// in the order in which it reports them.
pub uninterp spec fn fast9_corners(width: u32, height: u32, pixels: Seq<u8>, threshold: u8) -> Seq<
    Keypoint,
>;

/// What the detector's source shows of every corner it reports: it is a pixel
/// of the frame.
pub open spec fn fast9_corner_in_frame(corner: Keypoint, width: nat, height: nat) -> bool {
    &&& corner.x < width
    &&& corner.y < height
}

/// Runs `imageproc::corners::corners_fast9` on a copy of the frame and hands
/// back each corner with its score as a bit pattern.
///
/// Trusted, not proved: the result is the detector's output for these pixels
/// and this threshold and depends on nothing else, and each reported corner
/// is a pixel of the frame (the detector walks rows `0..height` and columns
/// `0..width`). A frame always holds one value per pixel, so the image can be
/// built from it.
#[verifier::external_body]
pub(crate) fn corners_fast9(frame: &GrayFrame, threshold: u8) -> (corners: Vec<Keypoint>)
    ensures
        corners@ == fast9_corners(
            frame@.width as u32,
            frame@.height as u32,
            frame@.pixels,
            threshold,
        ),
        forall|i: int|
            0 <= i < corners@.len() ==> fast9_corner_in_frame(
                #[trigger] corners@[i],
                frame@.width,
                frame@.height,
            ),
{
    let image =
        image::GrayImage::from_raw(frame.width(), frame.height(), frame.as_raw().clone()).unwrap();
    imageproc::corners::corners_fast9(&image, threshold)
        .into_iter()
        .map(|c| Keypoint { x: c.x, y: c.y, score_bits: c.score.to_bits() })
        .collect()
}

} // verus!
