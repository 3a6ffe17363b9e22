//! Grid-constrained keypoint detection for visual tracking, with the integer
//! geometry that guards image stencils.
//!
//! Scalars that are not integers never enter this crate: a corner score is
//! carried as its bit pattern, and response maps are generic in their scalar.

pub mod detect;
pub mod fast;
pub mod frame;
pub mod grid;
pub mod keypoint;
pub mod ranking;
pub mod response;
pub mod score;

pub use crate::detect::detect_key_points;
pub use crate::frame::inbound;
pub use crate::frame::GrayFrame;
pub use crate::keypoint::point_in_bound;
pub use crate::keypoint::Keypoint;
pub use crate::response::interior_response;
pub use crate::response::Image;
pub use crate::response::ImageSize;
pub use crate::response::ResponseError;
