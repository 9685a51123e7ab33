//! Motion detection over a stream of video frames.
//!
//! A [`MotionDetector`] takes raw RGBA or RGB frames one at a time, keeps
//! the luma planes of the last three, and answers each frame with what the
//! three frames before it show: a pixel counts towards motion if its
//! intensity changed across both gaps between them.

pub mod detector;
pub mod laws;
pub mod luma;
pub mod score;

pub use detector::{DetectionResult, DetectorState, MotionDetector};
