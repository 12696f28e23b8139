//! Staff-line detection for images of printed sheet music.
//!
//! The library locates the five parallel lines of a musical staff in a noisy
//! luma image.  A column scanner turns dark pixel runs into `Segment`s, a
//! sliding window of five segments yields candidate `StaffCross` points, a
//! RANSAC engine fits straight lines through those points, and a refinement
//! stage partitions each fitted line into staff and blank stretches by
//! re-sampling image brightness.
//!
//! All geometry is exact integer arithmetic: span boundaries sit on half-pixel
//! positions, so coordinates are kept doubled (half-pixel units), and the
//! refinement stage works in 2^-16-pixel fixed point.

use vstd::prelude::*;

pub mod bignat;
pub mod geometry;
pub mod image;
pub mod model;
pub mod ransac;
pub mod refinement;
pub mod rng;
pub mod scanning;

verus! {

/// Returned when a caller breaks a structural precondition of the data
/// model: a staff crossing built from other than five ordered spans, or an
/// iteration estimate asked for more inliers than data points.
#[derive(Clone, Copy, Debug, PartialEq, Eq, Structural)]
pub struct InvariantViolation;

} // verus!
