//! A small numeric kernel for axis-aligned rectangles whose coordinates are
//! IEEE 754 single-precision data, handled by their 32-bit encodings.
//!
//! `binary32` gives the encodings their meaning and the ordered comparisons;
//! `collision` holds the strict overlap test built on them.

pub mod binary32;
pub mod collision;

pub use collision::detect_collision;
