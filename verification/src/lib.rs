//! Detection decoding and suppression pipeline.
//!
//! Turns raw object-detection network output tensors into a clean,
//! deduplicated set of labeled boxes: per-row decoding (argmax scoring and
//! coordinate scaling), confidence thresholding, and greedy non-maximum
//! suppression with numeric tie-breaking.
//!
//! All scores and normalized coordinates are fixed-point integers: a value
//! `v` stands for the real number `v / FIXED_ONE`. Ratio thresholds (IoU)
//! are rationals `num / den`.
use vstd::prelude::*;

pub mod args;
pub mod decoder;
pub mod filter;
pub mod geometry;
pub mod nms;
pub mod pipeline;
pub mod resolver;
pub mod tensor;

verus! {

/// Fixed-point unit: the integer that stands for the real value 1.0.
pub const FIXED_ONE: i64 = 1_000_000;

/// Largest magnitude accepted for a tensor cell (100.0 in fixed-point):
/// keeps scaled pixel coordinates within `i32`.
pub const CELL_LIMIT: i64 = 100_000_000;

/// Largest accepted frame width or height, in pixels.
pub const DIM_LIMIT: i64 = 1_000_000;

/// Largest accepted numerator or denominator of a ratio threshold:
/// keeps cross-multiplied IoU comparisons within `i128`.
pub const RATIO_LIMIT: i64 = 1_000_000_000;

} // verus!
