//! Welch's method for the power spectral density of a sampled signal: cut the
//! signal into overlapping segments, taper each with a window, transform each
//! segment, and add up the squared magnitudes bin by bin.
//!
//! The segmentation (segment length, stride, which samples each segment
//! holds) and the order of the stages are fixed here; the sample arithmetic,
//! the transform and the accumulation step are passed in by the caller, so the
//! stages work for any sample type.
pub mod config;
pub mod estimator;
pub mod overlap;
pub mod segments;
pub mod spectrum;
pub mod window;
