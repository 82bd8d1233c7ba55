//! A real-time monophonic pitch detector, verified.
//!
//! The pipeline works on fixed-point integers throughout: a sample is a Q16
//! value (the real amplitude times 65536), spectrum magnitudes are Q16 as
//! well, frequencies are integers in millihertz and note deviations are
//! integers in thousandths of a cent. The caller converts its machine floats
//! to and from these plain values at the boundary; everything the library
//! decides or computes on them is specified and proved here.

pub mod analyzer;
pub mod buffer;
pub mod engine;
pub mod estimator;
pub mod note;
pub mod tuning;
