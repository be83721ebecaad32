//! Frame-based audio correction pipeline.
//!
//! The library converts integer PCM into a canonical mono fixed-point
//! sequence, slices it into overlapping fixed-size frames, feeds each frame
//! through a pluggable correction engine, reassembles the corrected frames by
//! overlap-add, and rescales the result once to prevent clipping.
//!
//! Canonical samples are signed 64-bit fixed-point values with `sample::UNIT`
//! (2^32) standing for an amplitude of one, so that decoding, stereo mixing
//! and overlap-add summation are exact.

pub mod engine;
pub mod format;
pub mod normalize;
pub mod pipeline;
pub mod progress;
pub mod sample;
pub mod scheduler;
pub mod ui;
