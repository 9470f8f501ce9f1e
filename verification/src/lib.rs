//! The verified core of a terminal spectrum visualizer.
//!
//! Audio arrives in fixed-size frames and is shown as a bar chart of the low
//! frequency bins. This crate holds the parts of that pipeline that are exact:
//! the single-slot frame buffer between capture and analysis and the in-place
//! pass that windows it ([`frame`]), the choice and labelling of the bins that
//! are drawn ([`layout`]), and the text of one rendered frame ([`text`],
//! [`render`]). Capturing audio, the window's multiplier, the transform itself
//! and the decibel scale work on floating-point samples and live with the
//! program that drives this library.

use vstd::prelude::*;

pub mod frame;
pub mod layout;
pub mod render;
pub mod text;

verus! {

/// Number of samples in one audio frame, and the size of the transform.
pub const FFT_SIZE: usize = 1024;

/// Samples per second of the captured channel.
pub const SAMPLE_RATE: u32 = 44100;

/// Bins at or above this frequency, in hertz, are never drawn.
pub const DISPLAY_CUTOFF_HZ: u32 = 2000;

/// Of the bins below the cutoff, every `DISPLAY_STRIDE`-th one is drawn.
pub const DISPLAY_STRIDE: usize = 4;

/// Width of the field that holds a line's frequency, in characters.
pub const LABEL_WIDTH: usize = 4;

/// Length of the bar drawn for a bin at 0 dB, in characters.
pub const FULL_SCALE_BARS: u32 = 50;

/// Span of the decibel scale below 0 dB; quieter bins draw an empty bar.
pub const DYNAMIC_RANGE_DB: u32 = 60;

/// Time between two rendered frames, in milliseconds.
pub const REFRESH_PERIOD_MS: u64 = 50;

} // verus!
