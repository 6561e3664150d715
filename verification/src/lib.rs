//! Streaming speech denoising for 16-bit PCM audio.
//!
//! A stream is a live denoising engine named by an opaque handle. Audio is
//! handed over in whole frames, run through the engine frame by frame, and
//! the engine's output is brought back into the 16-bit range by one scale
//! factor for the whole buffer.
//!
//! The engine works on binary32 numbers. This library never computes with
//! them: it carries each one as its bit pattern and reasons about it as an
//! integer significand and a power of two.

pub mod binary32;
pub mod engine;
pub mod error;
pub mod frames;
pub mod pass;
pub mod registry;
pub mod rescale;
pub mod rounding;

use vstd::prelude::*;

verus! {

/// Number of samples the engine consumes and produces per call.
pub const FRAME_SIZE: usize = 480;

/// Largest magnitude a delivered sample may have.
pub const MAX_SAMPLE_MAGNITUDE: i16 = 32766;

} // verus!
