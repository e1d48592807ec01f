//! Which way to resample.
//!
//! The interpolation itself works in floating point and is the caller's.

use vstd::prelude::*;

verus! {

/// Chunks below this many samples are interpolated linearly.
pub const SMALL_CHUNK: usize = 64;

/// How a chunk is resampled.
#[derive(Debug, Clone, Copy, PartialEq, Eq, Structural)]
pub enum ResamplePlan {
    /// As it is: the rates agree, or there is nothing to resample.
    Copy,
    /// By linear interpolation: the chunk is too short for the good way.
    Linear,
    /// By the polynomial resampler; linearly where that fails.
    HighQuality,
}

/// How a chunk of `len` samples goes from one rate to another.
pub fn resample_plan(len: usize, from_rate: u32, to_rate: u32) -> (plan: ResamplePlan)
    ensures
        plan == if from_rate == to_rate || len == 0 {
            ResamplePlan::Copy
        } else if len < 64 {
            ResamplePlan::Linear
        } else {
            ResamplePlan::HighQuality
        },
{
    if from_rate == to_rate || len == 0 {
        ResamplePlan::Copy
    } else if len < SMALL_CHUNK {
        ResamplePlan::Linear
    } else {
        ResamplePlan::HighQuality
    }
}

} // verus!
