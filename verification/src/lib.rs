//! Exact integer analysis of RGBA pixel buffers: per-channel histograms,
//! channel balance, grayscale averages, HSL saturation, and k-means
//! dominant-color clustering, together with small sizing utilities.
use vstd::prelude::*;

pub mod base;
pub mod color;
pub mod kmeans;
pub mod pixels;
pub mod rng;
pub mod saturation;

verus! {

/// Why an analysis request was rejected.
#[derive(Debug, Clone, Copy, PartialEq, Eq, Structural)]
pub enum AnalysisError {
    /// The buffer length is not a multiple of four bytes.
    InvalidBufferLength,
    /// The buffer holds no pixels but the operation needs at least one.
    EmptyImage,
    /// The requested cluster count is zero or exceeds the pixel count.
    InvalidK,
    /// Every channel total is zero, so channel percentages are undefined.
    DegenerateBalance,
}

/// An exact non-negative rational value, kept unreduced.
#[derive(Debug, Clone, Copy, PartialEq, Eq, Structural)]
pub struct Ratio {
    pub num: u128,
    pub den: u128,
}

impl Ratio {
    /// The denominator is never zero.
    pub open spec fn wf(self) -> bool {
        self.den > 0
    }
}

} // verus!
