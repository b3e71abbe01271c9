//! Bayesian A/B-test inference on fixed-point values: Beta posteriors from counts
//! and priors, one pass over paired posterior draws (wins and extrema), fixed-bin
//! histograms, and nearest-rank percentiles of the differences.
use vstd::prelude::*;

pub mod error;
pub mod histogram;
pub mod percentile;
pub mod posterior;
pub mod sampler;
pub mod simulation;

verus! {

/// Number of ticks that stand for the real value 1.0 in every fixed-point quantity of the library.
pub const UNIT: u64 = 1_000_000_000;

} // verus!
