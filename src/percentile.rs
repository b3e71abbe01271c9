use vstd::prelude::*;

use crate::error::SimError;
use crate::histogram::{bin_index, bin_of, clamp, lemma_bin_in_range, Histogram};
use crate::UNIT;

verus! {

/// A percentile probability in ticks lies strictly between 0 and 1.
pub open spec fn is_open_probability(p: u64) -> bool {
    0 < p < UNIT
}

/// Nearest-rank index: `floor(p * n)` clamped to `[0, n - 1]`, with `p` in ticks.
pub open spec fn percentile_index(p: int, n: int) -> int {
    clamp(p * n / (UNIT as int), 0, n - 1)
}

/// A percentile marker: the sample value at the nearest rank and the bin that holds it.
#[derive(PartialEq, Eq, Structural, Clone, Copy, Debug)]
pub struct PercentileResult {
    /// The requested probability, in ticks.
    pub probability: u64,
    /// The sample at the nearest rank.
    pub value: i64,
    /// The bin of `value` in the histogram.
    pub bin_index: usize,
    /// The count of that bin.
    pub count_at_bin: usize,
}

/// The marker for probability `p` over the ascending samples `sorted`, placed in `h`.
pub open spec fn percentile_of(sorted: Seq<i64>, h: Histogram, p: u64) -> PercentileResult {
    let v = sorted[percentile_index(p as int, sorted.len() as int)];
    let k = bin_of(v as int, h.min as int, h.max as int, h.n_bins());
    PercentileResult { probability: p, value: v, bin_index: k as usize, count_at_bin: h.counts[k] }
}

/// The nearest-rank index of probability `p` (in ticks) among `n` samples.
pub fn nearest_rank_index(p: u64, n: usize) -> (r: usize)
    requires
        n >= 1,
    ensures
        r as int == percentile_index(p as int, n as int),
        r < n,
{
    proof {
        let (a, b) = (p as int, n as int);
        assert(a * b <= 0xffff_ffff_ffff_ffff * 0xffff_ffff_ffff_ffff) by (nonlinear_arith)
            requires
                0 <= a <= 0xffff_ffff_ffff_ffff,
                0 <= b <= 0xffff_ffff_ffff_ffff,
        ;
    }
    let prod = (p as u128) * (n as u128);
    let rank = prod / (UNIT as u128);
    if rank >= n as u128 {
        n - 1
    } else {
        rank as usize
    }
}

/// Locates the nearest-rank percentile `p` of the ascending samples `sorted` and
/// the bin of `hist` that holds it. Fails with `InvalidParameter` exactly when `p`
/// is not strictly between 0 and 1.
pub fn locate_percentile(sorted: &Vec<i64>, hist: &Histogram, p: u64) -> (r: Result<
    PercentileResult,
    SimError,
>)
    requires
        sorted.len() >= 1,
        hist.wf(),
    ensures
        !is_open_probability(p) <==> r == Err::<PercentileResult, SimError>(
            SimError::InvalidParameter,
        ),
        is_open_probability(p) <==> r is Ok,
        r is Ok ==> r->Ok_0 == percentile_of(sorted@, *hist, p),
{
    if p == 0 || p >= UNIT {
        return Err(SimError::InvalidParameter);
    }
    let index = nearest_rank_index(p, sorted.len());
    let value = sorted[index];
    let k = bin_index(value, hist.min, hist.max, hist.counts.len());
    proof {
        lemma_bin_in_range(value as int, hist.min as int, hist.max as int, hist.n_bins());
    }
    Ok(PercentileResult { probability: p, value, bin_index: k, count_at_bin: hist.counts[k] })
}

} // verus!
