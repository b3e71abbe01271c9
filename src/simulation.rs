use vstd::prelude::*;

use crate::error::SimError;
use crate::histogram::{total, Histogram, samples_to_hist};
use crate::percentile::{locate_percentile, percentile_of, PercentileResult};
use crate::posterior::Plan;
use crate::sampler::{
    all_probabilities, differences, is_greatest, is_least, lemma_wins_bounded, summarize_draws,
    win_count,
};
use crate::UNIT;

verus! {

/// Every entry is at most the entries after it.
pub open spec fn is_ascending(s: Seq<i64>) -> bool {
    forall|i: int, j: int| 0 <= i <= j < s.len() ==> s[i] <= s[j]
}

/// `t` is `s` put in ascending order.
pub open spec fn is_sorted_version(t: Seq<i64>, s: Seq<i64>) -> bool {
    is_ascending(t) && t.to_multiset() == s.to_multiset()
}

/// Relies on `slice::sort_unstable`: the same items come out in ascending order.
#[verifier::external_body]
fn sort_ascending(mut v: Vec<i64>) -> (r: Vec<i64>)
    ensures
        is_sorted_version(r@, v@),
{
    v.sort_unstable();
    v
}

/// Everything one simulation run reports.
pub struct SimulationResult {
    /// Draws in which B beat A.
    pub wins: usize,
    /// Number of paired draws.
    pub n_samples: usize,
    /// A draws over the common scale of A and B.
    pub a_histogram: Histogram,
    /// B draws over the same scale.
    pub b_histogram: Histogram,
    /// Differences `b - a` over their own range.
    pub diff_histogram: Histogram,
    /// One marker per requested percentile, in request order.
    pub percentile_results: Vec<PercentileResult>,
}

impl SimulationResult {
    /// The estimated probability that B beats A, in ticks, rounded down.
    pub fn win_probability(&self) -> (r: u64)
        requires
            self.n_samples >= 1,
            self.wins <= self.n_samples,
        ensures
            r as int == self.wins as int * UNIT as int / self.n_samples as int,
            r <= UNIT,
    {
        let w = self.wins as u128;
        let n = self.n_samples as u128;
        proof {
            let (a, b) = (w as int, n as int);
            assert(a * (UNIT as int) <= b * (UNIT as int)) by (nonlinear_arith)
                requires
                    0 <= a <= b,
            ;
            assert(b * (UNIT as int) <= 0xffff_ffff_ffff_ffff * 1_000_000_000) by (nonlinear_arith)
                requires
                    0 <= b <= 0xffff_ffff_ffff_ffff,
            ;
            assert(a * (UNIT as int) / b <= UNIT as int) by (nonlinear_arith)
                requires
                    b >= 1,
                    a * (UNIT as int) <= b * (UNIT as int),
            ;
        }
        (w * (UNIT as u128) / n) as u64
    }
}

/// The percentile markers for `ps` over the ascending samples `sorted`, placed in `h`.
pub open spec fn percentiles_match(
    rs: Seq<PercentileResult>,
    sorted: Seq<i64>,
    h: Histogram,
    ps: Seq<u64>,
) -> bool {
    rs.len() == ps.len() && forall|j: int|
        0 <= j < ps.len() ==> #[trigger] rs[j] == percentile_of(sorted, h, ps[j])
}

/// Turns paired posterior draws into the full result: the win count, the A and B
/// histograms over their common range, the histogram of the differences, and the
/// percentile markers of the differences. Fails with `InsufficientData` exactly when
/// there are no draws.
pub fn compute(plan: &Plan, a_draws: Vec<i64>, b_draws: Vec<i64>) -> (r: Result<
    SimulationResult,
    SimError,
>)
    requires
        plan.wf(),
        a_draws.len() == b_draws.len(),
        all_probabilities(a_draws@),
        all_probabilities(b_draws@),
    ensures
        a_draws.len() == 0 <==> r == Err::<SimulationResult, SimError>(
            SimError::InsufficientData,
        ),
        a_draws.len() > 0 <==> r is Ok,
        r is Ok ==> ({
            let res = r->Ok_0;
            let (a, b) = (a_draws@, b_draws@);
            let d = differences(a, b);
            let (ah, bh, dh) = (res.a_histogram, res.b_histogram, res.diff_histogram);
            &&& res.n_samples == a.len()
            &&& res.wins == win_count(a, b)
            &&& res.wins <= res.n_samples
            &&& is_least(ah.min, a + b) && is_greatest(ah.max, a + b)
            &&& bh.min == ah.min && bh.max == ah.max
            &&& is_least(dh.min, d) && is_greatest(dh.max, d)
            &&& ah.wf() && bh.wf() && dh.wf()
            &&& ah.describes(a, ah.min as int, ah.max as int, plan.n_bins as int)
            &&& bh.describes(b, bh.min as int, bh.max as int, plan.n_bins as int)
            &&& dh.describes(d, dh.min as int, dh.max as int, plan.n_bins as int)
            &&& total(ah.counts@) == res.n_samples
            &&& total(bh.counts@) == res.n_samples
            &&& total(dh.counts@) == res.n_samples
            &&& exists|t: Seq<i64>|
                is_sorted_version(t, d) && percentiles_match(
                    res.percentile_results@,
                    t,
                    dh,
                    plan.percentiles@,
                )
        }),
{
    let ghost a = a_draws@;
    let ghost b = b_draws@;
    let summary = match summarize_draws(a_draws, b_draws) {
        Ok(s) => s,
        Err(e) => {
            return Err(e);
        },
    };
    proof {
        lemma_wins_bounded(a, b);
    }
    let a_hist = match samples_to_hist(&summary.samples.a, summary.min_ab, summary.max_ab, plan.n_bins) {
        Ok(h) => h,
        Err(e) => {
            return Err(e);
        },
    };
    let b_hist = match samples_to_hist(&summary.samples.b, summary.min_ab, summary.max_ab, plan.n_bins) {
        Ok(h) => h,
        Err(e) => {
            return Err(e);
        },
    };
    let diff_hist = match samples_to_hist(
        &summary.samples.diff,
        summary.min_diff,
        summary.max_diff,
        plan.n_bins,
    ) {
        Ok(h) => h,
        Err(e) => {
            return Err(e);
        },
    };
    let copy = summary.samples.diff.clone();
    assert(copy@ =~= summary.samples.diff@);
    let sorted = sort_ascending(copy);
    proof {
        vstd::seq_lib::to_multiset_len(summary.samples.diff@);
        vstd::seq_lib::to_multiset_len(sorted@);
    }
    let mut results: Vec<PercentileResult> = Vec::new();
    let mut j: usize = 0;
    while j < plan.percentiles.len()
        invariant
            plan.wf(),
            sorted@.len() == summary.samples.diff@.len(),
            sorted@.len() >= 1,
            diff_hist.wf(),
            j <= plan.percentiles.len(),
            percentiles_match(results@, sorted@, diff_hist, plan.percentiles@.take(j as int)),
        decreases plan.percentiles.len() - j,
    {
        let p = plan.percentiles[j];
        let m = match locate_percentile(&sorted, &diff_hist, p) {
            Ok(m) => m,
            Err(e) => {
                return Err(e);
            },
        };
        results.push(m);
        proof {
            assert(plan.percentiles@.take(j + 1).drop_last() =~= plan.percentiles@.take(j as int));
            assert forall|i: int| 0 <= i < j + 1 implies #[trigger] results@[i] == percentile_of(
                sorted@,
                diff_hist,
                plan.percentiles@.take(j + 1)[i],
            ) by {
                if i < j {
                    assert(plan.percentiles@.take(j + 1)[i] == plan.percentiles@.take(j as int)[i]);
                }
            }
        }
        j += 1;
    }
    proof {
        assert(plan.percentiles@.take(j as int) =~= plan.percentiles@);
    }
    Ok(
        SimulationResult {
            wins: summary.wins,
            n_samples: summary.samples.a.len(),
            a_histogram: a_hist,
            b_histogram: b_hist,
            diff_histogram: diff_hist,
            percentile_results: results,
        },
    )
}

} // verus!
