use vstd::prelude::*;

use crate::error::SimError;

verus! {

/// `v` forced into the range `[lo, hi]`.
pub open spec fn clamp(v: int, lo: int, hi: int) -> int {
    if v < lo {
        lo
    } else if v > hi {
        hi
    } else {
        v
    }
}

/// The bin of `x` among `n` equal-width bins spanning `[min, max]`: the floor of
/// `(x - min) / width` with `width = (max - min) / n`, clamped to `[0, n - 1]`.
/// A degenerate range (`max == min`) puts everything in bin 0.
pub open spec fn bin_of(x: int, min: int, max: int, n: int) -> int {
    if max == min {
        0
    } else {
        clamp((x - min) * n / (max - min), 0, n - 1)
    }
}

/// How many samples of `s` fall into bin `k`.
pub open spec fn bin_count(s: Seq<i64>, min: int, max: int, n: int, k: int) -> nat
    decreases s.len(),
{
    if s.len() == 0 {
        0
    } else {
        bin_count(s.drop_last(), min, max, n, k) + if bin_of(s.last() as int, min, max, n) == k {
            1nat
        } else {
            0nat
        }
    }
}

/// Sum of a sequence of counts.
pub open spec fn total(s: Seq<usize>) -> int
    decreases s.len(),
{
    if s.len() == 0 {
        0
    } else {
        total(s.drop_last()) + s.last()
    }
}

/// `m` is the largest entry of the non-empty sequence `s`.
pub open spec fn is_max_of(m: int, s: Seq<usize>) -> bool {
    (forall|k: int| 0 <= k < s.len() ==> s[k] <= m) && (exists|k: int|
        0 <= k < s.len() && s[k] == m)
}

/// Counts of samples per bin over a fixed range.
pub struct Histogram {
    /// Lower end of the range (the left edge of bin 0).
    pub min: i64,
    /// Upper end of the range (the right edge of the last bin).
    pub max: i64,
    /// One count per bin.
    pub counts: Vec<usize>,
    /// The largest of `counts`.
    pub max_count: usize,
}

impl Histogram {
    /// The range is ordered and there is at least one bin.
    pub open spec fn wf(&self) -> bool {
        self.min <= self.max && self.counts.len() >= 1
    }

    /// Number of bins.
    pub open spec fn n_bins(&self) -> int {
        self.counts.len() as int
    }

    /// The histogram of `s` over `[min, max]` with `n` bins.
    pub open spec fn describes(&self, s: Seq<i64>, min: int, max: int, n: int) -> bool {
        &&& self.min == min
        &&& self.max == max
        &&& self.counts.len() == n
        &&& forall|k: int| 0 <= k < n ==> self.counts[k] == bin_count(s, min, max, n, k)
        &&& is_max_of(self.max_count as int, self.counts@)
    }
}

/// Changing one entry changes the total by the difference.
proof fn lemma_total_update(s: Seq<usize>, k: int, v: usize)
    requires
        0 <= k < s.len(),
    ensures
        total(s.update(k, v)) == total(s) - s[k] + v,
    decreases s.len(),
{
    let t = s.update(k, v);
    if k == s.len() - 1 {
        assert(t.drop_last() =~= s.drop_last());
    } else {
        assert(t.drop_last() =~= s.drop_last().update(k, v));
        lemma_total_update(s.drop_last(), k, v);
    }
}

/// No entry exceeds the total.
proof fn lemma_entry_le_total(s: Seq<usize>, k: int)
    requires
        0 <= k < s.len(),
    ensures
        s[k] <= total(s),
    decreases s.len(),
{
    lemma_total_nonneg(s.drop_last());
    if k < s.len() - 1 {
        lemma_entry_le_total(s.drop_last(), k);
    }
}

/// A total of counts is never negative.
proof fn lemma_total_nonneg(s: Seq<usize>)
    ensures
        total(s) >= 0,
    decreases s.len(),
{
    if s.len() > 0 {
        lemma_total_nonneg(s.drop_last());
    }
}

/// Every bin index lies in `[0, n - 1]`, and a sample equal to the maximum of a
/// non-degenerate range lands in the last bin.
pub proof fn lemma_bin_in_range(x: int, min: int, max: int, n: int)
    requires
        n >= 1,
        min <= max,
    ensures
        0 <= bin_of(x, min, max, n) < n,
        min < max ==> bin_of(max, min, max, n) == n - 1,
{
    if min < max {
        assert((max - min) * n / (max - min) == n) by (nonlinear_arith)
            requires
                max - min > 0,
        ;
    }
}

/// The counts of bins `0 .. upto` of `s`, added up.
pub open spec fn sum_of_bins(s: Seq<i64>, min: int, max: int, n: int, upto: int) -> int
    decreases upto,
{
    if upto <= 0 {
        0
    } else {
        sum_of_bins(s, min, max, n, upto - 1) + bin_count(s, min, max, n, upto - 1)
    }
}

/// Adding a sample adds one to the sum of the bins below `upto` exactly when its bin is one of them.
proof fn lemma_sum_of_bins_last(s: Seq<i64>, min: int, max: int, n: int, upto: int)
    requires
        s.len() > 0,
        upto >= 0,
        n >= 1,
        min <= max,
    ensures
        sum_of_bins(s, min, max, n, upto) == sum_of_bins(s.drop_last(), min, max, n, upto) + if bin_of(
            s.last() as int,
            min,
            max,
            n,
        ) < upto {
            1int
        } else {
            0int
        },
    decreases upto,
{
    lemma_bin_in_range(s.last() as int, min, max, n);
    if upto > 0 {
        lemma_sum_of_bins_last(s, min, max, n, upto - 1);
    }
}

/// Every sample falls into exactly one bin: over all `n` bins the counts add up to
/// the number of samples.
pub proof fn lemma_bin_counts_sum(s: Seq<i64>, min: int, max: int, n: int)
    requires
        n >= 1,
        min <= max,
    ensures
        sum_of_bins(s, min, max, n, n) == s.len(),
    decreases s.len(),
{
    if s.len() == 0 {
        lemma_sum_of_bins_empty(s, min, max, n, n);
    } else {
        lemma_bin_counts_sum(s.drop_last(), min, max, n);
        lemma_sum_of_bins_last(s, min, max, n, n);
        lemma_bin_in_range(s.last() as int, min, max, n);
    }
}

proof fn lemma_sum_of_bins_empty(s: Seq<i64>, min: int, max: int, n: int, upto: int)
    requires
        s.len() == 0,
    ensures
        sum_of_bins(s, min, max, n, upto) == 0,
    decreases upto,
{
    if upto > 0 {
        lemma_sum_of_bins_empty(s, min, max, n, upto - 1);
    }
}

/// The bin of `x` among `n_bins` equal-width bins over `[min, max]`.
pub fn bin_index(x: i64, min: i64, max: i64, n_bins: usize) -> (r: usize)
    requires
        n_bins >= 1,
        min <= max,
    ensures
        r as int == bin_of(x as int, min as int, max as int, n_bins as int),
        r < n_bins,
{
    proof {
        lemma_bin_in_range(x as int, min as int, max as int, n_bins as int);
    }
    if min == max {
        0
    } else if x <= min {
        proof {
            let d = max - min;
            let q = (x - min) * n_bins / d;
            assert(q <= 0) by (nonlinear_arith)
                requires
                    d > 0,
                    x - min <= 0,
                    n_bins >= 1,
                    q == (x - min) * n_bins / d,
            ;
        }
        0
    } else if x >= max {
        proof {
            let d = max - min;
            let q = (x - min) * n_bins / d;
            assert(q >= n_bins) by (nonlinear_arith)
                requires
                    d > 0,
                    x - min >= d,
                    n_bins >= 1,
                    q == (x - min) * n_bins / d,
            ;
        }
        n_bins - 1
    } else {
        let offset = (x as i128 - min as i128) as u128;
        let width = (max as i128 - min as i128) as u128;
        let n = n_bins as u128;
        proof {
            let (o, w, m) = (offset as int, width as int, n as int);
            assert(o * m < w * m) by (nonlinear_arith)
                requires
                    o < w,
                    m >= 1,
            ;
            assert(w * m <= 0xffff_ffff_ffff_ffff * 0xffff_ffff_ffff_ffff) by (nonlinear_arith)
                requires
                    0 <= w <= 0xffff_ffff_ffff_ffff,
                    0 <= m <= 0xffff_ffff_ffff_ffff,
            ;
            assert(o * m / w < m) by (nonlinear_arith)
                requires
                    w > 0,
                    o >= 0,
                    o * m < w * m,
            ;
        }
        let q = offset * n / width;
        q as usize
    }
}

/// Bins `samples` into `n_bins` equal-width bins over `[min, max]`, clamping
/// indices at both ends. Fails with `InvalidCount` exactly when `n_bins` is zero.
pub fn samples_to_hist(samples: &Vec<i64>, min: i64, max: i64, n_bins: usize) -> (r: Result<
    Histogram,
    SimError,
>)
    requires
        min <= max,
    ensures
        n_bins == 0 <==> r == Err::<Histogram, SimError>(SimError::InvalidCount),
        n_bins > 0 <==> r is Ok,
        r is Ok ==> ({
            let h = r->Ok_0;
            &&& h.wf()
            &&& h.describes(samples@, min as int, max as int, n_bins as int)
            &&& total(h.counts@) == samples.len()
        }),
{
    if n_bins == 0 {
        return Err(SimError::InvalidCount);
    }
    let mut counts: Vec<usize> = Vec::new();
    while counts.len() < n_bins
        invariant
            counts.len() <= n_bins,
            forall|k: int| 0 <= k < counts.len() ==> counts[k] == 0,
            total(counts@) == 0,
        decreases n_bins - counts.len(),
    {
        proof {
            assert(counts@.push(0usize).drop_last() =~= counts@);
        }
        counts.push(0);
    }
    let mut i: usize = 0;
    while i < samples.len()
        invariant
            min <= max,
            n_bins >= 1,
            i <= samples.len(),
            counts.len() == n_bins,
            forall|k: int|
                0 <= k < n_bins ==> counts[k] == bin_count(
                    samples@.take(i as int),
                    min as int,
                    max as int,
                    n_bins as int,
                    k,
                ),
            total(counts@) == i,
        decreases samples.len() - i,
    {
        let x = samples[i];
        let b = bin_index(x, min, max, n_bins);
        proof {
            lemma_entry_le_total(counts@, b as int);
            lemma_total_update(counts@, b as int, (counts[b as int] + 1) as usize);
            assert(samples@.take(i + 1).drop_last() =~= samples@.take(i as int));
        }
        let c = counts[b] + 1;
        counts.set(b, c);
        i += 1;
    }
    proof {
        assert(samples@.take(i as int) =~= samples@);
    }
    let mut max_count: usize = counts[0];
    let mut j: usize = 1;
    while j < n_bins
        invariant
            1 <= j <= n_bins,
            counts.len() == n_bins,
            forall|k: int| 0 <= k < j ==> counts[k] <= max_count,
            exists|k: int| 0 <= k < j && counts[k] == max_count,
        decreases n_bins - j,
    {
        if counts[j] > max_count {
            max_count = counts[j];
        }
        j += 1;
    }
    Ok(Histogram { min, max, counts, max_count })
}

} // verus!
