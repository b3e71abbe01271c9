use vstd::prelude::*;

use crate::error::SimError;
use crate::UNIT;

verus! {

/// Every entry is a probability in ticks: between 0 and `UNIT`.
pub open spec fn all_probabilities(s: Seq<i64>) -> bool {
    forall|k: int| 0 <= k < s.len() ==> 0 <= #[trigger] s[k] <= UNIT
}

/// Number of paired draws in which the B draw is strictly greater than the A draw.
pub open spec fn win_count(a: Seq<i64>, b: Seq<i64>) -> nat
    decreases a.len(),
{
    if a.len() == 0 {
        0
    } else {
        win_count(a.drop_last(), b.drop_last()) + if a.last() < b.last() {
            1nat
        } else {
            0nat
        }
    }
}

/// `m` is the least entry of the non-empty sequence `s`.
pub open spec fn is_least(m: i64, s: Seq<i64>) -> bool {
    (forall|k: int| 0 <= k < s.len() ==> m <= #[trigger] s[k]) && (exists|k: int|
        0 <= k < s.len() && #[trigger] s[k] == m)
}

/// `m` is the greatest entry of the non-empty sequence `s`.
pub open spec fn is_greatest(m: i64, s: Seq<i64>) -> bool {
    (forall|k: int| 0 <= k < s.len() ==> #[trigger] s[k] <= m) && (exists|k: int|
        0 <= k < s.len() && #[trigger] s[k] == m)
}

/// The differences `b[k] - a[k]`, draw by draw.
pub open spec fn differences(a: Seq<i64>, b: Seq<i64>) -> Seq<i64> {
    Seq::new(a.len(), |k: int| (b[k] - a[k]) as i64)
}

/// The draws of one simulation run: A, B and their differences, in draw order.
pub struct SampleSet {
    pub a: Vec<i64>,
    pub b: Vec<i64>,
    pub diff: Vec<i64>,
}

/// What one pass over the draws yields.
pub struct DrawSummary {
    pub samples: SampleSet,
    /// Draws in which B beat A (ties are no win).
    pub wins: usize,
    /// Extrema over the A and B draws together.
    pub min_ab: i64,
    pub max_ab: i64,
    /// Extrema over the differences.
    pub min_diff: i64,
    pub max_diff: i64,
}

impl DrawSummary {
    /// This summary is the one of the paired draws `a` and `b`.
    pub open spec fn summarizes(&self, a: Seq<i64>, b: Seq<i64>) -> bool {
        &&& self.samples.a@ == a
        &&& self.samples.b@ == b
        &&& self.samples.diff@ == differences(a, b)
        &&& self.wins == win_count(a, b)
        &&& is_least(self.min_ab, a + b)
        &&& is_greatest(self.max_ab, a + b)
        &&& is_least(self.min_diff, differences(a, b))
        &&& is_greatest(self.max_diff, differences(a, b))
    }
}

/// Never more wins than draws.
pub proof fn lemma_wins_bounded(a: Seq<i64>, b: Seq<i64>)
    ensures
        win_count(a, b) <= a.len(),
    decreases a.len(),
{
    if a.len() > 0 {
        lemma_wins_bounded(a.drop_last(), b.drop_last());
    }
}

/// One pass over paired posterior draws: the differences `b - a`, the number of
/// wins of B, and the extrema of the A and B draws together and of the differences.
/// Fails with `InsufficientData` exactly when there are no draws.
pub fn summarize_draws(a: Vec<i64>, b: Vec<i64>) -> (r: Result<DrawSummary, SimError>)
    requires
        a.len() == b.len(),
        all_probabilities(a@),
        all_probabilities(b@),
    ensures
        a.len() == 0 <==> r == Err::<DrawSummary, SimError>(SimError::InsufficientData),
        a.len() > 0 <==> r is Ok,
        r is Ok ==> r->Ok_0.summarizes(a@, b@),
{
    let n = a.len();
    if n == 0 {
        return Err(SimError::InsufficientData);
    }
    let ghost sa = a@;
    let ghost sb = b@;
    let ghost d = differences(sa, sb);
    let mut diff: Vec<i64> = Vec::new();
    let mut wins: usize = 0;
    let mut min_ab: i64 = if a[0] < b[0] { a[0] } else { b[0] };
    let mut max_ab: i64 = if a[0] < b[0] { b[0] } else { a[0] };
    let mut min_diff: i64 = b[0] - a[0];
    let mut max_diff: i64 = b[0] - a[0];
    assert(d[0] == min_diff);
    let mut i: usize = 0;
    while i < n
        invariant
            n == a.len(),
            n == b.len(),
            n >= 1,
            a@ == sa,
            b@ == sb,
            d == differences(sa, sb),
            d.len() == n,
            all_probabilities(sa),
            all_probabilities(sb),
            i <= n,
            diff@ == d.take(i as int),
            wins == win_count(sa.take(i as int), sb.take(i as int)),
            wins <= i,
            forall|k: int| 0 <= k < i ==> min_ab <= sa[k] && min_ab <= sb[k],
            forall|k: int| 0 <= k < i ==> sa[k] <= max_ab && sb[k] <= max_ab,
            forall|k: int| 0 <= k < i ==> min_diff <= #[trigger] d[k] <= max_diff,
            exists|k: int| 0 <= k < n && (min_ab == sa[k] || min_ab == sb[k]),
            exists|k: int| 0 <= k < n && (max_ab == sa[k] || max_ab == sb[k]),
            exists|k: int| 0 <= k < n && min_diff == d[k],
            exists|k: int| 0 <= k < n && max_diff == d[k],
        decreases n - i,
    {
        let x = a[i];
        let y = b[i];
        assert(0 <= sa[i as int] <= UNIT && 0 <= sb[i as int] <= UNIT);
        let delta = y - x;
        assert(d[i as int] == delta);
        proof {
            assert(sa.take(i + 1).drop_last() =~= sa.take(i as int));
            assert(sb.take(i + 1).drop_last() =~= sb.take(i as int));
        }
        if x < y {
            wins += 1;
        }
        if x < min_ab {
            min_ab = x;
        }
        if y < min_ab {
            min_ab = y;
        }
        if x > max_ab {
            max_ab = x;
        }
        if y > max_ab {
            max_ab = y;
        }
        if delta < min_diff {
            min_diff = delta;
        }
        if delta > max_diff {
            max_diff = delta;
        }
        diff.push(delta);
        proof {
            assert(diff@ =~= d.take(i + 1));
        }
        i += 1;
    }
    proof {
        let both = sa + sb;
        assert forall|k: int| 0 <= k < both.len() implies min_ab <= #[trigger] both[k]
            && both[k] <= max_ab by {
            if k >= n {
                assert(both[k] == sb[k - n]);
            }
        }
        let k1 = choose|k: int| 0 <= k < n && (min_ab == sa[k] || min_ab == sb[k]);
        if min_ab == sa[k1] {
            assert(both[k1] == min_ab);
        } else {
            assert(both[k1 + n] == min_ab);
        }
        let k2 = choose|k: int| 0 <= k < n && (max_ab == sa[k] || max_ab == sb[k]);
        if max_ab == sa[k2] {
            assert(both[k2] == max_ab);
        } else {
            assert(both[k2 + n] == max_ab);
        }
        assert(sa.take(n as int) =~= sa);
        assert(sb.take(n as int) =~= sb);
        assert(d.take(n as int) =~= d);
    }
    Ok(
        DrawSummary {
            samples: SampleSet { a, b, diff },
            wins,
            min_ab,
            max_ab,
            min_diff,
            max_diff,
        },
    )
}

} // verus!
