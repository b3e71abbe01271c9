use vstd::prelude::*;

use crate::error::SimError;
use crate::percentile::is_open_probability;
use crate::UNIT;

verus! {

/// Shape parameters of a Beta distribution, in ticks.
#[derive(PartialEq, Eq, Structural, Clone, Copy, Debug)]
pub struct BetaParams {
    pub alpha: u128,
    pub beta: u128,
}

/// Posterior alpha: prior successes plus observed successes.
pub open spec fn posterior_alpha(positives: u64, prior_pos: u64) -> int {
    prior_pos + positives
}

/// Posterior beta: prior failures plus observed failures.
pub open spec fn posterior_beta(trials: u64, positives: u64, prior_neg: u64) -> int {
    prior_neg + trials - positives
}

/// The counts and priors make a Beta posterior: no more positives than trials and
/// both shape parameters strictly positive.
pub open spec fn posterior_defined(trials: u64, positives: u64, prior_pos: u64, prior_neg: u64) -> bool {
    &&& positives <= trials
    &&& posterior_alpha(positives, prior_pos) > 0
    &&& posterior_beta(trials, positives, prior_neg) > 0
}

/// For positive priors and `0 <= positives <= trials`, both posterior shape
/// parameters are strictly positive.
pub proof fn lemma_shapes_positive(trials: u64, positives: u64, prior_pos: u64, prior_neg: u64)
    requires
        prior_pos > 0,
        prior_neg > 0,
        positives <= trials,
    ensures
        posterior_alpha(positives, prior_pos) > 0,
        posterior_beta(trials, positives, prior_neg) > 0,
        posterior_defined(trials, positives, prior_pos, prior_neg),
{
}

/// The Beta posterior of a Beta(`prior_pos`, `prior_neg`) prior after `positives`
/// successes in `trials` trials (all in ticks). Fails with `InvalidParameter` exactly
/// when positives exceed trials or a shape parameter would not be positive.
pub fn posterior_params(trials: u64, positives: u64, prior_pos: u64, prior_neg: u64) -> (r: Result<
    BetaParams,
    SimError,
>)
    ensures
        !posterior_defined(trials, positives, prior_pos, prior_neg) <==> r == Err::<
            BetaParams,
            SimError,
        >(SimError::InvalidParameter),
        posterior_defined(trials, positives, prior_pos, prior_neg) <==> r is Ok,
        r is Ok ==> r->Ok_0.alpha == posterior_alpha(positives, prior_pos) && r->Ok_0.beta
            == posterior_beta(trials, positives, prior_neg),
{
    if positives > trials {
        return Err(SimError::InvalidParameter);
    }
    let alpha = prior_pos as u128 + positives as u128;
    let beta = prior_neg as u128 + (trials - positives) as u128;
    if alpha == 0 || beta == 0 {
        return Err(SimError::InvalidParameter);
    }
    Ok(BetaParams { alpha, beta })
}

/// The inputs of one simulation. Counts, priors and probabilities are in ticks.
pub struct SimulationRequest {
    pub a_tot: u64,
    pub a_pos: u64,
    pub b_tot: u64,
    pub b_pos: u64,
    pub prior_pos: u64,
    pub prior_neg: u64,
    pub n_samples: usize,
    pub n_bins: usize,
    pub diff_percentiles: Vec<u64>,
    /// Seed of the generator that draws the posterior samples.
    pub seed: u64,
}

/// The first failure of a request, if any: counts or priors out of range, then a
/// zero number of samples or bins, then a percentile outside (0, 1).
pub open spec fn request_error(r: &SimulationRequest) -> Option<SimError> {
    if r.a_pos > r.a_tot || r.b_pos > r.b_tot || r.prior_pos == 0 || r.prior_neg == 0 {
        Some(SimError::InvalidParameter)
    } else if r.n_samples == 0 || r.n_bins == 0 {
        Some(SimError::InvalidCount)
    } else if exists|k: int|
        0 <= k < r.diff_percentiles.len() && !is_open_probability(
            #[trigger] r.diff_percentiles[k],
        ) {
        Some(SimError::InvalidParameter)
    } else {
        None
    }
}

/// The percentile probabilities used when a request names none: 1%, 2.5%, 5%, 10%,
/// 25%, 50%, 75%, 90%, 95%, 97.5% and 99%.
pub open spec fn default_percentile_ticks() -> Seq<u64> {
    seq![
        10_000_000u64,
        25_000_000,
        50_000_000,
        100_000_000,
        250_000_000,
        500_000_000,
        750_000_000,
        900_000_000,
        950_000_000,
        975_000_000,
        990_000_000,
    ]
}

/// The default percentile probabilities, in ticks.
pub fn default_percentiles() -> (r: Vec<u64>)
    ensures
        r@ == default_percentile_ticks(),
{
    let r = vec![
        10_000_000u64,
        25_000_000,
        50_000_000,
        100_000_000,
        250_000_000,
        500_000_000,
        750_000_000,
        900_000_000,
        950_000_000,
        975_000_000,
        990_000_000,
    ];
    assert(r@ =~= default_percentile_ticks());
    r
}

impl SimulationRequest {
    /// A request with the default priors (1, 1), 1000 samples, 100 bins, the default
    /// percentiles and seed 0.
    pub fn new(a_tot: u64, a_pos: u64, b_tot: u64, b_pos: u64) -> (r: Self)
        ensures
            r.a_tot == a_tot,
            r.a_pos == a_pos,
            r.b_tot == b_tot,
            r.b_pos == b_pos,
            r.prior_pos == UNIT,
            r.prior_neg == UNIT,
            r.n_samples == 1000,
            r.n_bins == 100,
            r.diff_percentiles@ == default_percentile_ticks(),
            r.seed == 0,
    {
        SimulationRequest {
            a_tot,
            a_pos,
            b_tot,
            b_pos,
            prior_pos: UNIT,
            prior_neg: UNIT,
            n_samples: 1000,
            n_bins: 100,
            diff_percentiles: default_percentiles(),
            seed: 0,
        }
    }
}

/// A validated request: both posteriors, the sizes and the percentiles to locate.
pub struct Plan {
    pub a: BetaParams,
    pub b: BetaParams,
    pub n_samples: usize,
    pub n_bins: usize,
    pub percentiles: Vec<u64>,
    pub seed: u64,
}

impl Plan {
    /// Positive shapes and sizes, and every percentile strictly between 0 and 1.
    pub open spec fn wf(&self) -> bool {
        &&& self.a.alpha > 0 && self.a.beta > 0
        &&& self.b.alpha > 0 && self.b.beta > 0
        &&& self.n_samples >= 1
        &&& self.n_bins >= 1
        &&& forall|k: int|
            0 <= k < self.percentiles.len() ==> is_open_probability(#[trigger] self.percentiles[k])
    }
}

/// Checks a request and derives both posteriors. Fails with the error that
/// `request_error` names, exactly when it names one.
pub fn validate_request(req: &SimulationRequest) -> (r: Result<Plan, SimError>)
    ensures
        r is Err <==> request_error(req) is Some,
        r is Err ==> request_error(req) == Some(r->Err_0),
        r is Ok ==> ({
            let p = r->Ok_0;
            &&& p.wf()
            &&& p.a.alpha == posterior_alpha(req.a_pos, req.prior_pos)
            &&& p.a.beta == posterior_beta(req.a_tot, req.a_pos, req.prior_neg)
            &&& p.b.alpha == posterior_alpha(req.b_pos, req.prior_pos)
            &&& p.b.beta == posterior_beta(req.b_tot, req.b_pos, req.prior_neg)
            &&& p.n_samples == req.n_samples
            &&& p.n_bins == req.n_bins
            &&& p.percentiles@ == req.diff_percentiles@
            &&& p.seed == req.seed
        }),
{
    if req.a_pos > req.a_tot || req.b_pos > req.b_tot || req.prior_pos == 0 || req.prior_neg
        == 0 {
        return Err(SimError::InvalidParameter);
    }
    if req.n_samples == 0 || req.n_bins == 0 {
        return Err(SimError::InvalidCount);
    }
    let mut percentiles: Vec<u64> = Vec::new();
    let mut i: usize = 0;
    while i < req.diff_percentiles.len()
        invariant
            req.a_pos <= req.a_tot && req.b_pos <= req.b_tot,
            req.prior_pos > 0 && req.prior_neg > 0,
            req.n_samples > 0 && req.n_bins > 0,
            i <= req.diff_percentiles.len(),
            percentiles@ == req.diff_percentiles@.take(i as int),
            forall|k: int| 0 <= k < i ==> is_open_probability(#[trigger] req.diff_percentiles[k]),
        decreases req.diff_percentiles.len() - i,
    {
        let p = req.diff_percentiles[i];
        if p == 0 || p >= UNIT {
            assert(!is_open_probability(req.diff_percentiles[i as int]));
            return Err(SimError::InvalidParameter);
        }
        percentiles.push(p);
        proof {
            assert(percentiles@ =~= req.diff_percentiles@.take(i + 1));
        }
        i += 1;
    }
    proof {
        assert(req.diff_percentiles@.take(i as int) =~= req.diff_percentiles@);
        lemma_shapes_positive(req.a_tot, req.a_pos, req.prior_pos, req.prior_neg);
        lemma_shapes_positive(req.b_tot, req.b_pos, req.prior_pos, req.prior_neg);
    }
    let a = posterior_params(req.a_tot, req.a_pos, req.prior_pos, req.prior_neg);
    let b = posterior_params(req.b_tot, req.b_pos, req.prior_pos, req.prior_neg);
    match (a, b) {
        (Ok(a), Ok(b)) => Ok(
            Plan {
                a,
                b,
                n_samples: req.n_samples,
                n_bins: req.n_bins,
                percentiles,
                seed: req.seed,
            },
        ),
        _ => Err(SimError::InvalidParameter),
    }
}

} // verus!

verus! {

/// `[e]` when `b` holds, else nothing.
pub open spec fn flag(b: bool, e: SimError) -> Seq<SimError> {
    if b {
        seq![e]
    } else {
        Seq::empty()
    }
}

/// One `InvalidParameter` per probability of `ps` outside (0, 1), in order.
pub open spec fn percentile_violations(ps: Seq<u64>) -> Seq<SimError>
    decreases ps.len(),
{
    if ps.len() == 0 {
        Seq::empty()
    } else {
        percentile_violations(ps.drop_last()) + flag(
            !is_open_probability(ps.last()),
            SimError::InvalidParameter,
        )
    }
}

/// Every violation of a request, in the order in which `request_error` looks for them.
pub open spec fn violations_of(r: &SimulationRequest) -> Seq<SimError> {
    flag(r.a_pos > r.a_tot, SimError::InvalidParameter) + flag(
        r.b_pos > r.b_tot,
        SimError::InvalidParameter,
    ) + flag(r.prior_pos == 0, SimError::InvalidParameter) + flag(
        r.prior_neg == 0,
        SimError::InvalidParameter,
    ) + flag(r.n_samples == 0, SimError::InvalidCount) + flag(r.n_bins == 0, SimError::InvalidCount)
        + percentile_violations(r.diff_percentiles@)
}

proof fn lemma_percentile_violations(ps: Seq<u64>)
    ensures
        percentile_violations(ps).len() == 0 <==> forall|k: int|
            0 <= k < ps.len() ==> is_open_probability(#[trigger] ps[k]),
        forall|k: int|
            0 <= k < percentile_violations(ps).len() ==> #[trigger] percentile_violations(ps)[k]
                == SimError::InvalidParameter,
    decreases ps.len(),
{
    if ps.len() > 0 {
        let init = ps.drop_last();
        lemma_percentile_violations(init);
        if !is_open_probability(ps.last()) {
            assert(ps[ps.len() - 1] == ps.last());
        }
        assert forall|k: int| 0 <= k < init.len() implies is_open_probability(#[trigger] ps[k])
            == is_open_probability(init[k]) by {}
    }
}

/// A request is rejected exactly when it has a violation, and the error reported is
/// the first violation found.
pub proof fn lemma_first_violation(r: &SimulationRequest)
    ensures
        request_error(r) is None <==> violations_of(r).len() == 0,
        request_error(r) is Some ==> request_error(r) == Some(violations_of(r)[0]),
{
    lemma_percentile_violations(r.diff_percentiles@);
}

/// Lists every violation of a request instead of stopping at the first.
pub fn request_violations(req: &SimulationRequest) -> (r: Vec<SimError>)
    ensures
        r@ == violations_of(req),
{
    let mut r: Vec<SimError> = Vec::new();
    if req.a_pos > req.a_tot {
        r.push(SimError::InvalidParameter);
    }
    if req.b_pos > req.b_tot {
        r.push(SimError::InvalidParameter);
    }
    if req.prior_pos == 0 {
        r.push(SimError::InvalidParameter);
    }
    if req.prior_neg == 0 {
        r.push(SimError::InvalidParameter);
    }
    if req.n_samples == 0 {
        r.push(SimError::InvalidCount);
    }
    if req.n_bins == 0 {
        r.push(SimError::InvalidCount);
    }
    let ghost head = r@;
    assert(head =~= flag(req.a_pos > req.a_tot, SimError::InvalidParameter) + flag(
        req.b_pos > req.b_tot,
        SimError::InvalidParameter,
    ) + flag(req.prior_pos == 0, SimError::InvalidParameter) + flag(
        req.prior_neg == 0,
        SimError::InvalidParameter,
    ) + flag(req.n_samples == 0, SimError::InvalidCount) + flag(req.n_bins == 0, SimError::InvalidCount));
    let ps = &req.diff_percentiles;
    let mut i: usize = 0;
    while i < ps.len()
        invariant
            i <= ps.len(),
            r@ == head + percentile_violations(ps@.take(i as int)),
        decreases ps.len() - i,
    {
        let p = ps[i];
        proof {
            assert(ps@.take(i + 1).drop_last() =~= ps@.take(i as int));
            assert(ps@.take(i + 1).last() == p);
        }
        if p == 0 || p >= UNIT {
            r.push(SimError::InvalidParameter);
        }
        proof {
            assert(r@ =~= head + percentile_violations(ps@.take(i + 1)));
        }
        i += 1;
    }
    proof {
        assert(ps@.take(i as int) =~= ps@);
    }
    r
}

} // verus!
