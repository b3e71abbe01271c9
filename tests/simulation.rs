use bayesian_ab::error::SimError;
use bayesian_ab::histogram::{bin_index, samples_to_hist};
use bayesian_ab::percentile::{locate_percentile, nearest_rank_index};
use bayesian_ab::posterior::{
    default_percentiles, posterior_params, request_violations, validate_request, BetaParams,
    SimulationRequest,
};
use bayesian_ab::sampler::summarize_draws;
use bayesian_ab::simulation::compute;
use bayesian_ab::UNIT;
use rand::distributions::Distribution;
use rand::SeedableRng;
use rand_pcg::Pcg64;
use statrs::distribution::Beta;

fn ticks(x: f64) -> u64 {
    (x * UNIT as f64).round() as u64
}

fn draw(params: BetaParams, n: usize, rng: &mut Pcg64) -> Vec<i64> {
    let dist = Beta::new(
        params.alpha as f64 / UNIT as f64,
        params.beta as f64 / UNIT as f64,
    )
    .unwrap();
    (0..n)
        .map(|_| (dist.sample(rng) * UNIT as f64).round() as i64)
        .collect()
}

fn request(a_tot: f64, a_pos: f64, b_tot: f64, b_pos: f64) -> SimulationRequest {
    SimulationRequest::new(ticks(a_tot), ticks(a_pos), ticks(b_tot), ticks(b_pos))
}

#[test]
fn posterior_params_adds_prior_and_counts() {
    let p = posterior_params(ticks(10.0), ticks(3.0), ticks(1.0), ticks(2.0)).unwrap();
    assert_eq!(p.alpha, 4 * UNIT as u128);
    assert_eq!(p.beta, 9 * UNIT as u128);
    assert_eq!(
        posterior_params(ticks(10.0), ticks(11.0), ticks(1.0), ticks(1.0)),
        Err(SimError::InvalidParameter)
    );
    assert_eq!(posterior_params(5, 0, 0, 1), Err(SimError::InvalidParameter));
}

#[test]
fn shape_parameters_positive_for_valid_requests() {
    for (tot, pos) in [(0.0, 0.0), (100.0, 100.0), (100.0, 0.0), (7.5, 2.5)] {
        let p = posterior_params(ticks(tot), ticks(pos), ticks(0.001), ticks(0.001)).unwrap();
        assert!(p.alpha > 0 && p.beta > 0);
    }
}

#[test]
fn invalid_counts_are_rejected() {
    let mut req = request(100.0, 50.0, 100.0, 50.0);
    req.n_samples = 0;
    assert!(matches!(validate_request(&req), Err(SimError::InvalidCount)));
    let mut req = request(100.0, 50.0, 100.0, 50.0);
    req.n_bins = 0;
    assert!(matches!(validate_request(&req), Err(SimError::InvalidCount)));
    let req = request(100.0, 101.0, 100.0, 50.0);
    assert!(matches!(validate_request(&req), Err(SimError::InvalidParameter)));
    let req = request(100.0, 50.0, 10.0, 11.0);
    assert!(matches!(validate_request(&req), Err(SimError::InvalidParameter)));
    let mut req = request(100.0, 50.0, 100.0, 50.0);
    req.prior_neg = 0;
    assert!(matches!(validate_request(&req), Err(SimError::InvalidParameter)));
}

#[test]
fn percentile_probability_bounds_are_rejected() {
    for p in [0, UNIT, UNIT + 1] {
        let mut req = request(100.0, 50.0, 100.0, 50.0);
        req.diff_percentiles = vec![ticks(0.5), p];
        assert!(matches!(validate_request(&req), Err(SimError::InvalidParameter)));
    }
    let hist = samples_to_hist(&vec![1, 2, 3], 1, 3, 2).unwrap();
    assert_eq!(locate_percentile(&vec![1, 2, 3], &hist, 0), Err(SimError::InvalidParameter));
    assert_eq!(locate_percentile(&vec![1, 2, 3], &hist, UNIT), Err(SimError::InvalidParameter));
}

#[test]
fn defaults_of_a_request() {
    let req = request(100.0, 50.0, 100.0, 40.0);
    assert_eq!(req.prior_pos, UNIT);
    assert_eq!(req.prior_neg, UNIT);
    assert_eq!(req.n_samples, 1000);
    assert_eq!(req.n_bins, 100);
    assert_eq!(req.seed, 0);
    assert_eq!(
        default_percentiles(),
        vec![
            ticks(0.01),
            ticks(0.025),
            ticks(0.05),
            ticks(0.1),
            ticks(0.25),
            ticks(0.5),
            ticks(0.75),
            ticks(0.9),
            ticks(0.95),
            ticks(0.975),
            ticks(0.99)
        ]
    );
    let plan = validate_request(&req).unwrap();
    assert_eq!(plan.a.alpha, 51 * UNIT as u128);
    assert_eq!(plan.b.beta, 61 * UNIT as u128);
    assert_eq!(plan.percentiles.len(), 11);
}

#[test]
fn bin_index_clamps_and_handles_edges() {
    assert_eq!(bin_index(0, 0, 100, 10), 0);
    assert_eq!(bin_index(9, 0, 100, 10), 0);
    assert_eq!(bin_index(10, 0, 100, 10), 1);
    assert_eq!(bin_index(55, 0, 100, 10), 5);
    assert_eq!(bin_index(99, 0, 100, 10), 9);
    assert_eq!(bin_index(100, 0, 100, 10), 9);
    assert_eq!(bin_index(-5, 0, 100, 10), 0);
    assert_eq!(bin_index(500, 0, 100, 10), 9);
    assert_eq!(bin_index(-30, -100, 100, 4), 1);
    assert_eq!(bin_index(7, 7, 7, 10), 0);
    assert_eq!(bin_index(i64::MAX, i64::MIN, i64::MAX, usize::MAX), usize::MAX - 1);
}

#[test]
fn histogram_counts_every_sample_once() {
    let samples = vec![0, 10, 20, 25, 50, 99, 100, 100];
    let h = samples_to_hist(&samples, 0, 100, 4).unwrap();
    assert_eq!(h.counts, vec![3, 1, 1, 3]);
    assert_eq!(h.max_count, 3);
    assert_eq!(h.counts.iter().sum::<usize>(), samples.len());
    assert_eq!(h.min, 0);
    assert_eq!(h.max, 100);
}

#[test]
fn histogram_of_degenerate_range_uses_bin_zero() {
    let h = samples_to_hist(&vec![5, 5, 5], 5, 5, 3).unwrap();
    assert_eq!(h.counts, vec![3, 0, 0]);
    assert_eq!(h.max_count, 3);
}

#[test]
fn histogram_without_bins_is_rejected() {
    assert!(matches!(samples_to_hist(&vec![1, 2], 1, 2, 0), Err(SimError::InvalidCount)));
}

#[test]
fn nearest_rank_index_law() {
    assert_eq!(nearest_rank_index(ticks(0.5), 1000), 500);
    assert_eq!(nearest_rank_index(ticks(0.01), 1000), 10);
    assert_eq!(nearest_rank_index(ticks(0.975), 1000), 975);
    assert_eq!(nearest_rank_index(ticks(0.999), 10), 9);
    assert_eq!(nearest_rank_index(UNIT, 10), 9);
    assert_eq!(nearest_rank_index(ticks(0.3), 1), 0);
}

#[test]
fn percentile_is_located_in_its_bin() {
    let sorted: Vec<i64> = (0..10).collect();
    let hist = samples_to_hist(&sorted, 0, 9, 3).unwrap();
    assert_eq!(hist.counts, vec![3, 3, 4]);
    let m = locate_percentile(&sorted, &hist, ticks(0.5)).unwrap();
    assert_eq!(m.probability, ticks(0.5));
    assert_eq!(m.value, 5);
    assert_eq!(m.bin_index, 1);
    assert_eq!(m.count_at_bin, 3);
    let top = locate_percentile(&sorted, &hist, ticks(0.99)).unwrap();
    assert_eq!(top.value, 9);
    assert_eq!(top.bin_index, 2);
    assert_eq!(top.count_at_bin, 4);
}

#[test]
fn summary_counts_strict_wins_and_extrema() {
    let a = vec![100, 500, 300, 700];
    let b = vec![200, 500, 100, 900];
    let s = summarize_draws(a.clone(), b.clone()).unwrap();
    assert_eq!(s.wins, 2);
    assert_eq!(s.samples.a, a);
    assert_eq!(s.samples.b, b);
    assert_eq!(s.samples.diff, vec![100, 0, -200, 200]);
    assert_eq!((s.min_ab, s.max_ab), (100, 900));
    assert_eq!((s.min_diff, s.max_diff), (-200, 200));
    assert!(matches!(
        summarize_draws(vec![], vec![]),
        Err(SimError::InsufficientData)
    ));
}

#[test]
fn compute_on_fixed_draws() {
    let mut req = request(10.0, 5.0, 10.0, 5.0);
    req.n_bins = 2;
    req.diff_percentiles = vec![ticks(0.5)];
    let plan = validate_request(&req).unwrap();
    let a = vec![0, 400, 200, 600];
    let b = vec![100, 300, 800, 600];
    let r = compute(&plan, a, b).unwrap();
    assert_eq!(r.wins, 2);
    assert_eq!(r.n_samples, 4);
    assert_eq!(r.win_probability(), UNIT / 2);
    assert_eq!((r.a_histogram.min, r.a_histogram.max), (0, 800));
    assert_eq!(r.a_histogram.counts, vec![2, 2]);
    assert_eq!(r.b_histogram.counts, vec![2, 2]);
    assert_eq!((r.diff_histogram.min, r.diff_histogram.max), (-100, 600));
    assert_eq!(r.diff_histogram.counts, vec![3, 1]);
    assert_eq!(r.percentile_results.len(), 1);
    let m = r.percentile_results[0];
    assert_eq!(m.value, 100);
    assert_eq!(m.bin_index, 0);
    assert_eq!(m.count_at_bin, 3);
    assert!(matches!(compute(&plan, vec![], vec![]), Err(SimError::InsufficientData)));
}

#[test]
fn win_probability_in_unit_interval() {
    let req = request(100.0, 20.0, 100.0, 80.0);
    let plan = validate_request(&req).unwrap();
    let mut rng = Pcg64::seed_from_u64(3);
    let a = draw(plan.a, plan.n_samples, &mut rng);
    let b = draw(plan.b, plan.n_samples, &mut rng);
    let r = compute(&plan, a, b).unwrap();
    assert!(r.wins <= r.n_samples);
    assert!(r.win_probability() <= UNIT);
    assert!(r.win_probability() > UNIT * 99 / 100);
}

#[test]
fn histogram_totals_equal_sample_count() {
    let req = request(30.0, 12.0, 40.0, 25.0);
    let plan = validate_request(&req).unwrap();
    let mut rng = Pcg64::seed_from_u64(11);
    let a = draw(plan.a, plan.n_samples, &mut rng);
    let b = draw(plan.b, plan.n_samples, &mut rng);
    let r = compute(&plan, a, b).unwrap();
    for h in [&r.a_histogram, &r.b_histogram, &r.diff_histogram] {
        assert_eq!(h.counts.len(), 100);
        assert_eq!(h.counts.iter().sum::<usize>(), 1000);
        assert_eq!(h.max_count, *h.counts.iter().max().unwrap());
    }
    assert_eq!(r.percentile_results.len(), 11);
    for m in r.percentile_results.iter() {
        assert!(m.bin_index < 100);
        assert_eq!(m.count_at_bin, r.diff_histogram.counts[m.bin_index]);
    }
}

#[test]
fn equal_variants_win_about_half() {
    let req = request(100.0, 50.0, 100.0, 50.0);
    let plan = validate_request(&req).unwrap();
    for seed in 0..5 {
        let mut rng = Pcg64::seed_from_u64(seed);
        let a = draw(plan.a, plan.n_samples, &mut rng);
        let b = draw(plan.b, plan.n_samples, &mut rng);
        let r = compute(&plan, a, b).unwrap();
        let w = r.win_probability();
        assert!(w >= ticks(0.45) && w <= ticks(0.55), "seed {} gave {}", seed, w);
        let centre = r.diff_histogram.min + r.diff_histogram.max;
        assert!(centre.abs() < ticks(0.1) as i64);
    }
}

#[test]
fn flat_prior_without_data_is_uniform() {
    let mut req = request(0.0, 0.0, 0.0, 0.0);
    req.n_samples = 2000;
    let plan = validate_request(&req).unwrap();
    assert_eq!(plan.a, BetaParams { alpha: UNIT as u128, beta: UNIT as u128 });
    let mut rng = Pcg64::seed_from_u64(0);
    let a = draw(plan.a, plan.n_samples, &mut rng);
    let h = samples_to_hist(&a, 0, UNIT as i64, 10).unwrap();
    let expected = 200.0;
    let chi2: f64 = h
        .counts
        .iter()
        .map(|c| (*c as f64 - expected).powi(2) / expected)
        .sum();
    // chi-square critical value for 9 degrees of freedom at the 0.001 level
    assert!(chi2 < 27.88, "chi-square {}", chi2);
}

#[test]
fn every_violation_is_listed() {
    let mut req = request(100.0, 101.0, 100.0, 50.0);
    req.n_bins = 0;
    req.diff_percentiles = vec![0, ticks(0.5), UNIT];
    assert_eq!(
        request_violations(&req),
        vec![
            SimError::InvalidParameter,
            SimError::InvalidCount,
            SimError::InvalidParameter,
            SimError::InvalidParameter
        ]
    );
    assert!(matches!(validate_request(&req), Err(SimError::InvalidParameter)));
    assert!(request_violations(&request(10.0, 5.0, 10.0, 5.0)).is_empty());
}
