use rare_events::errors::ConfigError;
use rare_events::fixed::LOG_UNIT;
use rare_events::wang_landau::{Speed, WangLandauConfig, WangLandauEngine};

fn config(length: u32, seed: u64, target_log_f: u64) -> WangLandauConfig {
    WangLandauConfig {
        coin_sequence_length: length,
        seed,
        target_log_f,
        check_interval: 1000,
        flatness_num: 9,
        flatness_den: 10,
        greedy_cap: 1_000_000,
    }
}

#[test]
fn bad_configurations_are_rejected() {
    assert_eq!(WangLandauEngine::new(config(0, 1, 42)).err(), Some(ConfigError::ZeroLength));
    assert_eq!(
        WangLandauEngine::new(config(16, 1, 0)).err(),
        Some(ConfigError::NonPositiveThreshold)
    );
    let mut c = config(16, 1, 42);
    c.check_interval = 0;
    assert_eq!(WangLandauEngine::new(c).err(), Some(ConfigError::ZeroCheckInterval));
    let mut c = config(16, 1, 42);
    c.flatness_num = 11;
    c.flatness_den = 10;
    assert_eq!(WangLandauEngine::new(c).err(), Some(ConfigError::InvalidFlatness));
    let mut c = config(16, 1, 42);
    c.flatness_den = 0;
    assert_eq!(WangLandauEngine::new(c).err(), Some(ConfigError::InvalidFlatness));
}

#[test]
fn threshold_can_move_but_not_vanish() {
    let mut wl = WangLandauEngine::new(config(8, 5, 42)).unwrap();
    assert_eq!(wl.threshold(), 42);
    wl.set_threshold(1000).unwrap();
    assert_eq!(wl.threshold(), 1000);
    assert_eq!(wl.set_threshold(0).err(), Some(ConfigError::NonPositiveThreshold));
    assert_eq!(wl.threshold(), 1000);
}

#[test]
fn log_f_starts_at_one_and_never_increases() {
    let mut wl = WangLandauEngine::new(config(10, 2, 42)).unwrap();
    assert_eq!(wl.log_f(), LOG_UNIT);
    let mut last = wl.log_f();
    for _ in 0..200 {
        wl.sample(1000);
        assert!(wl.log_f() <= last);
        last = wl.log_f();
        if wl.is_converged() {
            break;
        }
    }
}

#[test]
fn sample_takes_exactly_the_budgeted_steps_until_convergence() {
    let mut wl = WangLandauEngine::new(config(10, 3, 42)).unwrap();
    assert_eq!(wl.step_counter(), 0);
    wl.sample(123);
    assert!(wl.step_counter() == 123 || wl.is_converged());
    // Slow motion means small budgets; the engine itself is agnostic.
    assert!(Speed::SlowMotion.is_slow_motion());
    assert!(!Speed::Regular.is_slow_motion());
}

#[test]
fn histogram_total_counts_every_recorded_step() {
    let mut wl = WangLandauEngine::new(config(10, 4, 1)).unwrap();
    wl.sample(500);
    // The current histogram holds exactly the samples since the last
    // flatness restart, so its total never exceeds the step counter, and
    // its bins sum to its total.
    let h = wl.hist();
    let sum: u64 = h.hist().iter().sum();
    assert_eq!(sum, h.total());
    assert!(h.total() <= wl.step_counter());
}

#[test]
fn accepted_and_rejected_steps_account_for_every_step() {
    let mut wl = WangLandauEngine::new(config(12, 8, 42)).unwrap();
    wl.sample(2000);
    let e = wl.ensemble();
    assert_eq!(e.steps(), wl.step_counter());
    assert_eq!(e.accepted() + e.rejected(), e.steps());
}

/// Exact `log10` of the Binomial(n, 1/2) probability mass function.
fn log10_binomial_pmf(n: u32, k: u32) -> f64 {
    let mut c: f64 = 0.0;
    for i in 0..k {
        c += ((n - i) as f64).log10() - ((i + 1) as f64).log10();
    }
    c - n as f64 * (2.0f64).log10()
}

#[test]
fn converged_estimate_matches_the_binomial_density() {
    // Sixteen coins or fewer, fixed seed, run until the modification
    // factor is at or below 1e-8: the normalized estimate matches the
    // exact Binomial(L, 1/2) mass function within 0.05 in log10 at every
    // bin.
    let length = 12u32;
    let threshold = (1e-8 * 4294967296.0) as u64;
    let mut wl = WangLandauEngine::new(config(length, 1234, threshold)).unwrap();
    let mut rounds = 0u64;
    while !wl.is_converged() {
        wl.sample(100_000);
        rounds += 1;
        assert!(rounds < 10_000, "the run did not converge");
    }
    assert!(wl.log_f() <= threshold);

    let ld = wl.log_density();
    assert_eq!(ld.len(), length as usize + 1);
    let ln_est: Vec<f64> = ld
        .iter()
        .map(|o| o.expect("an energy bin was never reached") as f64 / 4294967296.0)
        .collect();
    let m = ln_est.iter().cloned().fold(f64::NEG_INFINITY, f64::max);
    let ln_sum = m + ln_est.iter().map(|v| (v - m).exp()).sum::<f64>().ln();
    for k in 0..=length {
        let est = (ln_est[k as usize] - ln_sum) * std::f64::consts::LOG10_E;
        let exact = log10_binomial_pmf(length, k);
        assert!(
            (est - exact).abs() < 0.05,
            "bin {k}: estimated {est}, exact {exact}"
        );
    }
}

#[test]
fn walker_energy_is_the_head_count() {
    let mut wl = WangLandauEngine::new(config(20, 6, 42)).unwrap();
    for _ in 0..50 {
        wl.sample(10);
        let heads = wl.ensemble().head_count();
        assert_eq!(wl.energy(), heads);
    }
}

#[test]
fn unreached_bins_carry_no_estimate() {
    // No greedy effort and no sampling: only the walker's starting bin has
    // been reached, and only it carries an estimate.
    let mut c = config(30, 9, 42);
    c.greedy_cap = 0;
    let wl = WangLandauEngine::new(c).unwrap();
    let ld = wl.log_density();
    let start = wl.energy() as usize;
    for (k, v) in ld.iter().enumerate() {
        if k == start {
            assert_eq!(*v, Some(0));
        } else {
            assert_eq!(*v, None);
        }
    }
}

#[test]
fn the_default_configuration_is_accepted() {
    let c = WangLandauConfig::default();
    assert_eq!(c.coin_sequence_length, 500);
    let mut wl = WangLandauEngine::new(c).unwrap();
    wl.sample(100);
    assert_eq!(wl.step_counter(), 100);
}
