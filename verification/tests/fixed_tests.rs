use rare_events::fixed::{exp_neg, mul_q63, pow_q63, EXP_NEG_TICK, LOG_CUTOFF, LOG_UNIT, PROB_ONE};

#[test]
fn one_is_neutral_for_multiplication() {
    assert_eq!(mul_q63(PROB_ONE, PROB_ONE), PROB_ONE);
    assert_eq!(mul_q63(PROB_ONE, 12345), 12345);
    assert_eq!(mul_q63(12345, PROB_ONE), 12345);
    assert_eq!(mul_q63(0, PROB_ONE), 0);
}

#[test]
fn half_times_half_is_a_quarter() {
    let half = PROB_ONE / 2;
    assert_eq!(mul_q63(half, half), PROB_ONE / 4);
}

#[test]
fn powers_of_one_and_zero() {
    assert_eq!(pow_q63(PROB_ONE, 0), PROB_ONE);
    assert_eq!(pow_q63(PROB_ONE, 1000), PROB_ONE);
    assert_eq!(pow_q63(0, 1), 0);
    assert_eq!(pow_q63(EXP_NEG_TICK, 0), PROB_ONE);
}

#[test]
fn exp_neg_matches_the_exponential() {
    assert_eq!(exp_neg(0), PROB_ONE);
    assert_eq!(exp_neg(LOG_CUTOFF as u128), 0);
    assert_eq!(exp_neg(u128::MAX), 0);
    // One natural-log unit: exp(-1).
    let one = exp_neg(LOG_UNIT as u128) as f64 / PROB_ONE as f64;
    assert!((one - (-1.0f64).exp()).abs() < 1e-6, "exp(-1) came out as {one}");
    // A fifth of a unit: exp(-0.2), the local acceptance step of the
    // end-to-end tempering scenario.
    let fifth = exp_neg((LOG_UNIT / 5) as u128) as f64 / PROB_ONE as f64;
    assert!((fifth - (-0.2f64).exp()).abs() < 1e-6, "exp(-0.2) came out as {fifth}");
    // Several units at once.
    let eight = exp_neg((8 * LOG_UNIT) as u128) as f64 / PROB_ONE as f64;
    assert!((eight - (-8.0f64).exp()).abs() < 1e-9, "exp(-8) came out as {eight}");
}

#[test]
fn probabilities_never_leave_the_unit_interval() {
    for x in [0u128, 1, 17, 1 << 20, 1 << 32, 1 << 40, (1 << 44) - 1, 1 << 44, 1 << 90] {
        let p = exp_neg(x);
        assert!(p <= PROB_ONE);
    }
}
