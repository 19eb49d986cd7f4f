use rare_events::errors::ConfigError;
use rare_events::estimator::ResultingEstimate;
use rare_events::fixed::PROB_ONE;
use rare_events::tempering::{
    exchange_acceptance_probability, Beta, ReplicaSet, Show, Temperature, ToRemove,
};

/// Scaled inverse temperature for a temperature given as a float.
fn beta_of(t: f64) -> Beta {
    Beta::new((4294967296.0 / t).round() as i64)
}

#[test]
fn zero_length_replica_set_is_rejected() {
    assert_eq!(ReplicaSet::new(0, 1).err(), Some(ConfigError::ZeroLength));
    assert!(ReplicaSet::new(50, 1).is_ok());
}

#[test]
fn duplicate_temperature_is_rejected_and_nothing_changes() {
    let mut set = ReplicaSet::new(50, 7).unwrap();
    assert!(set.add_replica(beta_of(0.1)));
    assert!(set.add_replica(beta_of(-0.1)));
    let ids: Vec<u16> = set.replicas().iter().map(|t| t.temperature_id()).collect();
    let configs: Vec<Vec<bool>> =
        set.replicas().iter().map(|t| t.configuration().clone()).collect();

    assert!(!set.add_replica(beta_of(0.1)));

    assert_eq!(set.replicas().len(), 2);
    let ids_after: Vec<u16> = set.replicas().iter().map(|t| t.temperature_id()).collect();
    assert_eq!(ids, ids_after);
    let configs_after: Vec<Vec<bool>> =
        set.replicas().iter().map(|t| t.configuration().clone()).collect();
    assert_eq!(configs, configs_after);
}

#[test]
fn zero_inverse_temperature_is_rejected() {
    let mut set = ReplicaSet::new(10, 7).unwrap();
    assert!(!set.add_replica(Beta::new(0)));
    assert_eq!(set.replicas().len(), 0);
}

#[test]
fn replicas_stay_sorted_in_chain_order() {
    let mut set = ReplicaSet::new(20, 3).unwrap();
    // Negative temperatures come first, in ascending inverse temperature.
    for t in [0.1, 0.025, 0.005, 0.0075, -0.1, -0.01, -0.0075, -0.005] {
        assert!(set.add_replica(beta_of(t)));
    }
    let scaled: Vec<i64> = set.replicas().iter().map(|t| t.beta().scaled).collect();
    let mut sorted = scaled.clone();
    sorted.sort();
    assert_eq!(scaled, sorted);
    assert!(scaled.windows(2).all(|w| w[0] < w[1]));
    // All negatives precede all positives.
    let first_positive = scaled.iter().position(|s| *s > 0).unwrap();
    assert!(scaled[..first_positive].iter().all(|s| *s < 0));
}

#[test]
fn accepted_and_rejected_account_for_every_step() {
    let mut set = ReplicaSet::new(30, 11).unwrap();
    assert!(set.add_replica(beta_of(0.05)));
    assert!(set.add_replica(beta_of(-0.05)));
    for _ in 0..1000 {
        set.markov_step_all();
    }
    for t in set.replicas().iter() {
        assert_eq!(t.steps(), 1000);
        assert_eq!(t.acceptance().accepted() + t.acceptance().rejected(), t.steps());
    }
}

#[test]
fn tracked_heads_always_match_a_full_recount() {
    let mut set = ReplicaSet::new(40, 5).unwrap();
    assert!(set.add_replica(beta_of(0.02)));
    for _ in 0..200 {
        set.markov_step_all();
        let t = &set.replicas()[0];
        let scan = t.configuration().iter().filter(|b| **b).count() as u32;
        assert_eq!(t.number_of_heads(), scan);
    }
}

#[test]
fn exchange_probability_is_a_probability() {
    let mut rng = <rand_pcg::Pcg64 as rand::SeedableRng>::seed_from_u64(17);
    let a = Temperature::new(beta_of(-0.1), 50, &mut rng, 0, 0, 0);
    let b = Temperature::new(beta_of(0.1), 50, &mut rng, 1, 1, 1);
    let p = exchange_acceptance_probability(&a, &b);
    assert!(p <= PROB_ONE);
    // Equal temperatures' magnitudes, equal lengths: if a holds no more
    // heads than b, the exchange is certain.
    if a.number_of_heads() <= b.number_of_heads() {
        assert_eq!(p, PROB_ONE);
    }
}

#[test]
fn exchange_swaps_or_keeps_the_two_configurations() {
    let mut set = ReplicaSet::new(50, 23).unwrap();
    assert!(set.add_replica(beta_of(-0.1)));
    assert!(set.add_replica(beta_of(0.1)));
    for round in 0..50 {
        let before: Vec<Vec<bool>> =
            set.replicas().iter().map(|t| t.configuration().clone()).collect();
        set.try_exchange_pair(0);
        let after: Vec<Vec<bool>> =
            set.replicas().iter().map(|t| t.configuration().clone()).collect();
        let kept = after[0] == before[0] && after[1] == before[1];
        let swapped = after[0] == before[1] && after[1] == before[0];
        assert!(kept || swapped, "round {round}: configurations lost or duplicated");
        // Step a bit so later attempts see fresh configurations.
        set.markov_step_all();
    }
}

#[test]
fn end_to_end_tempering_scenario() {
    // Two replicas at temperatures 0.1 and -0.1 over fifty coins, fixed
    // seed; ten thousand local steps with periodic exchange attempts.
    let mut set = ReplicaSet::new(50, 99).unwrap();
    assert!(set.add_replica(beta_of(0.1)));
    assert!(set.add_replica(beta_of(-0.1)));
    for _ in 0..10_000 {
        set.markov_step_all();
    }
    // The one adjacent pair reports a nonzero attempt count.
    let reps = set.replicas();
    let (ida, idb) = (reps[0].temperature_id(), reps[1].temperature_id());
    let pair = set.get_pair_acceptance(ida, idb).expect("the adjacent pair is tracked");
    assert!(pair.accepted() + pair.rejected() > 0);
    assert!(set.pairs().tries() > 0);
    // Both histograms are non-degenerate: every bin whose analytic
    // Binomial(50, 1/2) probability is at least half a percent was visited.
    let mut pmf = vec![0.0f64; 51];
    let mut c: f64 = 1.0;
    for k in 0..=50u32 {
        pmf[k as usize] = c / (2.0f64).powi(50);
        c = c * (50 - k) as f64 / (k + 1) as f64;
    }
    for t in reps.iter() {
        let h = t.hist().hist();
        for k in 0..=50usize {
            if pmf[k] >= 0.005 {
                assert!(h[k] > 0, "temperature {} never visited bin {k}", t.beta().scaled);
            }
        }
    }
}

#[test]
fn removing_and_resizing_keep_the_set_consistent() {
    let mut set = ReplicaSet::new(20, 31).unwrap();
    for t in [0.1, 0.05, -0.1, -0.05] {
        assert!(set.add_replica(beta_of(t)));
    }
    assert_eq!(set.replicas().len(), 4);
    set.remove(ToRemove::Top);
    assert_eq!(set.replicas().len(), 3);
    set.remove(ToRemove::Bottom);
    assert_eq!(set.replicas().len(), 2);
    set.remove(ToRemove::Nothing);
    assert_eq!(set.replicas().len(), 2);
    for _ in 0..100 {
        set.markov_step_all();
    }
    assert_eq!(set.resize(0).err(), Some(ConfigError::ZeroLength));
    assert_eq!(set.num_coins(), 20);
    set.resize(35).unwrap();
    assert_eq!(set.num_coins(), 35);
    for t in set.replicas().iter() {
        assert_eq!(t.configuration().len(), 35);
        assert_eq!(t.steps(), 0);
        assert_eq!(t.acceptance().accepted(), 0);
        assert_eq!(t.hist().total(), 0);
        assert_eq!(t.history().len(), 0);
    }
    assert_eq!(set.pairs().tries(), 0);
}

#[test]
fn merged_estimate_is_the_weighted_average() {
    let mut set = ReplicaSet::new(10, 13).unwrap();
    assert!(set.add_replica(beta_of(0.2)));
    assert!(set.add_replica(beta_of(-0.2)));
    for _ in 0..500 {
        set.markov_step_all();
    }
    let bins = 11usize;
    // Constant curves make the expected weighted average easy to state.
    let c = [4294967296i64, -8589934592i64];
    let pdfs: Vec<Vec<Option<i64>>> =
        c.iter().map(|v| (0..bins).map(|_| Some(*v)).collect()).collect();
    let est = ResultingEstimate::new(pdfs);
    let merged = est.merged(&set);
    assert_eq!(merged.len(), bins);
    for idx in 0..bins {
        let h0 = set.replicas()[0].hist().hist()[idx] as i128;
        let h1 = set.replicas()[1].hist().hist()[idx] as i128;
        let expected = if h0 + h1 == 0 {
            None
        } else {
            let num = h0 * (if h0 > 0 { c[0] as i128 } else { 0 })
                + h1 * (if h1 > 0 { c[1] as i128 } else { 0 });
            Some((num.div_euclid(h0 + h1)) as i64)
        };
        assert_eq!(merged[idx], expected, "bin {idx}");
    }
}

#[test]
fn show_toggles_and_counts() {
    let mut s = Show::No;
    assert!(!s.is_show());
    assert_eq!(s.to_num(), 0);
    s.toggle();
    assert!(s.is_show());
    assert_eq!(s.to_num(), 1);
    s.toggle();
    assert!(!s.is_show());
}

#[test]
fn a_single_replica_has_no_exchange_partner() {
    let mut set = ReplicaSet::new(5, 41).unwrap();
    assert!(set.add_replica(beta_of(0.5)));
    for _ in 0..20 {
        set.markov_step_all();
    }
    set.try_exchanges();
    assert_eq!(set.replicas().len(), 1);
    let id = set.replicas()[0].temperature_id();
    assert!(set.get_pair_acceptance(id, id).is_none());
    assert!(set.get_pair_acceptance(id, id + 1).is_none());
}

#[test]
fn pair_tracking_follows_removal() {
    let mut set = ReplicaSet::new(5, 43).unwrap();
    for t in [0.5, 0.25, -0.5] {
        assert!(set.add_replica(beta_of(t)));
    }
    let ids: Vec<u16> = set.replicas().iter().map(|t| t.temperature_id()).collect();
    assert!(set.get_pair_acceptance(ids[0], ids[1]).is_some());
    assert!(set.get_pair_acceptance(ids[2], ids[1]).is_some());
    // The outer pair is not temperature-adjacent.
    assert!(set.get_pair_acceptance(ids[0], ids[2]).is_none());
    // Removing the middle replica makes the outer pair adjacent.
    set.remove(ToRemove::Idx(1));
    let ids_after: Vec<u16> = set.replicas().iter().map(|t| t.temperature_id()).collect();
    assert_eq!(ids_after.len(), 2);
    assert!(set.get_pair_acceptance(ids_after[0], ids_after[1]).is_some());
}

#[test]
fn the_smallest_configuration_works() {
    let mut set = ReplicaSet::new(1, 47).unwrap();
    assert!(set.add_replica(beta_of(1.0)));
    for _ in 0..50 {
        set.markov_step_all();
    }
    let t = &set.replicas()[0];
    assert!(t.number_of_heads() <= 1);
    assert_eq!(t.hist().hist().len(), 2);
}

#[test]
fn resizing_truncates_or_extends_the_prefix() {
    let mut set = ReplicaSet::new(30, 53).unwrap();
    assert!(set.add_replica(beta_of(0.5)));
    let before = set.replicas()[0].configuration().clone();
    set.resize(12).unwrap();
    let shorter = set.replicas()[0].configuration().clone();
    assert_eq!(&before[..12], &shorter[..]);
    set.resize(20).unwrap();
    let longer = set.replicas()[0].configuration().clone();
    assert_eq!(&longer[..12], &shorter[..]);
    assert_eq!(longer.len(), 20);
}

#[test]
fn exchange_attempts_record_energies_and_history() {
    let mut set = ReplicaSet::new(30, 71).unwrap();
    assert!(set.add_replica(beta_of(-0.2)));
    assert!(set.add_replica(beta_of(0.2)));
    // One local step fills the histories, so a rejection has something to
    // repeat.
    set.markov_step_all();
    for _ in 0..20 {
        let before: Vec<(Vec<bool>, u64, usize, (u8, u32))> = set
            .replicas()
            .iter()
            .map(|t| {
                (
                    t.configuration().clone(),
                    t.hist().total(),
                    t.history().len(),
                    *t.history().last().unwrap(),
                )
            })
            .collect();
        set.try_exchange_pair(0);
        let reps = set.replicas();
        let swapped = *reps[0].configuration() == before[1].0;
        for (r, (config, total, hist_len, last)) in reps.iter().zip(before.iter()) {
            if swapped {
                // Accepted: the new energy went into histogram and history.
                let heads = r.number_of_heads();
                assert_eq!(r.hist().total(), total + 1);
                assert_eq!(r.history().len(), hist_len + 1);
                assert_eq!(r.history().last().unwrap().1, heads);
            } else {
                // Rejected: configurations kept, histogram untouched, the
                // newest history entry repeated.
                assert_eq!(r.configuration(), config);
                assert_eq!(r.hist().total(), *total);
                assert_eq!(r.history().len(), hist_len + 1);
                assert_eq!(r.history().last().unwrap(), last);
            }
        }
    }
}

#[test]
fn removal_preserves_counts_of_pairs_that_stay_adjacent() {
    let mut set = ReplicaSet::new(25, 73).unwrap();
    for t in [0.1, 0.05, -0.1] {
        assert!(set.add_replica(beta_of(t)));
    }
    for _ in 0..500 {
        set.markov_step_all();
    }
    let reps = set.replicas();
    let (id0, id1) = (reps[0].temperature_id(), reps[1].temperature_id());
    let id2 = reps[2].temperature_id();
    let kept = set.get_pair_acceptance(id0, id1).unwrap();
    let kept_counts = (kept.accepted(), kept.rejected());
    assert!(kept_counts.0 + kept_counts.1 > 0, "no exchange attempts happened");
    // Removing the top replica keeps the bottom pair adjacent, with its
    // statistics, and drops the other pair.
    set.remove(ToRemove::Top);
    let still = set.get_pair_acceptance(id0, id1).unwrap();
    assert_eq!((still.accepted(), still.rejected()), kept_counts);
    assert!(set.get_pair_acceptance(id1, id2).is_none());
}
