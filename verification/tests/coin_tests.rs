use rand::SeedableRng;

use rare_events::coin::{CoinFlip, CoinFlipSequence};

fn seq_of(n: usize, seed: u64) -> CoinFlipSequence {
    CoinFlipSequence::new(n, rand_pcg::Pcg64::seed_from_u64(seed))
}

#[test]
fn turn_inverts() {
    let mut c = CoinFlip::Head;
    c.turn();
    assert_eq!(c, CoinFlip::Tail);
    c.turn();
    assert_eq!(c, CoinFlip::Head);
}

#[test]
fn head_count_matches_incremental_tracking() {
    // One hundred markov steps; after each, the incrementally updated head
    // count must match a full recount.
    let mut seq = seq_of(50, 7);
    let mut heads = seq.head_count();
    for _ in 0..100 {
        let step = seq.m_step();
        seq.update_head_count(&step, &mut heads);
        assert_eq!(heads, seq.head_count());
    }
}

#[test]
fn undo_restores_configuration() {
    let mut seq = seq_of(32, 99);
    let snapshot = seq.head_count();
    for _ in 0..20 {
        let step = seq.m_step();
        seq.undo_step(&step);
    }
    assert_eq!(seq.head_count(), snapshot);
}

#[test]
fn undo_batch_restores_configuration() {
    let mut seq = seq_of(16, 3);
    let h0 = seq.head_count();
    let mut moves = Vec::new();
    seq.m_steps(10, &mut moves);
    seq.steps_rejected(&moves);
    seq.undo_steps_quiet(&moves);
    assert_eq!(seq.head_count(), h0);
}
