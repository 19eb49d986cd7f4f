use rand::SeedableRng;

use rare_events::coin::CoinFlipSequence;
use rare_events::histogram::Histogram;
use rare_events::ring_buffer::RingBuffer;

#[test]
fn histogram_sum_equals_samples_recorded() {
    let mut h = Histogram::new(10);
    assert_eq!(h.bin_count(), 11);
    assert_eq!(h.total(), 0);
    for v in [0u32, 5, 5, 10, 3, 5, 0] {
        h.increment_quiet(v);
    }
    // Out-of-range samples are ignored quietly.
    h.increment_quiet(11);
    h.increment_quiet(u32::MAX);
    let sum: u64 = h.hist().iter().sum();
    assert_eq!(sum, 7);
    assert_eq!(h.total(), 7);
    assert_eq!(h.count(5), 3);
    assert_eq!(h.count(0), 2);
    h.reset();
    assert_eq!(h.total(), 0);
    assert_eq!(h.hist().iter().sum::<u64>(), 0);
    assert_eq!(h.bin_count(), 11);
}

#[test]
fn ring_buffer_keeps_the_newest_entries() {
    let mut r: RingBuffer<(u8, u32)> = RingBuffer::new(3);
    assert_eq!(r.len(), 0);
    r.push((0, 1));
    r.push((0, 2));
    r.push((0, 3));
    assert_eq!(r.iter(), vec![(0, 1), (0, 2), (0, 3)]);
    r.push((0, 4));
    assert_eq!(r.len(), 3);
    assert_eq!(r.iter(), vec![(0, 2), (0, 3), (0, 4)]);
    r.repeat_last();
    assert_eq!(r.iter(), vec![(0, 3), (0, 4), (0, 4)]);
    r.reset();
    assert_eq!(r.len(), 0);
    // Repeating on an empty buffer fails silently.
    r.repeat_last();
    assert_eq!(r.len(), 0);
    r.push((1, 9));
    r.repeat_last();
    assert_eq!(r.iter(), vec![(1, 9), (1, 9)]);
}

#[test]
fn fresh_sequences_depend_on_the_seed() {
    let a = CoinFlipSequence::new(64, rand_pcg::Pcg64::seed_from_u64(1));
    let b = CoinFlipSequence::new(64, rand_pcg::Pcg64::seed_from_u64(2));
    // A generator that handed back a constant would make both counts
    // extreme.
    let (ha, hb) = (a.head_count(), b.head_count());
    assert!(ha > 0 && ha < 64);
    assert!(hb > 0 && hb < 64);
}

#[test]
fn a_ring_buffer_of_one_keeps_only_the_newest() {
    let mut r: RingBuffer<(u8, u32)> = RingBuffer::new(1);
    r.push((0, 1));
    r.push((0, 2));
    assert_eq!(r.iter(), vec![(0, 2)]);
    r.repeat_last();
    assert_eq!(r.iter(), vec![(0, 2)]);
}

#[test]
fn the_smallest_histogram_has_one_bin() {
    let mut h = Histogram::new(0);
    assert_eq!(h.bin_count(), 1);
    h.increment_quiet(0);
    h.increment_quiet(1);
    assert_eq!(h.total(), 1);
    assert_eq!(h.count(0), 1);
}
