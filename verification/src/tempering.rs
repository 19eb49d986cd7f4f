//! Replica exchange (parallel tempering) over the binary ensemble.
//!
//! A replica set owns independent configurations, each tagged with an
//! inverse temperature.  Every scheduling tick each replica makes one local
//! Metropolis step; after every `L` ticks (`L` the configuration length)
//! the set attempts exchanges between temperature-adjacent replicas.
//!
//! Temperatures are carried as scaled inverse temperatures (see
//! [`crate::fixed`]): the integer `scaled` stands for `scaled / 2^32 = 1/T`.
//! The chain order that places population-inverted (negative-temperature)
//! replicas before positive-temperature ones is then simply ascending
//! `scaled`, and every acceptance rule is exact integer arithmetic.

use vstd::prelude::*;

use crate::coin::spec_heads;
use crate::errors::ConfigError;
use crate::fixed::{exp_neg, spec_exp_neg, PROB_ONE};
use crate::histogram::Histogram;
use crate::ring_buffer::{fifo_pushed, RingBuffer};
use crate::rng::{rng_below, rng_next_u64};

verus! {

/// Scaled inverse temperature: `scaled` stands for `scaled / 2^32 = 1/T`.
/// A zero value stands for no finite nonzero temperature and is rejected
/// wherever a replica is created.
#[derive(Debug, Clone, Copy, PartialEq, Eq, Structural)]
pub struct Beta {
    pub scaled: i64,
}

impl Beta {
    /// The inverse temperature carries a usable sign and magnitude.
    pub open spec fn valid(self) -> bool {
        self.scaled != 0
    }

    /// The temperature is positive (heads are favored to leave) when the
    /// inverse temperature is.
    pub open spec fn is_positive(self) -> bool {
        self.scaled > 0
    }

    pub fn new(scaled: i64) -> (r: Beta)
        ensures
            r.scaled == scaled,
    {
        Beta { scaled }
    }
}

/// Counts accepted and rejected moves.  Each count saturates at its
/// capacity instead of wrapping.
#[derive(Debug)]
pub struct AcceptanceCounter {
    accepted: u64,
    rejected: u64,
}

impl Default for AcceptanceCounter {
    fn default() -> (r: AcceptanceCounter)
        ensures
            r.spec_accepted() == 0,
            r.spec_rejected() == 0,
    {
        AcceptanceCounter { accepted: 0, rejected: 0 }
    }
}

impl AcceptanceCounter {
    pub closed spec fn spec_accepted(&self) -> u64 {
        self.accepted
    }

    pub closed spec fn spec_rejected(&self) -> u64 {
        self.rejected
    }

    pub fn accepted(&self) -> (r: u64)
        ensures
            r == self.spec_accepted(),
    {
        self.accepted
    }

    pub fn rejected(&self) -> (r: u64)
        ensures
            r == self.spec_rejected(),
    {
        self.rejected
    }

    /// Count one accepted move.
    pub fn count_acceptance(&mut self)
        ensures
            final(self).spec_accepted() == if old(self).spec_accepted() < u64::MAX {
                old(self).spec_accepted() + 1
            } else {
                old(self).spec_accepted() as int
            },
            final(self).spec_rejected() == old(self).spec_rejected(),
    {
        if self.accepted < u64::MAX {
            self.accepted = self.accepted + 1;
        }
    }

    /// Count one rejected move.
    pub fn count_rejected(&mut self)
        ensures
            final(self).spec_rejected() == if old(self).spec_rejected() < u64::MAX {
                old(self).spec_rejected() + 1
            } else {
                old(self).spec_rejected() as int
            },
            final(self).spec_accepted() == old(self).spec_accepted(),
    {
        if self.rejected < u64::MAX {
            self.rejected = self.rejected + 1;
        }
    }

    /// Forget all counts.
    pub fn reset(&mut self)
        ensures
            final(self).spec_accepted() == 0,
            final(self).spec_rejected() == 0,
    {
        self.accepted = 0;
        self.rejected = 0;
    }
}

/// Which replica to remove from the set.
pub enum ToRemove {
    Nothing,
    Top,
    Bottom,
    Idx(usize),
}

/// Whether one of the optional displays is shown.
#[derive(Debug, Clone, Copy, PartialEq, Eq, Structural, Default)]
pub enum Show {
    Yes,
    #[default]
    No,
}

impl Show {
    pub fn is_show(&self) -> (r: bool)
        ensures
            r == (*self is Yes),
    {
        match self {
            Show::Yes => true,
            Show::No => false,
        }
    }

    pub fn to_num(self) -> (r: u8)
        ensures
            r == if self is Yes {
                1int
            } else {
                0int
            },
    {
        match self {
            Show::Yes => 1,
            Show::No => 0,
        }
    }

    pub fn toggle(&mut self)
        ensures
            *final(self) == if *old(self) is Yes {
                Show::No
            } else {
                Show::Yes
            },
    {
        *self = match self {
            Show::No => Show::Yes,
            Show::Yes => Show::No,
        };
    }
}

/// Whether the side panel of the host's window is shown.
#[derive(Debug, Clone, Copy, PartialEq, Eq, Structural, Default)]
pub enum SidePanelView {
    Shown,
    Hidden,
    #[default]
    Default,
}

/// The unordered key under which a pair of replica ids is tracked.
pub open spec fn pair_key(a: u16, b: u16) -> (u16, u16) {
    if a < b {
        (a, b)
    } else {
        (b, a)
    }
}

/// One tracked pair of temperature-adjacent replicas.
struct PairEntry {
    low: u16,
    high: u16,
    counter: AcceptanceCounter,
}

/// Acceptance statistics of configuration exchanges, keyed by the unordered
/// pair of stable replica ids of temperature-adjacent replicas.
pub struct PairAcceptance {
    entries: Vec<PairEntry>,
    counter: u64,
}

impl PairAcceptance {
    /// The tracked keys, in adjacency order.
    pub closed spec fn spec_keys(&self) -> Seq<(u16, u16)> {
        self.entries@.map_values(|e: PairEntry| (e.low, e.high))
    }

    /// The tracked counts, aligned with `spec_keys`: accepted and rejected.
    pub closed spec fn spec_counts(&self) -> Seq<(u64, u64)> {
        self.entries@.map_values(
            |e: PairEntry| (e.counter.spec_accepted(), e.counter.spec_rejected()),
        )
    }

    /// Exchange rounds attempted so far.
    pub closed spec fn spec_tries(&self) -> u64 {
        self.counter
    }

    /// The pair of `a` and `b` is tracked.
    pub open spec fn tracks(&self, a: u16, b: u16) -> bool {
        self.spec_keys().contains(pair_key(a, b))
    }

    /// Index at which the pair of `a` and `b` is tracked.
    pub open spec fn index_of(&self, a: u16, b: u16) -> int {
        self.spec_keys().index_of(pair_key(a, b))
    }

    /// Every tracked key is normalized and tracked only once, and the
    /// counts run in step with the keys.
    pub open spec fn inv(&self) -> bool {
        &&& self.spec_counts().len() == self.spec_keys().len()
        &&& forall|i: int|
            0 <= i < self.spec_keys().len() ==> (#[trigger] self.spec_keys()[i]).0
                < self.spec_keys()[i].1
        &&& forall|i: int, j: int|
            0 <= i < j < self.spec_keys().len() ==> self.spec_keys()[i] != self.spec_keys()[j]
    }

    /// An empty tracker.
    pub fn new() -> (r: PairAcceptance)
        ensures
            r.inv(),
            r.spec_keys() =~= Seq::<(u16, u16)>::empty(),
            r.spec_tries() == 0,
    {
        PairAcceptance { entries: Vec::new(), counter: 0 }
    }

    /// Exchange rounds attempted so far.
    pub fn tries(&self) -> (r: u64)
        ensures
            r == self.spec_tries(),
    {
        self.counter
    }

    /// Count one round of exchange attempts.
    pub fn count_exchange_try(&mut self)
        ensures
            final(self).spec_tries() == if old(self).spec_tries() < u64::MAX {
                old(self).spec_tries() + 1
            } else {
                old(self).spec_tries() as int
            },
            final(self).spec_keys() == old(self).spec_keys(),
            final(self).spec_counts() == old(self).spec_counts(),
            final(self).inv() == old(self).inv(),
    {
        if self.counter < u64::MAX {
            self.counter = self.counter + 1;
        }
        proof {
            assert(self.spec_keys() =~= old(self).spec_keys());
            assert(self.spec_counts() =~= old(self).spec_counts());
        }
    }

    /// Find the slot of a pair, by its normalized key.
    fn find(&self, a: u16, b: u16) -> (r: Option<usize>)
        requires
            self.inv(),
        ensures
            match r {
                Some(i) => i < self.spec_keys().len() && self.spec_keys()[i as int] == pair_key(
                    a,
                    b,
                ) && self.tracks(a, b) && i == self.index_of(a, b),
                None => !self.tracks(a, b),
            },
    {
        let key = if a < b {
            (a, b)
        } else {
            (b, a)
        };
        let n = self.entries.len();
        let mut i: usize = 0;
        while i < n
            invariant
                self.inv(),
                i <= n,
                n == self.spec_keys().len(),
                key == pair_key(a, b),
                forall|j: int| 0 <= j < i ==> self.spec_keys()[j] != pair_key(a, b),
            decreases n - i,
        {
            if self.entries[i].low == key.0 && self.entries[i].high == key.1 {
                proof {
                    assert(self.spec_keys()[i as int] == pair_key(a, b));
                    assert(self.spec_keys().contains(pair_key(a, b)));
                    let w = self.index_of(a, b);
                    assert(0 <= w < self.spec_keys().len() && self.spec_keys()[w] == pair_key(
                        a,
                        b,
                    ));
                    assert(w == i);
                }
                return Some(i);
            }
            i = i + 1;
        }
        None
    }

    /// Acceptance statistics for the pair of `id1` and `id2`, if it is
    /// tracked; the ids may come in either order.
    pub fn get_pair_acceptance(&self, id1: u16, id2: u16) -> (r: Option<&AcceptanceCounter>)
        requires
            self.inv(),
        ensures
            match r {
                Some(c) => self.tracks(id1, id2) && (c.spec_accepted(), c.spec_rejected())
                    == self.spec_counts()[self.index_of(id1, id2)],
                None => !self.tracks(id1, id2),
            },
    {
        match self.find(id1, id2) {
            Some(i) => Some(&self.entries[i].counter),
            None => None,
        }
    }

    /// Count one accepted exchange for a tracked pair.
    pub fn count_acceptance(&mut self, id1: u16, id2: u16)
        requires
            old(self).inv(),
            old(self).tracks(id1, id2),
        ensures
            final(self).inv(),
            final(self).spec_keys() == old(self).spec_keys(),
            final(self).spec_tries() == old(self).spec_tries(),
            ({
                let i = old(self).index_of(id1, id2);
                let (acc, rej) = old(self).spec_counts()[i];
                &&& final(self).spec_counts() =~= old(self).spec_counts().update(
                    i,
                    ((if acc < u64::MAX {
                        acc + 1
                    } else {
                        acc as int
                    }) as u64, rej),
                )
            }),
    {
        let i = match self.find(id1, id2) {
            Some(i) => i,
            None => {
                proof {
                    assert(false);
                }
                0
            },
        };
        let mut entry = self.entries.remove(i);
        entry.counter.count_acceptance();
        self.entries.insert(i, entry);
        proof {
            assert(self.entries@ =~= old(self).entries@.update(i as int, self.entries@[i as int]));
            assert(self.spec_keys() =~= old(self).spec_keys());
        }
    }

    /// Count one rejected exchange for a tracked pair.
    pub fn count_rejected(&mut self, id1: u16, id2: u16)
        requires
            old(self).inv(),
            old(self).tracks(id1, id2),
        ensures
            final(self).inv(),
            final(self).spec_keys() == old(self).spec_keys(),
            final(self).spec_tries() == old(self).spec_tries(),
            ({
                let i = old(self).index_of(id1, id2);
                let (acc, rej) = old(self).spec_counts()[i];
                &&& final(self).spec_counts() =~= old(self).spec_counts().update(
                    i,
                    (acc, (if rej < u64::MAX {
                        rej + 1
                    } else {
                        rej as int
                    }) as u64),
                )
            }),
    {
        let i = match self.find(id1, id2) {
            Some(i) => i,
            None => {
                proof {
                    assert(false);
                }
                0
            },
        };
        let mut entry = self.entries.remove(i);
        entry.counter.count_rejected();
        self.entries.insert(i, entry);
        proof {
            assert(self.entries@ =~= old(self).entries@.update(i as int, self.entries@[i as int]));
            assert(self.spec_keys() =~= old(self).spec_keys());
        }
    }

    /// Forget all counts, of the pairs and of the rounds; the key set stays.
    pub fn reset_counts(&mut self)
        ensures
            final(self).inv() == old(self).inv(),
            final(self).spec_keys() == old(self).spec_keys(),
            final(self).spec_tries() == 0,
            forall|i: int|
                0 <= i < final(self).spec_counts().len() ==> final(self).spec_counts()[i] == (
                0u64,
                0u64,
            ),
            final(self).spec_counts().len() == old(self).spec_counts().len(),
    {
        self.counter = 0;
        let n = self.entries.len();
        let mut i: usize = 0;
        while i < n
            invariant
                i <= n,
                n == self.entries@.len(),
                self.spec_tries() == 0,
                self.spec_keys() =~= old(self).spec_keys(),
                forall|j: int|
                    0 <= j < i ==> #[trigger] self.spec_counts()[j] == (0u64, 0u64),
            decreases n - i,
        {
            let ghost prev = self.entries@;
            let ghost prev_counts = self.spec_counts();
            let mut entry = self.entries.remove(i);
            entry.counter.reset();
            self.entries.insert(i, entry);
            proof {
                assert(self.entries@ =~= prev.update(i as int, self.entries@[i as int]));
                assert(self.spec_keys() =~= old(self).spec_keys());
                assert(self.spec_counts()[i as int] == (0u64, 0u64));
                assert forall|j: int| 0 <= j < i implies #[trigger] self.spec_counts()[j] == (
                    0u64,
                    0u64,
                ) by {
                    assert(self.entries@[j] == prev[j]);
                    assert(self.spec_counts()[j] == prev_counts[j]);
                    assert(prev_counts[j] == (0u64, 0u64));
                }
            }
            i = i + 1;
        }
    }
}

} // verus!

verus! {

/// Entries the rolling history of one replica can hold.
pub const HISTORY_LEN: usize = 2000;

/// One replica: a configuration tagged with an inverse temperature, its
/// local statistics and its rolling history.  The stable id never changes
/// once assigned, however the replica set is reordered.
pub struct Temperature {
    beta: Beta,
    config: Vec<bool>,
    heads: u32,
    marker: u8,
    color: u8,
    hist: Histogram,
    acceptance: AcceptanceCounter,
    ring_buffer: RingBuffer<(u8, u32)>,
    temperature_id: u16,
    steps: u64,
}

impl View for Temperature {
    type V = Seq<bool>;

    /// The configuration.
    closed spec fn view(&self) -> Seq<bool> {
        self.config@
    }
}

impl Temperature {
    pub closed spec fn spec_beta(&self) -> Beta {
        self.beta
    }

    pub closed spec fn spec_id(&self) -> u16 {
        self.temperature_id
    }

    pub closed spec fn spec_color(&self) -> u8 {
        self.color
    }

    pub closed spec fn spec_marker(&self) -> u8 {
        self.marker
    }

    /// The incrementally tracked head count.
    pub closed spec fn spec_tracked_heads(&self) -> u32 {
        self.heads
    }

    pub closed spec fn spec_histogram(&self) -> Histogram {
        self.hist
    }

    pub closed spec fn spec_ring(&self) -> Seq<(u8, u32)> {
        self.ring_buffer@
    }

    pub closed spec fn spec_accepted(&self) -> u64 {
        self.acceptance.spec_accepted()
    }

    pub closed spec fn spec_rejected(&self) -> u64 {
        self.acceptance.spec_rejected()
    }

    /// Local steps attempted so far.
    pub closed spec fn spec_steps(&self) -> u64 {
        self.steps
    }

    /// Structural invariant.  In particular the tracked head count always
    /// equals a full recount, and accepted and rejected steps together
    /// account for every local step attempted.
    pub open spec fn inv(&self) -> bool {
        &&& 1 <= self@.len() < u32::MAX
        &&& self.spec_tracked_heads() == spec_heads(self@)
        &&& self.spec_histogram().inv()
        &&& self.spec_histogram()@.len() == self@.len() + 1
        &&& self.spec_ring_inv()
        &&& self.spec_accepted() + self.spec_rejected() == self.spec_steps()
        &&& self.spec_beta().valid()
    }

    /// The rolling history is a well-formed bounded FIFO.
    pub closed spec fn spec_ring_inv(&self) -> bool {
        &&& self.ring_buffer.inv()
        &&& self.ring_buffer.spec_max_len() == HISTORY_LEN
    }

    /// The parts of a replica that never change between construction and
    /// resizing: its temperature and its stable id.
    pub open spec fn same_identity(&self, other: &Temperature) -> bool {
        &&& self.spec_beta() == other.spec_beta()
        &&& self.spec_id() == other.spec_id()
    }

    /// A replica with a fresh random configuration of `length` cells.
    pub fn new(temp: Beta, length: u32, rng: &mut rand_pcg::Pcg64, marker: u8, color: u8, id: u16)
        -> (r: Temperature)
        requires
            temp.valid(),
            1 <= length < u32::MAX,
        ensures
            r.inv(),
            r.spec_beta() == temp,
            r.spec_id() == id,
            r.spec_color() == color,
            r.spec_marker() == marker,
            r@.len() == length,
            r.spec_steps() == 0,
            r.spec_accepted() == 0,
            r.spec_rejected() == 0,
            r.spec_histogram().spec_total() == 0,
            r.spec_ring() =~= Seq::<(u8, u32)>::empty(),
    {
        let mut config: Vec<bool> = Vec::new();
        let mut heads: u32 = 0;
        let mut i: u32 = 0;
        proof {
            assert(spec_heads(config@) == 0);
        }
        while i < length
            invariant
                i <= length,
                length < u32::MAX,
                config@.len() == i,
                heads == spec_heads(config@),
                heads <= i,
            decreases length - i,
        {
            let draw = rng_next_u64(rng);
            let v = draw & 1 == 1;
            proof {
                crate::coin::lemma_heads_push(config@, v);
            }
            config.push(v);
            if v {
                heads = heads + 1;
            }
            i = i + 1;
        }
        Temperature {
            beta: temp,
            config,
            heads,
            marker,
            color,
            hist: Histogram::new(length),
            acceptance: AcceptanceCounter::default(),
            ring_buffer: RingBuffer::new(HISTORY_LEN),
            temperature_id: id,
            steps: 0,
        }
    }

    /// The number of heads in the configuration.  The tracked count is
    /// returned; the invariant makes it equal to a full recount.
    pub fn number_of_heads(&self) -> (r: u32)
        requires
            self.inv(),
        ensures
            r == spec_heads(self@),
    {
        self.heads
    }

    pub fn beta(&self) -> (r: Beta)
        ensures
            r == self.spec_beta(),
    {
        self.beta
    }

    /// Number of cells in the configuration.
    pub fn config_len(&self) -> (r: usize)
        ensures
            r == self@.len(),
    {
        self.config.len()
    }

    /// The configuration itself.
    pub fn configuration(&self) -> (r: &Vec<bool>)
        ensures
            r@ == self@,
    {
        &self.config
    }

    pub fn temperature_id(&self) -> (r: u16)
        ensures
            r == self.spec_id(),
    {
        self.temperature_id
    }

    pub fn color(&self) -> (r: u8)
        ensures
            r == self.spec_color(),
    {
        self.color
    }

    pub fn marker(&self) -> (r: u8)
        ensures
            r == self.spec_marker(),
    {
        self.marker
    }

    pub fn hist(&self) -> (r: &Histogram)
        ensures
            *r == self.spec_histogram(),
    {
        &self.hist
    }

    pub fn acceptance(&self) -> (r: &AcceptanceCounter)
        ensures
            r.spec_accepted() == self.spec_accepted(),
            r.spec_rejected() == self.spec_rejected(),
    {
        &self.acceptance
    }

    pub fn steps(&self) -> (r: u64)
        ensures
            r == self.spec_steps(),
    {
        self.steps
    }

    /// The rolling history, oldest entry first.
    pub fn history(&self) -> (r: Vec<(u8, u32)>)
        requires
            self.inv(),
        ensures
            r@ == self.spec_ring(),
    {
        self.ring_buffer.iter()
    }

    /// Record an energy value in the local histogram.
    pub fn increment_hist(&mut self, val: u32)
        requires
            old(self).inv(),
        ensures
            final(self).inv(),
            final(self)@ == old(self)@,
            final(self).same_identity(old(self)),
            final(self).spec_color() == old(self).spec_color(),
            final(self).spec_marker() == old(self).spec_marker(),
            final(self).spec_ring() == old(self).spec_ring(),
            final(self).spec_steps() == old(self).spec_steps(),
            final(self).spec_accepted() == old(self).spec_accepted(),
            final(self).spec_rejected() == old(self).spec_rejected(),
            (val < old(self).spec_histogram()@.len() && old(self).spec_histogram().spec_total()
                < u64::MAX) ==> {
                &&& final(self).spec_histogram()@ == old(self).spec_histogram()@.update(
                    val as int,
                    (old(self).spec_histogram()@[val as int] + 1) as u64,
                )
                &&& final(self).spec_histogram().spec_total() == old(
                    self,
                ).spec_histogram().spec_total() + 1
            },
            !(val < old(self).spec_histogram()@.len() && old(self).spec_histogram().spec_total()
                < u64::MAX) ==> final(self).spec_histogram() == old(self).spec_histogram(),
    {
        self.hist.increment_quiet(val);
    }

    /// Append the newest history entry once more, so that the history
    /// stream has no gap after a rejected exchange.
    pub fn add_rejected_exchange_to_ringbuffer(&mut self)
        requires
            old(self).inv(),
        ensures
            final(self).inv(),
            final(self)@ == old(self)@,
            final(self).same_identity(old(self)),
            final(self).spec_color() == old(self).spec_color(),
            final(self).spec_marker() == old(self).spec_marker(),
            final(self).spec_histogram() == old(self).spec_histogram(),
            final(self).spec_steps() == old(self).spec_steps(),
            final(self).spec_accepted() == old(self).spec_accepted(),
            final(self).spec_rejected() == old(self).spec_rejected(),
            final(self).spec_ring() == if old(self).spec_ring().len() == 0 {
                old(self).spec_ring()
            } else {
                fifo_pushed(old(self).spec_ring(), HISTORY_LEN, old(self).spec_ring().last())
            },
    {
        self.ring_buffer.repeat_last();
    }

    /// One local Metropolis step: propose a single-site move, accept it
    /// with probability `min(1, exp((old_heads - new_heads) / (T * L)))`,
    /// else undo it; then record the resulting energy in the history and
    /// the histogram and count the step.
    ///
    /// If the step counter has reached its capacity, nothing happens.
    pub fn markov_step(&mut self, rng: &mut rand_pcg::Pcg64)
        requires
            old(self).inv(),
        ensures
            final(self).inv(),
            stepped(*old(self), *final(self)),
    {
        if self.steps == u64::MAX {
            return ;
        }
        let len = self.config.len();
        let old_heads = self.heads;
        let pos = rng_below(rng, len);
        let old_val = self.config[pos];
        let draw = rng_next_u64(rng);
        let new_val = draw & 1 == 1;
        self.config.set(pos, new_val);
        proof {
            crate::coin::lemma_heads_update(old(self)@, pos as int, new_val);
            crate::coin::lemma_heads_le_len(self@);
            assert(old(self)@.update(pos as int, old_val) =~= old(self)@);
        }
        let new_heads = if old_val == new_val {
            old_heads
        } else if old_val {
            old_heads - 1
        } else {
            old_heads + 1
        };
        let accept: bool;
        if new_heads == old_heads {
            accept = true;
        } else {
            let decreased = new_heads < old_heads;
            let favored_decrease = self.beta.scaled > 0;
            if decreased == favored_decrease {
                accept = true;
            } else {
                let mag: u64 = if self.beta.scaled >= 0 {
                    self.beta.scaled as u64
                } else {
                    (-(self.beta.scaled as i128)) as u64
                };
                let x = mag / (len as u64);
                let prob = exp_neg(x as u128);
                let u = rng_next_u64(rng) >> 1u64;
                proof {
                    vstd::bits::lemma_u64_shr_is_div(draw, 1);
                }
                accept = u < prob;
            }
        }
        if accept {
            self.heads = new_heads;
            proof {
                assert(self@ == old(self)@.update(pos as int, new_val));
                assert(new_heads == spec_heads(self@));
            }
            self.acceptance.count_acceptance();
        } else {
            self.config.set(pos, old_val);
            proof {
                assert(self@ =~= old(self)@);
            }
            self.acceptance.count_rejected();
        }
        self.steps = self.steps + 1;
        let resulting = self.heads;
        proof {
            assert(resulting == spec_heads(self@));
            crate::coin::lemma_heads_le_len(self@);
            assert(resulting < self.hist@.len());
            assert(self.spec_ring() == old(self).spec_ring());
        }
        self.ring_buffer.push((self.color, resulting));
        self.hist.increment_quiet(resulting);
        proof {
            assert(final(self)@ == self@);
            if accept {
                assert(final(self)@ == old(self)@.update(pos as int, new_val));
            } else {
                assert(final(self)@ == old(self)@);
            }
        }
    }

    /// Give the configuration `length` cells: truncate it or extend it with
    /// fresh random draws.  Histogram, acceptance counts and history are
    /// reset, since the observable changes its range.
    pub fn adjust_length(&mut self, length: u32, rng: &mut rand_pcg::Pcg64)
        requires
            old(self).inv(),
            1 <= length < u32::MAX,
        ensures
            final(self).inv(),
            final(self).same_identity(old(self)),
            final(self).spec_color() == old(self).spec_color(),
            final(self).spec_marker() == old(self).spec_marker(),
            final(self)@.len() == length,
            length <= old(self)@.len() ==> final(self)@ == old(self)@.take(length as int),
            length > old(self)@.len() ==> final(self)@.take(old(self)@.len() as int) == old(
                self,
            )@,
            final(self).spec_steps() == 0,
            final(self).spec_accepted() == 0,
            final(self).spec_rejected() == 0,
            final(self).spec_histogram().spec_total() == 0,
            final(self).spec_histogram()@.len() == length + 1,
            final(self).spec_ring() =~= Seq::<(u8, u32)>::empty(),
    {
        let length_usize = length as usize;
        if length_usize <= self.config.len() {
            self.config.truncate(length_usize);
        } else {
            let ghost prefix = self.config@;
            let mut i = self.config.len();
            while i < length_usize
                invariant
                    i <= length_usize,
                    self.config@.len() == i,
                    self.config@.take(prefix.len() as int) == prefix,
                    prefix.len() <= i,
                    self.beta == old(self).beta,
                    self.temperature_id == old(self).temperature_id,
                    self.color == old(self).color,
                    self.marker == old(self).marker,
                    self.spec_ring_inv(),
                decreases length_usize - i,
            {
                let draw = rng_next_u64(rng);
                self.config.push(draw & 1 == 1);
                proof {
                    assert(self.config@.take(prefix.len() as int) =~= prefix);
                }
                i = i + 1;
            }
        }
        self.heads = count_heads_vec(&self.config);
        self.hist = Histogram::new(length);
        self.acceptance.reset();
        self.steps = 0;
        self.ring_buffer.reset();
    }
}

/// One local Metropolis step leads from `pre` to `post`: identity,
/// decoration and length are kept; one more step is counted with exactly
/// one of the two counters; on acceptance the configuration changed at no
/// more than one site, on rejection it is exactly kept; and whichever way
/// the step went, the resulting energy is appended to the rolling history
/// and recorded in the histogram.  A step counter at its capacity leaves
/// the replica untouched.
pub open spec fn stepped(pre: Temperature, post: Temperature) -> bool {
    &&& post.same_identity(&pre)
    &&& post.spec_color() == pre.spec_color()
    &&& post.spec_marker() == pre.spec_marker()
    &&& post@.len() == pre@.len()
    &&& if pre.spec_steps() == u64::MAX {
        post == pre
    } else {
        &&& post.spec_steps() == pre.spec_steps() + 1
        &&& (({
            &&& post.spec_accepted() == pre.spec_accepted() + 1
            &&& post.spec_rejected() == pre.spec_rejected()
            &&& exists|i: int, v: bool| 0 <= i < pre@.len() && post@ == pre@.update(i, v)
        }) || ({
            &&& post.spec_rejected() == pre.spec_rejected() + 1
            &&& post.spec_accepted() == pre.spec_accepted()
            &&& post@ == pre@
        }))
        &&& post.spec_ring() == fifo_pushed(
            pre.spec_ring(),
            HISTORY_LEN,
            (pre.spec_color(), spec_heads(post@) as u32),
        )
        &&& crate::histogram::hist_incremented(
            pre.spec_histogram(),
            post.spec_histogram(),
            spec_heads(post@) as int,
        )
    }
}

/// Count the `true` cells of a boolean configuration by a full scan.
pub(crate) fn count_heads_vec(v: &Vec<bool>) -> (r: u32)
    requires
        v@.len() <= u32::MAX,
    ensures
        r == spec_heads(v@),
{
    let mut count: u32 = 0;
    let mut i: usize = 0;
    proof {
        assert(v@.take(0) =~= Seq::<bool>::empty());
    }
    while i < v.len()
        invariant
            i <= v@.len(),
            v@.len() <= u32::MAX,
            count == spec_heads(v@.take(i as int)),
            count <= i,
        decreases v@.len() - i,
    {
        proof {
            assert(v@.take(i + 1) =~= v@.take(i as int).push(v@[i as int]));
            crate::coin::lemma_heads_push(v@.take(i as int), v@[i as int]);
        }
        if v[i] {
            count = count + 1;
        }
        i = i + 1;
    }
    proof {
        assert(v@.take(v@.len() as int) =~= v@);
    }
    count
}

} // verus!

verus! {

/// All stable ids in a replica list are pairwise distinct.
pub open spec fn distinct_ids(ts: Seq<Temperature>) -> bool {
    forall|i: int, j: int|
        0 <= i < j < ts.len() ==> (#[trigger] ts[i]).spec_id() != (#[trigger] ts[j]).spec_id()
}

/// The normalized id pairs of the temperature-adjacent replicas, in order.
pub open spec fn adjacent_keys(ts: Seq<Temperature>) -> Seq<(u16, u16)> {
    if ts.len() <= 1 {
        Seq::<(u16, u16)>::empty()
    } else {
        Seq::new((ts.len() - 1) as nat, |i: int| pair_key(ts[i].spec_id(), ts[i + 1].spec_id()))
    }
}

impl PairAcceptance {
    /// Recompute the tracked key set from the current adjacency: pairs that
    /// are no longer adjacent leave, pairs that stay adjacent keep their
    /// counts, and newly adjacent pairs start at zero.
    pub fn update_pairs(&mut self, temps: &Vec<Temperature>)
        requires
            old(self).inv(),
            distinct_ids(temps@),
        ensures
            final(self).inv(),
            final(self).spec_tries() == old(self).spec_tries(),
            final(self).spec_keys() =~= adjacent_keys(temps@),
            forall|j: int|
                0 <= j < final(self).spec_counts().len() ==> #[trigger] final(self).spec_counts()[j]
                    == {
                    let key = adjacent_keys(temps@)[j];
                    if old(self).spec_keys().contains(key) {
                        old(self).spec_counts()[old(self).index_of(key.0, key.1)]
                    } else {
                        (0u64, 0u64)
                    }
                },
    {
        let ghost required = adjacent_keys(temps@);
        let mut new_entries: Vec<PairEntry> = Vec::new();
        let n = temps.len();
        if n >= 2 {
            let mut i: usize = 0;
            while i < n - 1
                invariant
                    old(self).inv(),
                    distinct_ids(temps@),
                    *self == *old(self),
                    n == temps@.len(),
                    n >= 2,
                    i <= n - 1,
                    required == adjacent_keys(temps@),
                    required.len() == n - 1,
                    new_entries@.len() == i,
                    forall|j: int|
                        0 <= j < i ==> (#[trigger] new_entries@[j].low, new_entries@[j].high)
                            == required[j],
                    forall|j: int|
                        0 <= j < i ==> (
                            (#[trigger] new_entries@[j]).counter.spec_accepted(),
                            new_entries@[j].counter.spec_rejected(),
                        ) == if old(self).spec_keys().contains(required[j]) {
                            old(self).spec_counts()[old(self).index_of(
                                required[j].0,
                                required[j].1,
                            )]
                        } else {
                            (0u64, 0u64)
                        },
                decreases n - 1 - i,
            {
                let a = temps[i].temperature_id();
                let b = temps[i + 1].temperature_id();
                proof {
                    assert(temps@[i as int].spec_id() != temps@[i + 1].spec_id());
                    assert(required[i as int] == pair_key(a, b));
                }
                let (low, high) = if a < b {
                    (a, b)
                } else {
                    (b, a)
                };
                let (acc, rej) = match self.find(a, b) {
                    Some(j) => (self.entries[j].counter.accepted(), self.entries[j].counter.rejected()),
                    None => (0u64, 0u64),
                };
                new_entries.push(
                    PairEntry { low, high, counter: AcceptanceCounter { accepted: acc, rejected: rej } },
                );
                i = i + 1;
            }
        }
        self.entries = new_entries;
        proof {
            assert(self.spec_keys() =~= required);
            assert forall|i: int, j: int|
                0 <= i < j < self.spec_keys().len() implies self.spec_keys()[i]
                != self.spec_keys()[j] by {
                let ka = required[i];
                let kb = required[j];
                assert(ka == pair_key(temps@[i].spec_id(), temps@[i + 1].spec_id()));
                assert(kb == pair_key(temps@[j].spec_id(), temps@[j + 1].spec_id()));
            }
        }
    }
}

} // verus!

verus! {

/// The exchange acceptance probability for a temperature-adjacent pair of
/// replicas `a` before `b` in chain order, as a Q0.63 probability:
/// `min(1, exp((1/Ta - 1/Tb) * (heads_rate_a - heads_rate_b)))`.
pub open spec fn spec_exchange_prob(ba: Beta, bb: Beta, ha: nat, hb: nat, len: nat) -> int
    recommends
        ba.scaled <= bb.scaled,
        len >= 1,
{
    if ha <= hb {
        PROB_ONE as int
    } else {
        spec_exp_neg((((bb.scaled - ba.scaled) * (ha - hb)) / (len as int)) as nat)
    }
}

/// An exchange acceptance probability always lies between zero and one, and
/// it is one whenever the exchange lowers no energy barrier.
pub proof fn lemma_exchange_prob_range(ba: Beta, bb: Beta, ha: nat, hb: nat, len: nat)
    requires
        ba.scaled <= bb.scaled,
        len >= 1,
    ensures
        0 <= spec_exchange_prob(ba, bb, ha, hb, len) <= PROB_ONE,
        ha <= hb ==> spec_exchange_prob(ba, bb, ha, hb, len) == PROB_ONE,
{
    if ha > hb {
        let x = ((bb.scaled - ba.scaled) * (ha - hb)) / (len as int);
        vstd::arithmetic::mul::lemma_mul_nonnegative(bb.scaled - ba.scaled, ha - hb);
        vstd::arithmetic::div_mod::lemma_div_pos_is_pos((bb.scaled - ba.scaled) * (ha - hb),
            len as int);
        crate::fixed::lemma_exp_neg_range(x as nat);
    }
}

/// The exchange acceptance probability of two adjacent replicas, `a` before
/// `b` in chain order.
pub fn exchange_acceptance_probability(a: &Temperature, b: &Temperature) -> (r: u64)
    requires
        a.inv(),
        b.inv(),
        a@.len() == b@.len(),
        a.spec_beta().scaled <= b.spec_beta().scaled,
    ensures
        r == spec_exchange_prob(a.spec_beta(), b.spec_beta(), spec_heads(a@), spec_heads(b@),
            a@.len()),
        0 <= r <= PROB_ONE,
{
    proof {
        lemma_exchange_prob_range(a.spec_beta(), b.spec_beta(), spec_heads(a@), spec_heads(b@),
            a@.len());
    }
    let ha = a.number_of_heads();
    let hb = b.number_of_heads();
    if ha <= hb {
        PROB_ONE
    } else {
        let diff: u128 = (b.beta().scaled as i128 - a.beta().scaled as i128) as u128;
        let hd: u128 = (ha - hb) as u128;
        let len: u128 = a.config_len() as u128;
        proof {
            assert(diff <= 0x2_0000_0000_0000_0000u128);
            assert(hd < 0x1_0000_0000u128);
            assert(diff * hd <= 0x2_0000_0000_0000_0000u128 * 0x1_0000_0000u128) by (nonlinear_arith)
                requires
                    diff <= 0x2_0000_0000_0000_0000u128,
                    hd < 0x1_0000_0000u128,
            ;
        }
        let x = diff * hd / len;
        exp_neg(x)
    }
}

/// Whichever way an exchange attempt between two replicas goes, the
/// multiset of their two configurations afterwards equals the multiset
/// before: configurations are swapped or kept, never lost or duplicated.
pub proof fn lemma_exchange_preserves_pair_multiset(
    before_a: Seq<bool>,
    before_b: Seq<bool>,
    after_a: Seq<bool>,
    after_b: Seq<bool>,
)
    requires
        (after_a == before_a && after_b == before_b) || (after_a == before_b && after_b
            == before_a),
    ensures
        seq![after_a, after_b].to_multiset() =~= seq![before_a, before_b].to_multiset(),
{
    broadcast use vstd::seq_lib::group_to_multiset_ensures;

    let e = Seq::<Seq<bool>>::empty();
    assert(seq![after_a, after_b] =~= e.push(after_a).push(after_b));
    assert(seq![before_a, before_b] =~= e.push(before_a).push(before_b));
    assert(e.push(after_a).to_multiset() =~= e.to_multiset().insert(after_a));
    assert(e.push(before_a).to_multiset() =~= e.to_multiset().insert(before_a));
}

} // verus!

verus! {

/// Some replica in the list carries this inverse temperature.
pub open spec fn contains_beta(ts: Seq<Temperature>, b: Beta) -> bool {
    exists|i: int| 0 <= i < ts.len() && (#[trigger] ts[i]).spec_beta().scaled == b.scaled
}

/// The list is sorted strictly by the chain order: ascending inverse
/// temperature.  Strictness also means that no two replicas share a
/// temperature.
pub open spec fn sorted_strict(ts: Seq<Temperature>) -> bool {
    forall|i: int, j: int|
        0 <= i < j < ts.len() ==> (#[trigger] ts[i]).spec_beta().scaled
            < (#[trigger] ts[j]).spec_beta().scaled
}

/// Marker shapes the host can cycle through.
pub const MARKER_KINDS: u16 = 10;

/// Colors the host can cycle through.
pub const COLOR_KINDS: u16 = 11;

/// The replica set: independent replicas at pairwise distinct temperatures,
/// one random number stream, a tick counter for the exchange cadence, and
/// the pairwise exchange statistics.
pub struct ReplicaSet {
    temperatures: Vec<Temperature>,
    num_coins: u32,
    rng: rand_pcg::Pcg64,
    step_counter: u32,
    pair_acceptance: PairAcceptance,
    next_id: u16,
}

impl ReplicaSet {
    /// The replicas, in chain order.
    pub closed spec fn spec_temps(&self) -> Seq<Temperature> {
        self.temperatures@
    }

    /// Cells in every replica's configuration.
    pub closed spec fn spec_num_coins(&self) -> u32 {
        self.num_coins
    }

    /// Local steps taken since the last exchange round.
    pub closed spec fn spec_step_counter(&self) -> u32 {
        self.step_counter
    }

    /// The pairwise exchange statistics.
    pub closed spec fn spec_pairs(&self) -> PairAcceptance {
        self.pair_acceptance
    }

    /// The id the next added replica will get.
    pub closed spec fn spec_next_id(&self) -> u16 {
        self.next_id
    }

    /// Structural invariant: every replica is well formed and has the
    /// common length; the list is sorted strictly by chain order; stable
    /// ids are pairwise distinct and below the next free id; and the
    /// pairwise tracker tracks exactly the temperature-adjacent pairs.
    pub open spec fn inv(&self) -> bool {
        &&& 1 <= self.spec_num_coins() < u32::MAX
        &&& forall|i: int|
            0 <= i < self.spec_temps().len() ==> (#[trigger] self.spec_temps()[i]).inv()
        &&& forall|i: int|
            0 <= i < self.spec_temps().len() ==> (#[trigger] self.spec_temps()[i])@.len()
                == self.spec_num_coins()
        &&& sorted_strict(self.spec_temps())
        &&& distinct_ids(self.spec_temps())
        &&& forall|i: int|
            0 <= i < self.spec_temps().len() ==> (#[trigger] self.spec_temps()[i]).spec_id()
                < self.spec_next_id()
        &&& self.spec_temps().len() <= self.spec_next_id()
        &&& self.spec_pairs().inv()
        &&& self.spec_pairs().spec_keys() =~= adjacent_keys(self.spec_temps())
        &&& self.spec_step_counter() < self.spec_num_coins()
    }

    /// An empty replica set over configurations of `num_coins` cells, with
    /// its random stream seeded from `seed`.  A zero length is rejected.
    pub fn new(num_coins: u32, seed: u64) -> (r: Result<ReplicaSet, ConfigError>)
        requires
            num_coins < u32::MAX,
        ensures
            match r {
                Ok(s) => {
                    &&& num_coins >= 1
                    &&& s.inv()
                    &&& s.spec_temps().len() == 0
                    &&& s.spec_num_coins() == num_coins
                    &&& s.spec_next_id() == 0
                },
                Err(e) => e == ConfigError::ZeroLength && num_coins == 0,
            },
    {
        if num_coins == 0 {
            return Err(ConfigError::ZeroLength);
        }
        let s = ReplicaSet {
            temperatures: Vec::new(),
            num_coins,
            rng: crate::rng::rng_from_seed(seed),
            step_counter: 0,
            pair_acceptance: PairAcceptance::new(),
            next_id: 0,
        };
        proof {
            assert(s.spec_pairs().spec_keys() =~= adjacent_keys(s.spec_temps()));
        }
        Ok(s)
    }

    /// The replicas, in chain order.
    pub fn replicas(&self) -> (r: &Vec<Temperature>)
        ensures
            r@ == self.spec_temps(),
    {
        &self.temperatures
    }

    /// Cells in every replica's configuration.
    pub fn num_coins(&self) -> (r: u32)
        ensures
            r == self.spec_num_coins(),
    {
        self.num_coins
    }

    /// The pairwise exchange statistics.
    pub fn pairs(&self) -> (r: &PairAcceptance)
        ensures
            *r == self.spec_pairs(),
    {
        &self.pair_acceptance
    }

    /// Acceptance statistics for the exchange pair of two replica ids, if
    /// that pair is tracked.
    pub fn get_pair_acceptance(&self, id1: u16, id2: u16) -> (r: Option<&AcceptanceCounter>)
        requires
            self.inv(),
        ensures
            match r {
                Some(c) => self.spec_pairs().tracks(id1, id2) && (
                c.spec_accepted(),
                c.spec_rejected(),
                ) == self.spec_pairs().spec_counts()[self.spec_pairs().index_of(id1, id2)],
                None => !self.spec_pairs().tracks(id1, id2),
            },
    {
        self.pair_acceptance.get_pair_acceptance(id1, id2)
    }

    /// Some replica already carries this inverse temperature.
    pub fn contains_temp(&self, temp: Beta) -> (r: bool)
        ensures
            r == contains_beta(self.spec_temps(), temp),
    {
        let n = self.temperatures.len();
        let mut i: usize = 0;
        while i < n
            invariant
                i <= n,
                n == self.spec_temps().len(),
                forall|j: int|
                    0 <= j < i ==> (#[trigger] self.spec_temps()[j]).spec_beta().scaled
                        != temp.scaled,
            decreases n - i,
        {
            if self.temperatures[i].beta().scaled == temp.scaled {
                return true;
            }
            i = i + 1;
        }
        false
    }

    /// Add a replica at a new temperature, with a fresh random
    /// configuration, keeping the chain order.  A temperature equal to an
    /// existing one is rejected: the set stays unchanged and `false` comes
    /// back.  So are the invalid zero value and an exhausted id space.
    pub fn add_replica(&mut self, temp: Beta) -> (r: bool)
        requires
            old(self).inv(),
        ensures
            final(self).inv(),
            r == (temp.valid() && !contains_beta(old(self).spec_temps(), temp) && old(
                self,
            ).spec_next_id() < u16::MAX),
            !r ==> *final(self) == *old(self),
            r ==> {
                &&& final(self).spec_next_id() == old(self).spec_next_id() + 1
                &&& final(self).spec_num_coins() == old(self).spec_num_coins()
                &&& exists|pos: int, t: Temperature|
                    {
                        &&& 0 <= pos <= old(self).spec_temps().len()
                        &&& final(self).spec_temps() == old(self).spec_temps().insert(pos, t)
                        &&& t.inv()
                        &&& t.spec_beta() == temp
                        &&& t.spec_id() == old(self).spec_next_id()
                        &&& t@.len() == old(self).spec_num_coins()
                        &&& t.spec_steps() == 0
                        &&& t.spec_accepted() == 0
                        &&& t.spec_rejected() == 0
                        &&& t.spec_histogram().spec_total() == 0
                        &&& t.spec_ring() =~= Seq::<(u8, u32)>::empty()
                    }
            },
    {
        if !(temp.scaled != 0 && self.next_id < u16::MAX) {
            return false;
        }
        if self.contains_temp(temp) {
            return false;
        }
        let n = self.temperatures.len();
        let mut pos: usize = 0;
        while pos < n && self.temperatures[pos].beta().scaled < temp.scaled
            invariant
                pos <= n,
                n == self.spec_temps().len(),
                forall|j: int|
                    0 <= j < pos ==> (#[trigger] self.spec_temps()[j]).spec_beta().scaled
                        < temp.scaled,
            decreases n - pos,
        {
            pos = pos + 1;
        }
        let id = self.next_id;
        let t = Temperature::new(
            temp,
            self.num_coins,
            &mut self.rng,
            (id % MARKER_KINDS) as u8,
            (id % COLOR_KINDS) as u8,
            id,
        );
        self.temperatures.insert(pos, t);
        self.next_id = id + 1;
        self.pair_acceptance.update_pairs(&self.temperatures);
        proof {
            let new_ts = self.spec_temps();
            let old_ts = old(self).spec_temps();
            assert forall|i: int, j: int| 0 <= i < j < new_ts.len() implies (
            #[trigger] new_ts[i]).spec_beta().scaled < (#[trigger] new_ts[j]).spec_beta().scaled
                by {
                assert(!contains_beta(old_ts, temp));
                if i < pos {
                    assert(new_ts[i] == old_ts[i]);
                }
                if j < pos {
                    assert(new_ts[j] == old_ts[j]);
                }
                if i > pos {
                    assert(new_ts[i] == old_ts[i - 1]);
                }
                if j > pos {
                    assert(new_ts[j] == old_ts[j - 1]);
                    if j - 1 >= pos {
                        assert(old_ts[j - 1].spec_beta().scaled >= temp.scaled);
                        assert(old_ts[j - 1].spec_beta().scaled != temp.scaled);
                    }
                }
            }
            assert(distinct_ids(new_ts)) by {
                assert forall|i: int, j: int| 0 <= i < j < new_ts.len() implies (
                #[trigger] new_ts[i]).spec_id() != (#[trigger] new_ts[j]).spec_id() by {
                    if i != pos && j != pos {
                        let oi = if i < pos {
                            i
                        } else {
                            i - 1
                        };
                        let oj = if j < pos {
                            j
                        } else {
                            j - 1
                        };
                        assert(new_ts[i] == old_ts[oi]);
                        assert(new_ts[j] == old_ts[oj]);
                    }
                }
            }
        }
        true
    }
}

} // verus!

verus! {

/// A tracker whose key set already matches the adjacency holds, at every
/// slot, exactly the count it tracks for that slot's key.
proof fn lemma_counts_in_place(pa: PairAcceptance, ts: Seq<Temperature>)
    requires
        pa.inv(),
        pa.spec_keys() =~= adjacent_keys(ts),
    ensures
        forall|j: int|
            0 <= j < pa.spec_counts().len() ==> #[trigger] pa.spec_counts()[j] == {
                let key = adjacent_keys(ts)[j];
                if pa.spec_keys().contains(key) {
                    pa.spec_counts()[pa.index_of(key.0, key.1)]
                } else {
                    (0u64, 0u64)
                }
            },
{
    assert forall|j: int| 0 <= j < pa.spec_counts().len() implies #[trigger] pa.spec_counts()[j]
        == {
        let key = adjacent_keys(ts)[j];
        if pa.spec_keys().contains(key) {
            pa.spec_counts()[pa.index_of(key.0, key.1)]
        } else {
            (0u64, 0u64)
        }
    } by {
        let key = adjacent_keys(ts)[j];
        assert(pa.spec_keys()[j] == key);
        assert(pair_key(key.0, key.1) == key);
        assert(pa.spec_keys().contains(key));
        let w = pa.index_of(key.0, key.1);
        assert(0 <= w < pa.spec_keys().len() && pa.spec_keys()[w] == key);
        assert(w == j);
    }
}

impl ReplicaSet {
    /// Re-establish the chain order and resynchronize the pairwise tracker.
    /// Every mutating operation of the set already keeps both, so the list
    /// and all statistics come out unchanged.
    pub fn sort_temps(&mut self)
        requires
            old(self).inv(),
        ensures
            final(self).inv(),
            final(self).spec_temps() == old(self).spec_temps(),
            sorted_strict(final(self).spec_temps()),
            final(self).spec_num_coins() == old(self).spec_num_coins(),
            final(self).spec_next_id() == old(self).spec_next_id(),
            final(self).spec_step_counter() == old(self).spec_step_counter(),
            final(self).spec_pairs().spec_keys() =~= old(self).spec_pairs().spec_keys(),
            final(self).spec_pairs().spec_counts() =~= old(self).spec_pairs().spec_counts(),
            final(self).spec_pairs().spec_tries() == old(self).spec_pairs().spec_tries(),
    {
        self.pair_acceptance.update_pairs(&self.temperatures);
        proof {
            let old_pairs = old(self).spec_pairs();
            let new_pairs = self.spec_pairs();
            let keys = adjacent_keys(self.spec_temps());
            assert(old_pairs.spec_keys() =~= keys);
            assert forall|j: int| 0 <= j < new_pairs.spec_counts().len() implies #[trigger]
            new_pairs.spec_counts()[j] == old_pairs.spec_counts()[j] by {
                let key = keys[j];
                assert(old_pairs.spec_keys()[j] == key);
                assert(pair_key(key.0, key.1) == key);
                assert(old_pairs.spec_keys().contains(key));
                let w = old_pairs.index_of(key.0, key.1);
                assert(0 <= w < old_pairs.spec_keys().len() && old_pairs.spec_keys()[w] == key);
                assert(w == j);
            }
            assert(new_pairs.spec_counts() =~= old_pairs.spec_counts());
        }
    }

    /// Remove the selected replica and resynchronize the pairwise tracker:
    /// pairs that stay temperature-adjacent keep their statistics, newly
    /// adjacent pairs start at zero, and pairs no longer adjacent leave.
    pub fn remove(&mut self, to_remove: ToRemove)
        requires
            old(self).inv(),
            to_remove is Bottom ==> old(self).spec_temps().len() >= 1,
            to_remove matches ToRemove::Idx(i) ==> i < old(self).spec_temps().len(),
        ensures
            final(self).inv(),
            final(self).spec_num_coins() == old(self).spec_num_coins(),
            final(self).spec_next_id() == old(self).spec_next_id(),
            final(self).spec_step_counter() == old(self).spec_step_counter(),
            final(self).spec_pairs().spec_keys() =~= adjacent_keys(final(self).spec_temps()),
            final(self).spec_pairs().spec_tries() == old(self).spec_pairs().spec_tries(),
            forall|j: int|
                0 <= j < final(self).spec_pairs().spec_counts().len()
                    ==> (#[trigger] final(self).spec_pairs().spec_counts()[j]) == {
                    let key = adjacent_keys(final(self).spec_temps())[j];
                    if old(self).spec_pairs().spec_keys().contains(key) {
                        old(self).spec_pairs().spec_counts()[old(self).spec_pairs().index_of(
                            key.0,
                            key.1,
                        )]
                    } else {
                        (0u64, 0u64)
                    }
                },
            match to_remove {
                ToRemove::Nothing => *final(self) == *old(self),
                ToRemove::Top => if old(self).spec_temps().len() == 0 {
                    final(self).spec_temps() == old(self).spec_temps()
                } else {
                    final(self).spec_temps() == old(self).spec_temps().remove(
                        old(self).spec_temps().len() - 1,
                    )
                },
                ToRemove::Bottom => final(self).spec_temps() == old(self).spec_temps().remove(0),
                ToRemove::Idx(i) => final(self).spec_temps() == old(self).spec_temps().remove(
                    i as int,
                ),
            },
    {
        let idx: usize = match to_remove {
            ToRemove::Nothing => {
                proof {
                    lemma_counts_in_place(self.spec_pairs(), self.spec_temps());
                }
                return ;
            },
            ToRemove::Top => {
                if self.temperatures.len() == 0 {
                    proof {
                        assert(self.spec_pairs().spec_keys() =~= adjacent_keys(self.spec_temps()));
                        lemma_counts_in_place(self.spec_pairs(), self.spec_temps());
                    }
                    return ;
                }
                self.temperatures.len() - 1
            },
            ToRemove::Bottom => 0,
            ToRemove::Idx(i) => i,
        };
        let ghost old_ts = self.spec_temps();
        self.temperatures.remove(idx);
        self.pair_acceptance.update_pairs(&self.temperatures);
        proof {
            old_ts.remove_ensures(idx as int);
            let new_ts = self.spec_temps();
            assert forall|i: int, j: int| 0 <= i < j < new_ts.len() implies (
            #[trigger] new_ts[i]).spec_beta().scaled < (#[trigger] new_ts[j]).spec_beta().scaled
                by {
                let oi = if i < idx {
                    i
                } else {
                    i + 1
                };
                let oj = if j < idx {
                    j
                } else {
                    j + 1
                };
                assert(new_ts[i] == old_ts[oi]);
                assert(new_ts[j] == old_ts[oj]);
            }
            assert forall|i: int, j: int| 0 <= i < j < new_ts.len() implies (
            #[trigger] new_ts[i]).spec_id() != (#[trigger] new_ts[j]).spec_id() by {
                let oi = if i < idx {
                    i
                } else {
                    i + 1
                };
                let oj = if j < idx {
                    j
                } else {
                    j + 1
                };
                assert(new_ts[i] == old_ts[oi]);
                assert(new_ts[j] == old_ts[oj]);
            }
        }
    }

    /// Give every replica a configuration of `new_length` cells (truncated
    /// or extended with fresh random draws), reset every replica's
    /// statistics and the pairwise counts, and restart the exchange
    /// cadence.  A zero length is rejected and nothing changes.
    pub fn resize(&mut self, new_length: u32) -> (r: Result<(), ConfigError>)
        requires
            old(self).inv(),
            new_length < u32::MAX,
        ensures
            final(self).inv(),
            match r {
                Ok(()) => {
                    &&& new_length >= 1
                    &&& final(self).spec_num_coins() == new_length
                    &&& final(self).spec_temps().len() == old(self).spec_temps().len()
                    &&& final(self).spec_next_id() == old(self).spec_next_id()
                    &&& forall|i: int|
                        0 <= i < final(self).spec_temps().len() ==> {
                            &&& (#[trigger] final(self).spec_temps()[i]).same_identity(
                                &old(self).spec_temps()[i],
                            )
                            &&& final(self).spec_temps()[i]@.len() == new_length
                            &&& final(self).spec_temps()[i].spec_steps() == 0
                            &&& final(self).spec_temps()[i].spec_accepted() == 0
                            &&& final(self).spec_temps()[i].spec_rejected() == 0
                            &&& final(self).spec_temps()[i].spec_histogram().spec_total() == 0
                            &&& final(self).spec_temps()[i].spec_histogram()@.len() == new_length
                                + 1
                            &&& final(self).spec_temps()[i].spec_ring() =~= Seq::<(
                                u8,
                                u32,
                            )>::empty()
                        }
                    &&& final(self).spec_pairs().spec_keys() == old(self).spec_pairs().spec_keys()
                    &&& final(self).spec_pairs().spec_tries() == 0
                    &&& forall|j: int|
                        0 <= j < final(self).spec_pairs().spec_counts().len()
                            ==> (#[trigger] final(self).spec_pairs().spec_counts()[j]) == (
                        0u64,
                        0u64,
                        )
                },
                Err(e) => e == ConfigError::ZeroLength && new_length == 0 && *final(self) == *old(
                    self,
                ),
            },
            r is Ok <==> new_length >= 1,
    {
        if new_length == 0 {
            return Err(ConfigError::ZeroLength);
        }
        let ghost old_ts = self.spec_temps();
        let n = self.temperatures.len();
        let mut i: usize = 0;
        while i < n
            invariant
                i <= n,
                n == self.spec_temps().len(),
                n == old_ts.len(),
                old_ts == old(self).spec_temps(),
                1 <= new_length < u32::MAX,
                self.spec_num_coins() == old(self).spec_num_coins(),
                self.spec_next_id() == old(self).spec_next_id(),
                self.spec_step_counter() == old(self).spec_step_counter(),
                self.spec_pairs() == old(self).spec_pairs(),
                old(self).inv(),
                forall|k: int| i <= k < n ==> self.spec_temps()[k] == old_ts[k],
                forall|k: int|
                    0 <= k < i ==> {
                        &&& (#[trigger] self.spec_temps()[k]).inv()
                        &&& self.spec_temps()[k].same_identity(&old_ts[k])
                        &&& self.spec_temps()[k]@.len() == new_length
                        &&& self.spec_temps()[k].spec_steps() == 0
                        &&& self.spec_temps()[k].spec_accepted() == 0
                        &&& self.spec_temps()[k].spec_rejected() == 0
                        &&& self.spec_temps()[k].spec_histogram().spec_total() == 0
                        &&& self.spec_temps()[k].spec_histogram()@.len() == new_length + 1
                        &&& self.spec_temps()[k].spec_ring() =~= Seq::<(u8, u32)>::empty()
                    },
            decreases n - i,
        {
            let ghost prev = self.spec_temps();
            let mut t = self.temperatures.remove(i);
            proof {
                assert(t == old_ts[i as int]);
                assert(old(self).spec_temps()[i as int].inv());
            }
            t.adjust_length(new_length, &mut self.rng);
            self.temperatures.insert(i, t);
            proof {
                assert(self.spec_temps() =~= prev.update(i as int, self.spec_temps()[i as int]));
            }
            i = i + 1;
        }
        self.pair_acceptance.reset_counts();
        self.step_counter = 0;
        self.num_coins = new_length;
        proof {
            let new_ts = self.spec_temps();
            assert forall|a: int, b: int| 0 <= a < b < new_ts.len() implies (
            #[trigger] new_ts[a]).spec_beta().scaled < (#[trigger] new_ts[b]).spec_beta().scaled
                by {
                assert(new_ts[a].same_identity(&old_ts[a]));
                assert(new_ts[b].same_identity(&old_ts[b]));
            }
            assert forall|a: int, b: int| 0 <= a < b < new_ts.len() implies (
            #[trigger] new_ts[a]).spec_id() != (#[trigger] new_ts[b]).spec_id() by {
                assert(new_ts[a].same_identity(&old_ts[a]));
                assert(new_ts[b].same_identity(&old_ts[b]));
            }
            assert(adjacent_keys(new_ts) =~= adjacent_keys(old_ts));
            assert(self.spec_pairs().spec_keys() =~= adjacent_keys(new_ts));
        }
        Ok(())
    }
}

} // verus!

verus! {

impl ReplicaSet {
    /// One exchange attempt between the temperature-adjacent replicas at
    /// `lower` and `lower + 1`.  With the exchange acceptance probability
    /// the two configurations (with their display decoration) are swapped
    /// and both replicas record their newly acquired energy; otherwise both
    /// repeat their last history entry.  Either way the pair's statistics
    /// are updated under the two stable ids, and the two configurations are
    /// exactly swapped or exactly kept: never lost, never duplicated.
    #[verifier::rlimit(60)]
    pub fn try_exchange_pair(&mut self, lower: usize)
        requires
            old(self).inv(),
            lower + 1 < old(self).spec_temps().len(),
        ensures
            final(self).inv(),
            final(self).spec_temps().len() == old(self).spec_temps().len(),
            final(self).spec_num_coins() == old(self).spec_num_coins(),
            final(self).spec_next_id() == old(self).spec_next_id(),
            final(self).spec_step_counter() == old(self).spec_step_counter(),
            forall|k: int|
                0 <= k < old(self).spec_temps().len() && k != lower && k != lower + 1
                    ==> final(self).spec_temps()[k] == old(self).spec_temps()[k],
            final(self).spec_temps()[lower as int].same_identity(
                &old(self).spec_temps()[lower as int],
            ),
            final(self).spec_temps()[lower as int + 1].same_identity(
                &old(self).spec_temps()[lower as int + 1],
            ),
            forall|k: int|
                0 <= k < old(self).spec_temps().len() ==> {
                    &&& (#[trigger] final(self).spec_temps()[k]).spec_steps() == old(
                        self,
                    ).spec_temps()[k].spec_steps()
                    &&& final(self).spec_temps()[k].spec_accepted() == old(
                        self,
                    ).spec_temps()[k].spec_accepted()
                    &&& final(self).spec_temps()[k].spec_rejected() == old(
                        self,
                    ).spec_temps()[k].spec_rejected()
                },
            final(self).spec_pairs().spec_keys() == old(self).spec_pairs().spec_keys(),
            final(self).spec_pairs().spec_tries() == old(self).spec_pairs().spec_tries(),
            pair_attempted(
                old(self).spec_temps(),
                old(self).spec_pairs(),
                final(self).spec_temps(),
                final(self).spec_pairs(),
                lower as int,
            ),
    {
        let ghost old_ts = self.spec_temps();
        let n = self.temperatures.len();
        proof {
            assert(lower + 1 < n);
        }
        let prob = exchange_acceptance_probability(
            &self.temperatures[lower],
            &self.temperatures[lower + 1],
        );
        let draw = rng_next_u64(&mut self.rng) >> 1u64;
        proof {
            vstd::bits::lemma_u64_shr_is_div(draw, 1u64);
        }
        let ida = self.temperatures[lower].temperature_id();
        let idb = self.temperatures[lower + 1].temperature_id();
        proof {
            assert(adjacent_keys(old_ts)[lower as int] == pair_key(ida, idb));
            assert(self.spec_pairs().spec_keys()[lower as int] == pair_key(ida, idb));
            assert(self.spec_pairs().spec_keys().contains(pair_key(ida, idb)));
        }
        let accept = draw < prob;
        let mut a = self.temperatures.remove(lower);
        let mut b = self.temperatures.remove(lower);
        proof {
            old_ts.remove_ensures(lower as int);
            old_ts.remove(lower as int).remove_ensures(lower as int);
            assert(a == old_ts[lower as int]);
            assert(b == old_ts[lower as int + 1]);
        }
        if accept {
            core::mem::swap(&mut a.config, &mut b.config);
            let tmp_heads = a.heads;
            a.heads = b.heads;
            b.heads = tmp_heads;
            let tmp_color = a.color;
            a.color = b.color;
            b.color = tmp_color;
            let tmp_marker = a.marker;
            a.marker = b.marker;
            b.marker = tmp_marker;
            let ea = a.heads;
            a.ring_buffer.push((a.color, ea));
            a.hist.increment_quiet(ea);
            let eb = b.heads;
            b.ring_buffer.push((b.color, eb));
            b.hist.increment_quiet(eb);
        } else {
            a.ring_buffer.repeat_last();
            b.ring_buffer.repeat_last();
        }
        self.temperatures.insert(lower, b);
        self.temperatures.insert(lower, a);
        proof {
            let ghost mid = old_ts.remove(lower as int).remove(lower as int);
            mid.insert_ensures(lower as int, b);
            mid.insert(lower as int, b).insert_ensures(lower as int, a);
            assert(self.spec_temps() =~= old_ts.update(lower as int, a).update(
                lower as int + 1,
                b,
            ));
        }
        if accept {
            self.pair_acceptance.count_acceptance(ida, idb);
        } else {
            self.pair_acceptance.count_rejected(ida, idb);
        }
        proof {
            let new_ts = self.spec_temps();
            assert forall|i: int, j: int| 0 <= i < j < new_ts.len() implies (
            #[trigger] new_ts[i]).spec_beta().scaled < (#[trigger] new_ts[j]).spec_beta().scaled
                by {
                assert(new_ts[i].spec_beta() == old_ts[i].spec_beta());
                assert(new_ts[j].spec_beta() == old_ts[j].spec_beta());
            }
            assert forall|i: int, j: int| 0 <= i < j < new_ts.len() implies (
            #[trigger] new_ts[i]).spec_id() != (#[trigger] new_ts[j]).spec_id() by {
                assert(new_ts[i].spec_id() == old_ts[i].spec_id());
                assert(new_ts[j].spec_id() == old_ts[j].spec_id());
            }
            assert(adjacent_keys(new_ts) =~= adjacent_keys(old_ts));
            assert(self.spec_pairs().spec_keys() =~= adjacent_keys(new_ts));
        }
    }

    /// One round of exchange attempts: as many attempts as there are
    /// adjacent pairs, each on a uniformly drawn pair, and one more counted
    /// round.  With fewer than two replicas nothing happens.
    pub fn try_exchanges(&mut self)
        requires
            old(self).inv(),
        ensures
            final(self).inv(),
            final(self).spec_temps().len() == old(self).spec_temps().len(),
            final(self).spec_num_coins() == old(self).spec_num_coins(),
            final(self).spec_next_id() == old(self).spec_next_id(),
            final(self).spec_step_counter() == old(self).spec_step_counter(),
            forall|k: int|
                0 <= k < old(self).spec_temps().len() ==> {
                    &&& (#[trigger] final(self).spec_temps()[k]).same_identity(
                        &old(self).spec_temps()[k],
                    )
                    &&& final(self).spec_temps()[k].spec_steps() == old(
                        self,
                    ).spec_temps()[k].spec_steps()
                    &&& final(self).spec_temps()[k]@.len() == old(self).spec_temps()[k]@.len()
                },
            old(self).spec_temps().len() < 2 ==> *final(self) == *old(self),
            round_outcome(
                old(self).spec_temps(),
                old(self).spec_pairs(),
                final(self).spec_temps(),
                final(self).spec_pairs(),
            ),
    {
        let n = self.temperatures.len();
        if n < 2 {
            return ;
        }
        let num_pairs = n - 1;
        let mut k: usize = 0;
        while k < num_pairs
            invariant
                self.inv(),
                num_pairs + 1 == n,
                k <= num_pairs,
                n == self.spec_temps().len(),
                n == old(self).spec_temps().len(),
                self.spec_num_coins() == old(self).spec_num_coins(),
                self.spec_next_id() == old(self).spec_next_id(),
                self.spec_step_counter() == old(self).spec_step_counter(),
                self.spec_pairs().spec_tries() == old(self).spec_pairs().spec_tries(),
                exchange_round(
                    old(self).spec_temps(),
                    old(self).spec_pairs(),
                    self.spec_temps(),
                    self.spec_pairs(),
                    k as nat,
                ),
                forall|j: int|
                    0 <= j < n ==> {
                        &&& (#[trigger] self.spec_temps()[j]).same_identity(
                            &old(self).spec_temps()[j],
                        )
                        &&& self.spec_temps()[j].spec_steps() == old(
                            self,
                        ).spec_temps()[j].spec_steps()
                        &&& self.spec_temps()[j]@.len() == old(self).spec_temps()[j]@.len()
                    },
            decreases num_pairs - k,
        {
            let ghost prev = self.spec_temps();
            let ghost prev_pa = self.spec_pairs();
            let lower = rng_below(&mut self.rng, num_pairs);
            self.try_exchange_pair(lower);
            proof {
                lemma_exchange_round_snoc(
                    old(self).spec_temps(),
                    old(self).spec_pairs(),
                    prev,
                    prev_pa,
                    self.spec_temps(),
                    self.spec_pairs(),
                    k as nat,
                    lower as int,
                );
                assert forall|j: int| 0 <= j < n implies {
                    &&& (#[trigger] self.spec_temps()[j]).same_identity(
                        &old(self).spec_temps()[j],
                    )
                    &&& self.spec_temps()[j].spec_steps() == old(self).spec_temps()[j].spec_steps()
                    &&& self.spec_temps()[j]@.len() == old(self).spec_temps()[j]@.len()
                } by {
                    if j != lower && j != lower + 1 {
                        assert(self.spec_temps()[j] == prev[j]);
                    } else {
                        assert(self.spec_temps()[j].inv());
                    }
                }
            }
            k = k + 1;
        }
        let ghost mid_pa = self.spec_pairs();
        self.pair_acceptance.count_exchange_try();
        proof {
            assert(exchange_round(
                old(self).spec_temps(),
                old(self).spec_pairs(),
                self.spec_temps(),
                mid_pa,
                (old(self).spec_temps().len() - 1) as nat,
            ));
        }
    }

    /// One scheduling tick: every replica makes one local Metropolis step;
    /// after every `L` ticks (`L` the configuration length) a round of
    /// exchange attempts runs and the cadence restarts.
    pub fn markov_step_all(&mut self)
        requires
            old(self).inv(),
        ensures
            final(self).inv(),
            final(self).spec_temps().len() == old(self).spec_temps().len(),
            final(self).spec_num_coins() == old(self).spec_num_coins(),
            final(self).spec_next_id() == old(self).spec_next_id(),
            forall|k: int|
                0 <= k < old(self).spec_temps().len() ==> {
                    &&& (#[trigger] final(self).spec_temps()[k]).same_identity(
                        &old(self).spec_temps()[k],
                    )
                    &&& final(self).spec_temps()[k].spec_steps() == if old(
                        self,
                    ).spec_temps()[k].spec_steps() < u64::MAX {
                        old(self).spec_temps()[k].spec_steps() + 1
                    } else {
                        old(self).spec_temps()[k].spec_steps() as int
                    }
                },
            old(self).spec_temps().len() == 0 ==> *final(self) == *old(self),
            old(self).spec_temps().len() > 0 ==> final(self).spec_step_counter() == (if old(
                self,
            ).spec_step_counter() + 1 == old(self).spec_num_coins() {
                0int
            } else {
                old(self).spec_step_counter() + 1
            }),
            exists|mid: Seq<Temperature>|
                {
                    &&& #[trigger] mid.len() == old(self).spec_temps().len()
                    &&& (forall|k: int|
                        0 <= k < mid.len() ==> stepped(
                            old(self).spec_temps()[k],
                            #[trigger] mid[k],
                        ))
                    &&& if old(self).spec_temps().len() > 0 && old(self).spec_step_counter() + 1
                        == old(self).spec_num_coins() {
                        round_outcome(
                            mid,
                            old(self).spec_pairs(),
                            final(self).spec_temps(),
                            final(self).spec_pairs(),
                        )
                    } else {
                        final(self).spec_temps() == mid && final(self).spec_pairs() == old(
                            self,
                        ).spec_pairs()
                    }
                },
    {
        let n = self.temperatures.len();
        if n == 0 {
            proof {
                let mid = self.spec_temps();
                assert(mid.len() == old(self).spec_temps().len());
                assert(forall|k: int|
                    0 <= k < mid.len() ==> stepped(old(self).spec_temps()[k], #[trigger] mid[k]));
                assert(final(self).spec_temps() == mid && final(self).spec_pairs() == old(
                    self,
                ).spec_pairs());
            }
            return ;
        }
        let mut i: usize = 0;
        while i < n
            invariant
                i <= n,
                n == self.spec_temps().len(),
                n == old(self).spec_temps().len(),
                self.spec_num_coins() == old(self).spec_num_coins(),
                self.spec_next_id() == old(self).spec_next_id(),
                self.spec_step_counter() == old(self).spec_step_counter(),
                old(self).inv(),
                self.inv(),
                self.spec_pairs() == old(self).spec_pairs(),
                forall|k: int| i <= k < n ==> self.spec_temps()[k] == old(self).spec_temps()[k],
                forall|k: int|
                    0 <= k < i ==> stepped(
                        old(self).spec_temps()[k],
                        #[trigger] self.spec_temps()[k],
                    ),
                forall|k: int|
                    0 <= k < i ==> {
                        &&& (#[trigger] self.spec_temps()[k]).same_identity(
                            &old(self).spec_temps()[k],
                        )
                        &&& self.spec_temps()[k].spec_steps() == if old(
                            self,
                        ).spec_temps()[k].spec_steps() < u64::MAX {
                            old(self).spec_temps()[k].spec_steps() + 1
                        } else {
                            old(self).spec_temps()[k].spec_steps() as int
                        }
                    },
            decreases n - i,
        {
            let ghost prev = self.spec_temps();
            let mut t = self.temperatures.remove(i);
            proof {
                assert(t == old(self).spec_temps()[i as int]);
            }
            t.markov_step(&mut self.rng);
            self.temperatures.insert(i, t);
            proof {
                assert(self.spec_temps() =~= prev.update(i as int, self.spec_temps()[i as int]));
                let new_ts = self.spec_temps();
                assert forall|a: int, b: int| 0 <= a < b < new_ts.len() implies (
                #[trigger] new_ts[a]).spec_beta().scaled < (#[trigger] new_ts[b]).spec_beta().scaled
                    by {
                    assert(new_ts[a].spec_beta() == prev[a].spec_beta());
                    assert(new_ts[b].spec_beta() == prev[b].spec_beta());
                }
                assert forall|a: int, b: int| 0 <= a < b < new_ts.len() implies (
                #[trigger] new_ts[a]).spec_id() != (#[trigger] new_ts[b]).spec_id() by {
                    assert(new_ts[a].spec_id() == prev[a].spec_id());
                    assert(new_ts[b].spec_id() == prev[b].spec_id());
                }
                assert(adjacent_keys(new_ts) =~= adjacent_keys(prev));
                assert(self.spec_pairs().spec_keys() =~= adjacent_keys(new_ts));
            }
            i = i + 1;
        }
        let ghost mid = self.spec_temps();
        self.step_counter = self.step_counter + 1;
        if self.step_counter >= self.num_coins {
            self.step_counter = 0;
            self.try_exchanges();
            proof {
                assert(mid.len() == old(self).spec_temps().len());
                assert(forall|k: int|
                    0 <= k < mid.len() ==> stepped(old(self).spec_temps()[k], #[trigger] mid[k]));
                assert(round_outcome(
                    mid,
                    old(self).spec_pairs(),
                    final(self).spec_temps(),
                    final(self).spec_pairs(),
                ));
            }
        } else {
            proof {
                assert(mid.len() == old(self).spec_temps().len());
                assert(forall|k: int|
                    0 <= k < mid.len() ==> stepped(old(self).spec_temps()[k], #[trigger] mid[k]));
                assert(final(self).spec_temps() == mid && final(self).spec_pairs() == old(
                    self,
                ).spec_pairs());
            }
        }
    }
}

} // verus!

verus! {

/// For every replica, accepted and rejected local steps together account
/// for every local step attempted.
pub proof fn lemma_steps_accounted(t: &Temperature)
    requires
        t.inv(),
    ensures
        t.spec_accepted() + t.spec_rejected() == t.spec_steps(),
{
}

} // verus!

verus! {

/// A counter one higher, saturating at its capacity.
pub open spec fn saturating_inc(c: u64) -> u64 {
    if c < u64::MAX {
        (c + 1) as u64
    } else {
        c
    }
}

/// The history `post` is `pre` with its newest entry repeated, the way
/// `add_rejected_exchange_to_ringbuffer` repeats it: unchanged when empty.
pub open spec fn ring_repeated(pre: Seq<(u8, u32)>, post: Seq<(u8, u32)>) -> bool {
    post == if pre.len() == 0 {
        pre
    } else {
        fifo_pushed(pre, HISTORY_LEN, pre.last())
    }
}

/// An accepted exchange between the adjacent replicas `a` (first in chain
/// order) and `b`: each keeps its temperature, stable id and statistics,
/// takes the other's configuration and display decoration, and records its
/// newly acquired energy in its histogram and its history.
pub open spec fn exchange_accepted(
    a: Temperature,
    b: Temperature,
    a2: Temperature,
    b2: Temperature,
) -> bool {
    &&& a2.same_identity(&a)
    &&& b2.same_identity(&b)
    &&& a2@ == b@
    &&& b2@ == a@
    &&& a2.spec_color() == b.spec_color()
    &&& a2.spec_marker() == b.spec_marker()
    &&& b2.spec_color() == a.spec_color()
    &&& b2.spec_marker() == a.spec_marker()
    &&& a2.spec_steps() == a.spec_steps()
    &&& a2.spec_accepted() == a.spec_accepted()
    &&& a2.spec_rejected() == a.spec_rejected()
    &&& b2.spec_steps() == b.spec_steps()
    &&& b2.spec_accepted() == b.spec_accepted()
    &&& b2.spec_rejected() == b.spec_rejected()
    &&& a2.spec_ring() == fifo_pushed(
        a.spec_ring(),
        HISTORY_LEN,
        (b.spec_color(), spec_heads(b@) as u32),
    )
    &&& b2.spec_ring() == fifo_pushed(
        b.spec_ring(),
        HISTORY_LEN,
        (a.spec_color(), spec_heads(a@) as u32),
    )
    &&& crate::histogram::hist_incremented(
        a.spec_histogram(),
        a2.spec_histogram(),
        spec_heads(b@) as int,
    )
    &&& crate::histogram::hist_incremented(
        b.spec_histogram(),
        b2.spec_histogram(),
        spec_heads(a@) as int,
    )
}

/// A rejected exchange between `a` and `b`: both replicas keep everything
/// and repeat their newest history entry, so the display stream has no gap.
pub open spec fn exchange_rejected(
    a: Temperature,
    b: Temperature,
    a2: Temperature,
    b2: Temperature,
) -> bool {
    &&& a2.same_identity(&a)
    &&& b2.same_identity(&b)
    &&& a2@ == a@
    &&& b2@ == b@
    &&& a2.spec_color() == a.spec_color()
    &&& a2.spec_marker() == a.spec_marker()
    &&& b2.spec_color() == b.spec_color()
    &&& b2.spec_marker() == b.spec_marker()
    &&& a2.spec_steps() == a.spec_steps()
    &&& a2.spec_accepted() == a.spec_accepted()
    &&& a2.spec_rejected() == a.spec_rejected()
    &&& b2.spec_steps() == b.spec_steps()
    &&& b2.spec_accepted() == b.spec_accepted()
    &&& b2.spec_rejected() == b.spec_rejected()
    &&& a2.spec_histogram() == a.spec_histogram()
    &&& b2.spec_histogram() == b.spec_histogram()
    &&& ring_repeated(a.spec_ring(), a2.spec_ring())
    &&& ring_repeated(b.spec_ring(), b2.spec_ring())
}

/// One exchange attempt at the adjacent pair `(lower, lower + 1)` leads
/// from `(pre_ts, pre_pa)` to `(post_ts, post_pa)`: every other replica is
/// untouched, and exactly one acceptance or rejection is recorded for the
/// pair under the two replicas' stable ids, accordingly as the two
/// configurations are exchanged or kept.
pub open spec fn pair_attempted(
    pre_ts: Seq<Temperature>,
    pre_pa: PairAcceptance,
    post_ts: Seq<Temperature>,
    post_pa: PairAcceptance,
    lower: int,
) -> bool {
    &&& 0 <= lower
    &&& lower + 1 < pre_ts.len()
    &&& post_ts.len() == pre_ts.len()
    &&& (forall|k: int|
        0 <= k < pre_ts.len() && k != lower && k != lower + 1 ==> post_ts[k] == pre_ts[k])
    &&& post_pa.spec_keys() == pre_pa.spec_keys()
    &&& post_pa.spec_tries() == pre_pa.spec_tries()
    &&& ({
        let a = pre_ts[lower];
        let b = pre_ts[lower + 1];
        let i = pre_pa.index_of(a.spec_id(), b.spec_id());
        let (acc, rej) = pre_pa.spec_counts()[i];
        ||| (exchange_accepted(a, b, post_ts[lower], post_ts[lower + 1]) && post_pa.spec_counts()
            =~= pre_pa.spec_counts().update(i, (saturating_inc(acc), rej)))
        ||| (exchange_rejected(a, b, post_ts[lower], post_ts[lower + 1]) && post_pa.spec_counts()
            =~= pre_pa.spec_counts().update(i, (acc, saturating_inc(rej))))
    })
}

/// `k` exchange attempts, each on some adjacent pair, lead from
/// `(pre_ts, pre_pa)` to `(post_ts, post_pa)`.
pub open spec fn exchange_round(
    pre_ts: Seq<Temperature>,
    pre_pa: PairAcceptance,
    post_ts: Seq<Temperature>,
    post_pa: PairAcceptance,
    k: nat,
) -> bool
    decreases k,
{
    if k == 0 {
        post_ts == pre_ts && post_pa == pre_pa
    } else {
        exists|mid_ts: Seq<Temperature>, mid_pa: PairAcceptance, lower: int|
            #[trigger] pair_attempted(pre_ts, pre_pa, mid_ts, mid_pa, lower) && exchange_round(
                mid_ts,
                mid_pa,
                post_ts,
                post_pa,
                (k - 1) as nat,
            )
    }
}

/// What one full round of exchange attempts does: with fewer than two
/// replicas nothing at all; otherwise exactly `len - 1` attempts, each on
/// an adjacent pair and each recorded for that pair, and one more counted
/// round.
pub open spec fn round_outcome(
    pre_ts: Seq<Temperature>,
    pre_pa: PairAcceptance,
    post_ts: Seq<Temperature>,
    post_pa: PairAcceptance,
) -> bool {
    if pre_ts.len() < 2 {
        post_ts == pre_ts && post_pa == pre_pa
    } else {
        exists|mid_pa: PairAcceptance|
            {
                &&& #[trigger] exchange_round(
                    pre_ts,
                    pre_pa,
                    post_ts,
                    mid_pa,
                    (pre_ts.len() - 1) as nat,
                )
                &&& post_pa.spec_keys() == mid_pa.spec_keys()
                &&& post_pa.spec_counts() == mid_pa.spec_counts()
                &&& post_pa.spec_tries() == saturating_inc(pre_pa.spec_tries())
            }
    }
}

/// An exchange round extended by one more attempt is again a round.
proof fn lemma_exchange_round_snoc(
    pre_ts: Seq<Temperature>,
    pre_pa: PairAcceptance,
    mid_ts: Seq<Temperature>,
    mid_pa: PairAcceptance,
    post_ts: Seq<Temperature>,
    post_pa: PairAcceptance,
    k: nat,
    lower: int,
)
    requires
        exchange_round(pre_ts, pre_pa, mid_ts, mid_pa, k),
        pair_attempted(mid_ts, mid_pa, post_ts, post_pa, lower),
    ensures
        exchange_round(pre_ts, pre_pa, post_ts, post_pa, k + 1),
    decreases k,
{
    if k == 0 {
        assert(exchange_round(post_ts, post_pa, post_ts, post_pa, 0));
        assert(pair_attempted(pre_ts, pre_pa, post_ts, post_pa, lower));
    } else {
        let (m1_ts, m1_pa, l1) = choose|m1_ts: Seq<Temperature>, m1_pa: PairAcceptance, l1: int|
            #[trigger] pair_attempted(pre_ts, pre_pa, m1_ts, m1_pa, l1) && exchange_round(
                m1_ts,
                m1_pa,
                mid_ts,
                mid_pa,
                (k - 1) as nat,
            );
        lemma_exchange_round_snoc(m1_ts, m1_pa, mid_ts, mid_pa, post_ts, post_pa, (k - 1) as nat, lower);
        assert(pair_attempted(pre_ts, pre_pa, m1_ts, m1_pa, l1) && exchange_round(
            m1_ts,
            m1_pa,
            post_ts,
            post_pa,
            k,
        ));
    }
}

} // verus!
