//! The flat-histogram (Wang-Landau) sampling engine.
//!
//! The engine owns one coin-flip ensemble, a running log density-of-states
//! estimate indexed by energy (head count), a modification factor and a
//! step counter.  Log-scale quantities are held as fixed-point integers in
//! units of `2^-32` natural-log units (see [`crate::fixed`]); the host
//! rescales them for display only.
//!
//! A run has two phases.  A greedy initialization drives the walker toward
//! every reachable energy bin within an effort bound, so that the estimate
//! starts with no unreached bins.  The flat-histogram loop then proposes
//! single-site moves, accepts each with probability
//! `min(1, exp(log_density[old] - log_density[new]))`, records the
//! resulting energy, and adds the modification factor to the estimate at
//! that energy.  Whenever the histogram of recorded energies has become
//! flat, the histogram restarts and the modification factor halves; the
//! run is converged as soon as the factor is at or below its threshold.

use vstd::prelude::*;

use crate::coin::{
    coin_heads, lemma_undo_roundtrip, step_applied, trace_applied, CoinFlipMove, CoinFlipSequence,
};
use crate::errors::ConfigError;
use crate::fixed::{exp_neg, LOG_UNIT};
use crate::histogram::{sum_counts, Histogram};
use crate::rng::{rng_from_seed, rng_next_u64};

verus! {

/// How the estimate is displayed by the host.
#[derive(Debug, Clone, Copy, PartialEq, Eq, Structural, Default)]
pub enum DisplayState {
    #[default]
    Log,
    Linear,
}

/// How a curve is drawn by the host.
#[derive(Debug, Clone, Copy, PartialEq, Eq, Structural, Default)]
pub enum LineOrPoints {
    Line,
    #[default]
    Points,
}

/// Whether the sampler runs at full speed or in slow motion, where the
/// host limits the steps per invocation to keep the walker visible.
#[derive(Debug, Clone, Copy, PartialEq, Eq, Structural, Default)]
pub enum Speed {
    Regular,
    #[default]
    SlowMotion,
}

impl Speed {
    pub fn is_slow_motion(self) -> (r: bool)
        ensures
            r == (self is SlowMotion),
    {
        match self {
            Speed::SlowMotion => true,
            Speed::Regular => false,
        }
    }
}

/// Flatness tolerances are fractions with a small denominator, so that the
/// flatness test is exact integer arithmetic.
pub const FLATNESS_DEN_MAX: u64 = 10000;

/// Configuration of a Wang-Landau run.
#[derive(Debug, Clone, Copy, PartialEq, Eq, Structural)]
pub struct WangLandauConfig {
    /// How many coins to consider.
    pub coin_sequence_length: u32,
    /// Seed for the random number generators.
    pub seed: u64,
    /// The run is converged when the modification factor is at or below
    /// this threshold (in scaled log units; must be positive).
    pub target_log_f: u64,
    /// Steps between two flatness checks (must be positive).
    pub check_interval: u64,
    /// The histogram is flat when every visited bin holds at least
    /// `flatness_num / flatness_den` of the mean count.
    pub flatness_num: u64,
    /// Denominator of the flatness tolerance (in `1 ..= FLATNESS_DEN_MAX`).
    pub flatness_den: u64,
    /// Effort bound of the greedy initialization, in attempted moves.
    pub greedy_cap: u64,
}

impl Default for WangLandauConfig {
    /// Five hundred coins, a tolerance of nine tenths, a flatness check
    /// every ten sweeps, and a threshold of about `1e-5`.
    fn default() -> (r: WangLandauConfig)
        ensures
            r.valid(),
            r.coin_sequence_length == 500,
    {
        WangLandauConfig {
            coin_sequence_length: 500,
            seed: 0,
            target_log_f: 42950,
            check_interval: 5000,
            flatness_num: 9,
            flatness_den: 10,
            greedy_cap: 1000000,
        }
    }
}

impl WangLandauConfig {
    /// The configuration is accepted by `WangLandauEngine::new`.
    pub open spec fn valid(self) -> bool {
        &&& 1 <= self.coin_sequence_length < u32::MAX
        &&& self.target_log_f >= 1
        &&& self.check_interval >= 1
        &&& 1 <= self.flatness_den <= FLATNESS_DEN_MAX
        &&& self.flatness_num <= self.flatness_den
    }
}

/// Count of the visited energy bins.
pub open spec fn count_visited(vs: Seq<bool>) -> nat {
    crate::coin::spec_heads(vs)
}

/// The histogram is flat: every visited bin holds at least
/// `num / den` of the mean count over the visited bins.
pub open spec fn is_flat(counts: Seq<u64>, visited: Seq<bool>, num: u64, den: u64) -> bool {
    forall|e: int|
        0 <= e < counts.len() && e < visited.len() && visited[e] ==> (#[trigger] counts[e]) * den
            * count_visited(visited) >= num * sum_counts(counts)
}

/// The flat-histogram (Wang-Landau) sampling engine.
pub struct WangLandauEngine {
    ensemble: CoinFlipSequence,
    rng: rand_pcg::Pcg64,
    hist: Histogram,
    log_density: Vec<u128>,
    visited: Vec<bool>,
    energy: u32,
    log_f: u64,
    threshold: u64,
    check_interval: u64,
    flatness_num: u64,
    flatness_den: u64,
    step_counter: u64,
}

impl WangLandauEngine {
    /// The ensemble's configuration.
    pub closed spec fn spec_config(&self) -> Seq<crate::coin::CoinFlip> {
        self.ensemble@
    }

    /// The running log density-of-states estimate, in scaled log units.
    pub closed spec fn spec_log_density(&self) -> Seq<u128> {
        self.log_density@
    }

    /// Which energy bins the walker has reached so far.
    pub closed spec fn spec_visited(&self) -> Seq<bool> {
        self.visited@
    }

    /// The modification factor, in scaled log units.
    pub closed spec fn spec_log_f(&self) -> u64 {
        self.log_f
    }

    /// The convergence threshold, in scaled log units.
    pub closed spec fn spec_threshold(&self) -> u64 {
        self.threshold
    }

    /// Flat-histogram steps taken so far.
    pub closed spec fn spec_step_counter(&self) -> u64 {
        self.step_counter
    }

    /// The histogram of energies recorded since the last flatness restart.
    pub closed spec fn spec_histogram(&self) -> Histogram {
        self.hist
    }

    /// The walker's current energy bin.
    pub closed spec fn spec_energy(&self) -> u32 {
        self.energy
    }

    /// The run is converged: the modification factor has fallen to or
    /// below the threshold.  Sampling stops exactly then.
    pub open spec fn spec_converged(&self) -> bool {
        self.spec_log_f() <= self.spec_threshold()
    }

    /// Structural invariant.  The tracked energy always equals the head
    /// count of the configuration; the modification factor stays in
    /// `1 ..= LOG_UNIT`; the estimate grows by at most one modification
    /// factor per counted step, which keeps its entries far from overflow;
    /// and a bin the walker never reached holds estimate zero.
    pub open spec fn inv(&self) -> bool {
        &&& 1 <= self.spec_config().len() < u32::MAX
        &&& self.spec_energy() == coin_heads(self.spec_config())
        &&& self.spec_histogram().inv()
        &&& self.spec_histogram()@.len() == self.spec_config().len() + 1
        &&& self.spec_log_density().len() == self.spec_config().len() + 1
        &&& self.spec_visited().len() == self.spec_config().len() + 1
        &&& 1 <= self.spec_log_f() <= LOG_UNIT
        &&& self.spec_threshold() >= 1
        &&& 1 <= self.spec_check_interval()
        &&& 1 <= self.spec_flatness_den() <= FLATNESS_DEN_MAX
        &&& self.spec_flatness_num() <= self.spec_flatness_den()
        &&& forall|e: int|
            0 <= e < self.spec_log_density().len() ==> (#[trigger] self.spec_log_density()[e])
                <= self.spec_step_counter() * LOG_UNIT
        &&& forall|e: int|
            0 <= e < self.spec_log_density().len() && !self.spec_visited()[e]
                ==> self.spec_log_density()[e] == 0
        &&& self.spec_ensemble().spec_steps() == self.spec_step_counter()
        &&& self.spec_ensemble().spec_accepted() + self.spec_ensemble().spec_rejected()
            == self.spec_ensemble().spec_steps()
        &&& self.spec_ensemble().spec_rejected() == self.spec_ensemble().spec_undo_count()
    }

    /// The underlying ensemble with its bookkeeping.
    pub closed spec fn spec_ensemble(&self) -> CoinFlipSequence {
        self.ensemble
    }

    pub closed spec fn spec_check_interval(&self) -> u64 {
        self.check_interval
    }

    pub closed spec fn spec_flatness_num(&self) -> u64 {
        self.flatness_num
    }

    pub closed spec fn spec_flatness_den(&self) -> u64 {
        self.flatness_den
    }

    /// The modification factor, in scaled log units.
    pub fn log_f(&self) -> (r: u64)
        ensures
            r == self.spec_log_f(),
    {
        self.log_f
    }

    /// Flat-histogram steps taken so far.
    pub fn step_counter(&self) -> (r: u64)
        ensures
            r == self.spec_step_counter(),
    {
        self.step_counter
    }

    /// The convergence threshold, in scaled log units.
    pub fn threshold(&self) -> (r: u64)
        ensures
            r == self.spec_threshold(),
    {
        self.threshold
    }

    /// The walker's current energy bin.
    pub fn energy(&self) -> (r: u32)
        requires
            self.inv(),
        ensures
            r == coin_heads(self.spec_config()),
    {
        self.energy
    }

    /// The run is converged.
    pub fn is_converged(&self) -> (r: bool)
        ensures
            r == self.spec_converged(),
    {
        self.log_f <= self.threshold
    }

    /// The histogram of energies recorded since the last flatness restart.
    pub fn hist(&self) -> (r: &Histogram)
        ensures
            *r == self.spec_histogram(),
    {
        &self.hist
    }

    /// The accept/reject bookkeeping of the underlying ensemble.
    pub fn ensemble(&self) -> (r: &CoinFlipSequence)
        ensures
            *r == self.spec_ensemble(),
            r@ == self.spec_config(),
    {
        &self.ensemble
    }

    /// The log density-of-states estimate, in scaled log units: one entry
    /// per energy bin, and nothing for a bin the walker never reached.
    pub fn log_density(&self) -> (r: Vec<Option<u128>>)
        requires
            self.inv(),
        ensures
            r@.len() == self.spec_log_density().len(),
            forall|e: int|
                0 <= e < r@.len() ==> #[trigger] r@[e] == if self.spec_visited()[e] {
                    Some(self.spec_log_density()[e])
                } else {
                    None::<u128>
                },
    {
        let n = self.log_density.len();
        let mut out: Vec<Option<u128>> = Vec::new();
        let mut e: usize = 0;
        while e < n
            invariant
                e <= n,
                n == self.spec_log_density().len(),
                n == self.spec_visited().len(),
                out@.len() == e,
                forall|k: int|
                    0 <= k < e ==> #[trigger] out@[k] == if self.spec_visited()[k] {
                        Some(self.spec_log_density()[k])
                    } else {
                        None::<u128>
                    },
            decreases n - e,
        {
            if self.visited[e] {
                out.push(Some(self.log_density[e]));
            } else {
                out.push(None);
            }
            e = e + 1;
        }
        out
    }

    /// Move the convergence threshold of a running engine.  A zero
    /// threshold stands for no positive value and is rejected; the engine
    /// is unchanged then.
    pub fn set_threshold(&mut self, target_log_f: u64) -> (r: Result<(), ConfigError>)
        requires
            old(self).inv(),
        ensures
            final(self).inv(),
            r is Ok <==> target_log_f >= 1,
            r is Ok ==> {
                &&& final(self).spec_threshold() == target_log_f
                &&& final(self).spec_config() == old(self).spec_config()
                &&& final(self).spec_log_density() == old(self).spec_log_density()
                &&& final(self).spec_visited() == old(self).spec_visited()
                &&& final(self).spec_log_f() == old(self).spec_log_f()
                &&& final(self).spec_histogram() == old(self).spec_histogram()
                &&& final(self).spec_step_counter() == old(self).spec_step_counter()
            },
            r is Err ==> (*final(self) == *old(self) && r == Err::<(), ConfigError>(
                ConfigError::NonPositiveThreshold,
            )),
    {
        if target_log_f == 0 {
            return Err(ConfigError::NonPositiveThreshold);
        }
        self.threshold = target_log_f;
        Ok(())
    }
}

} // verus!

verus! {

/// Distance between two energy bins.
pub open spec fn bin_dist(a: int, b: int) -> int {
    if a <= b {
        b - a
    } else {
        a - b
    }
}

impl WangLandauEngine {
    /// Whether the histogram of recorded energies is flat: every visited
    /// bin holds at least the configured fraction of the mean count.
    pub fn check_flat(&self) -> (r: bool)
        requires
            self.inv(),
        ensures
            r == is_flat(
                self.spec_histogram()@,
                self.spec_visited(),
                self.spec_flatness_num(),
                self.spec_flatness_den(),
            ),
    {
        let vcount = crate::tempering::count_heads_vec(&self.visited) as u64;
        let total = self.hist.total();
        let n = self.hist.bin_count();
        let ghost counts = self.spec_histogram()@;
        proof {
            crate::coin::lemma_heads_le_len(self.spec_visited());
        }
        let mut e: usize = 0;
        while e < n
            invariant
                self.inv(),
                e <= n,
                n == counts.len(),
                counts == self.spec_histogram()@,
                n == self.spec_visited().len(),
                vcount == count_visited(self.spec_visited()),
                vcount <= n,
                total == sum_counts(counts),
                forall|k: int|
                    0 <= k < e && self.spec_visited()[k] ==> (#[trigger] counts[k])
                        * self.spec_flatness_den() * count_visited(self.spec_visited()) >= self.spec_flatness_num()
                        * sum_counts(counts),
            decreases n - e,
        {
            if self.visited[e] {
                let c = self.hist.count(e as u32);
                proof {
                    assert((c as u128) * (self.spec_flatness_den() as u128) <= (u64::MAX as u128)
                        * (FLATNESS_DEN_MAX as u128)) by (nonlinear_arith)
                        requires
                            c <= u64::MAX,
                            self.spec_flatness_den() <= FLATNESS_DEN_MAX,
                    ;
                    assert((c as u128) * (self.spec_flatness_den() as u128) * (vcount as u128)
                        <= (u64::MAX as u128) * (FLATNESS_DEN_MAX as u128) * (u32::MAX as u128))
                        by (nonlinear_arith)
                        requires
                            c <= u64::MAX,
                            self.spec_flatness_den() <= FLATNESS_DEN_MAX,
                            vcount <= u32::MAX,
                    ;
                    assert((self.spec_flatness_num() as u128) * (total as u128) <= (
                    FLATNESS_DEN_MAX as u128) * (u64::MAX as u128)) by (nonlinear_arith)
                        requires
                            self.spec_flatness_num() <= FLATNESS_DEN_MAX,
                            total <= u64::MAX,
                    ;
                }
                let lhs: u128 = (c as u128) * (self.flatness_den as u128) * (vcount as u128);
                let rhs: u128 = (self.flatness_num as u128) * (total as u128);
                if lhs < rhs {
                    return false;
                }
            }
            e = e + 1;
        }
        true
    }

    /// The nearest energy bin the walker has not reached yet, if any.
    fn nearest_unvisited(&self, from: u32) -> (r: Option<u32>)
        requires
            self.inv(),
        ensures
            match r {
                Some(t) => t < self.spec_visited().len() && !self.spec_visited()[t as int]
                    && (forall|u: int|
                    0 <= u < self.spec_visited().len() && !self.spec_visited()[u] ==> bin_dist(
                        t as int,
                        from as int,
                    ) <= bin_dist(u, from as int)),
                None => forall|u: int|
                    0 <= u < self.spec_visited().len() ==> self.spec_visited()[u],
            },
    {
        let n = self.visited.len();
        let mut best: u32 = 0;
        let mut have = false;
        let mut e: usize = 0;
        while e < n
            invariant
                self.inv(),
                e <= n,
                n == self.spec_visited().len(),
                n <= u32::MAX,
                have ==> best < n && !self.spec_visited()[best as int] && (forall|u: int|
                    0 <= u < e && !self.spec_visited()[u] ==> bin_dist(best as int, from as int)
                        <= bin_dist(u, from as int)),
                !have ==> forall|u: int| 0 <= u < e ==> self.spec_visited()[u],
            decreases n - e,
        {
            if !self.visited[e] {
                let d = if (e as u32) <= from {
                    from - e as u32
                } else {
                    e as u32 - from
                };
                let bd = if best <= from {
                    from - best
                } else {
                    best - from
                };
                if !have || d < bd {
                    best = e as u32;
                    have = true;
                }
            }
            e = e + 1;
        }
        if have {
            Some(best)
        } else {
            None
        }
    }

    /// Greedy initialization: walk toward the nearest unreached energy bin,
    /// accepting every move that does not move away from it, until every
    /// bin has been reached or the effort bound is spent.  This phase keeps
    /// no acceptance statistics and counts no sampling steps.
    fn greedy_init(&mut self, cap: u64)
        requires
            old(self).inv(),
        ensures
            final(self).inv(),
            final(self).spec_config().len() == old(self).spec_config().len(),
            final(self).spec_log_density() == old(self).spec_log_density(),
            final(self).spec_histogram() == old(self).spec_histogram(),
            final(self).spec_log_f() == old(self).spec_log_f(),
            final(self).spec_threshold() == old(self).spec_threshold(),
            final(self).spec_step_counter() == old(self).spec_step_counter(),
            final(self).spec_check_interval() == old(self).spec_check_interval(),
            final(self).spec_flatness_num() == old(self).spec_flatness_num(),
            final(self).spec_flatness_den() == old(self).spec_flatness_den(),
            final(self).spec_visited().len() == old(self).spec_visited().len(),
            forall|e: int|
                0 <= e < old(self).spec_visited().len() && old(self).spec_visited()[e]
                    ==> final(self).spec_visited()[e],
            final(self).spec_visited()[coin_heads(final(self).spec_config()) as int],
    {
        let ghost old_visited = self.spec_visited();
        proof {
            crate::coin::lemma_coin_heads_le_len(self.spec_config());
        }
        self.visited.set(self.energy as usize, true);
        let mut attempts: u64 = 0;
        let mut done = false;
        while attempts < cap && !done
            invariant
                self.inv(),
                self.spec_config().len() == old(self).spec_config().len(),
                self.spec_log_density() == old(self).spec_log_density(),
                self.spec_histogram() == old(self).spec_histogram(),
                self.spec_log_f() == old(self).spec_log_f(),
                self.spec_threshold() == old(self).spec_threshold(),
                self.spec_step_counter() == old(self).spec_step_counter(),
                self.spec_check_interval() == old(self).spec_check_interval(),
                self.spec_flatness_num() == old(self).spec_flatness_num(),
                self.spec_flatness_den() == old(self).spec_flatness_den(),
                self.spec_visited().len() == old(self).spec_visited().len(),
                forall|e: int|
                    0 <= e < old_visited.len() && old_visited[e] ==> self.spec_visited()[e],
                old_visited == old(self).spec_visited(),
                self.spec_visited()[coin_heads(self.spec_config()) as int],
            decreases cap - attempts,
        {
            match self.nearest_unvisited(self.energy) {
                None => {
                    done = true;
                },
                Some(target) => {
                    let ghost before_cfg = self.spec_config();
                    let ghost pre_visited = self.spec_visited();
                    let step = self.ensemble.m_step();
                    proof {
                        lemma_undo_roundtrip(before_cfg, self.spec_config(), step);
                    }
                    let mut e_new = self.energy;
                    self.ensemble.update_head_count(&step, &mut e_new);
                    let d_new = if e_new <= target {
                        target - e_new
                    } else {
                        e_new - target
                    };
                    let d_old = if self.energy <= target {
                        target - self.energy
                    } else {
                        self.energy - target
                    };
                    if d_new <= d_old {
                        self.energy = e_new;
                        proof {
                            crate::coin::lemma_coin_heads_le_len(self.spec_config());
                        }
                    } else {
                        self.ensemble.undo_step(&step);
                        proof {
                            assert(self.spec_config() == before_cfg);
                        }
                    }
                    proof {
                        crate::coin::lemma_coin_heads_le_len(self.spec_config());
                    }
                    self.visited.set(self.energy as usize, true);
                    proof {
                        assert forall|e: int|
                            0 <= e < old_visited.len() && old_visited[e] implies self.spec_visited()[e] by {
                            assert(pre_visited[e]);
                        }
                    }
                },
            }
            attempts = attempts + 1;
        }
    }

    /// A converged-from-the-start engine is still built; the host may then
    /// lower the threshold.  The configuration is validated first: a zero
    /// length, a zero threshold, a zero check interval and a tolerance
    /// that is no fraction are each rejected, in that order.
    pub fn new(config: WangLandauConfig) -> (r: Result<WangLandauEngine, ConfigError>)
        ensures
            match r {
                Ok(engine) => {
                    &&& config.valid()
                    &&& engine.inv()
                    &&& engine.spec_config().len() == config.coin_sequence_length
                    &&& engine.spec_log_f() == LOG_UNIT
                    &&& engine.spec_threshold() == config.target_log_f
                    &&& engine.spec_step_counter() == 0
                    &&& engine.spec_histogram().spec_total() == 0
                    &&& engine.spec_check_interval() == config.check_interval
                    &&& engine.spec_flatness_num() == config.flatness_num
                    &&& engine.spec_flatness_den() == config.flatness_den
                    &&& engine.spec_visited()[coin_heads(engine.spec_config()) as int]
                },
                Err(e) => {
                    &&& !config.valid()
                    &&& match e {
                        ConfigError::ZeroLength => config.coin_sequence_length == 0
                            || config.coin_sequence_length == u32::MAX,
                        ConfigError::NonPositiveThreshold => 1 <= config.coin_sequence_length
                            < u32::MAX && config.target_log_f == 0,
                        ConfigError::ZeroCheckInterval => 1 <= config.coin_sequence_length
                            < u32::MAX && config.target_log_f >= 1 && config.check_interval == 0,
                        ConfigError::InvalidFlatness => 1 <= config.coin_sequence_length
                            < u32::MAX && config.target_log_f >= 1 && config.check_interval >= 1
                            && !(1 <= config.flatness_den <= FLATNESS_DEN_MAX
                            && config.flatness_num <= config.flatness_den),
                    }
                },
            },
            r is Ok <==> config.valid(),
    {
        if config.coin_sequence_length == 0 || config.coin_sequence_length == u32::MAX {
            return Err(ConfigError::ZeroLength);
        }
        if config.target_log_f == 0 {
            return Err(ConfigError::NonPositiveThreshold);
        }
        if config.check_interval == 0 {
            return Err(ConfigError::ZeroCheckInterval);
        }
        if !(1 <= config.flatness_den && config.flatness_den <= FLATNESS_DEN_MAX
            && config.flatness_num <= config.flatness_den) {
            return Err(ConfigError::InvalidFlatness);
        }
        let length = config.coin_sequence_length;
        let ensemble = CoinFlipSequence::new(
            length as usize,
            rng_from_seed(config.seed.wrapping_add(1)),
        );
        let energy = ensemble.head_count();
        let bins = length as usize + 1;
        let mut log_density: Vec<u128> = Vec::new();
        let mut visited: Vec<bool> = Vec::new();
        let mut i: usize = 0;
        while i < bins
            invariant
                i <= bins,
                log_density@.len() == i,
                visited@.len() == i,
                forall|k: int| 0 <= k < i ==> log_density@[k] == 0,
                forall|k: int| 0 <= k < i ==> !visited@[k],
            decreases bins - i,
        {
            log_density.push(0);
            visited.push(false);
            i = i + 1;
        }
        let mut engine = WangLandauEngine {
            ensemble,
            rng: rng_from_seed(config.seed),
            hist: Histogram::new(length),
            log_density,
            visited,
            energy,
            log_f: LOG_UNIT,
            threshold: config.target_log_f,
            check_interval: config.check_interval,
            flatness_num: config.flatness_num,
            flatness_den: config.flatness_den,
            step_counter: 0,
        };
        proof {
            crate::coin::lemma_coin_heads_le_len(engine.spec_config());
        }
        engine.greedy_init(config.greedy_cap);
        Ok(engine)
    }
}

} // verus!

verus! {

impl WangLandauEngine {
    /// One flat-histogram step: propose a single-site move, accept it with
    /// probability `min(1, exp(log_density[old] - log_density[new]))` and
    /// undo it otherwise; record the resulting energy in the histogram and
    /// add the modification factor to the estimate there; at every check
    /// interval, restart a flat histogram and halve the modification
    /// factor.
    fn wl_step(&mut self)
        requires
            old(self).inv(),
            !old(self).spec_converged(),
            old(self).spec_step_counter() < u64::MAX,
        ensures
            final(self).inv(),
            final(self).spec_step_counter() == old(self).spec_step_counter() + 1,
            final(self).spec_log_f() == old(self).spec_log_f() || final(self).spec_log_f() == old(
                self,
            ).spec_log_f() / 2,
            final(self).spec_log_f() <= old(self).spec_log_f(),
            final(self).spec_threshold() == old(self).spec_threshold(),
            final(self).spec_check_interval() == old(self).spec_check_interval(),
            final(self).spec_flatness_num() == old(self).spec_flatness_num(),
            final(self).spec_flatness_den() == old(self).spec_flatness_den(),
            final(self).spec_config().len() == old(self).spec_config().len(),
            final(self).spec_log_density().len() == old(self).spec_log_density().len(),
            forall|e: int|
                0 <= e < old(self).spec_visited().len() && old(self).spec_visited()[e]
                    ==> final(self).spec_visited()[e],
            wl_stepped(*old(self), *final(self)),
    {
        let ghost old_cfg = self.spec_config();
        let mut moves: Vec<CoinFlipMove> = Vec::new();
        self.ensemble.m_steps(1, &mut moves);
        let ghost cur_cfg = self.spec_config();
        proof {
            let tr = moves@;
            let mid = choose|m: Seq<crate::coin::CoinFlip>|
                #[trigger] step_applied(old_cfg, m, tr[0]) && trace_applied(m, cur_cfg, tr.skip(1));
            assert(tr.skip(1) =~= Seq::<CoinFlipMove>::empty());
            assert(trace_applied(mid, cur_cfg, tr.skip(1)));
            assert(mid == cur_cfg);
            assert(step_applied(old_cfg, cur_cfg, tr[0]));
            lemma_undo_roundtrip(old_cfg, cur_cfg, tr[0]);
        }
        let step = moves[0];
        let mut e_new = self.energy;
        self.ensemble.update_head_count(&step, &mut e_new);
        proof {
            crate::coin::lemma_coin_heads_le_len(old_cfg);
            crate::coin::lemma_coin_heads_le_len(self.spec_config());
        }
        let ld_old = self.log_density[self.energy as usize];
        let ld_new = self.log_density[e_new as usize];
        let accept: bool;
        if ld_new <= ld_old {
            accept = true;
        } else {
            let prob = exp_neg(ld_new - ld_old);
            let u = rng_next_u64(&mut self.rng) >> 1u64;
            accept = u < prob;
        }
        if accept {
            self.ensemble.steps_accepted(moves.as_slice());
            self.energy = e_new;
        } else {
            self.ensemble.steps_rejected(moves.as_slice());
            self.ensemble.undo_steps_quiet(&moves);
            proof {
                assert(self.spec_config() == old_cfg);
                assert(e_new == coin_heads(cur_cfg));
                assert(bin_dist(e_new as int, old(self).spec_energy() as int) <= 1) by {
                    crate::coin::lemma_coin_heads_update(
                        old_cfg,
                        moves@[0].spec_index() as int,
                        cur_cfg[moves@[0].spec_index() as int],
                    );
                    assert(cur_cfg == old_cfg.update(
                        moves@[0].spec_index() as int,
                        cur_cfg[moves@[0].spec_index() as int],
                    ));
                }
                assert(old(self).spec_log_density()[e_new as int] > old(
                    self,
                ).spec_log_density()[old(self).spec_energy() as int]);
            }
        }
        let resulting = self.energy;
        proof {
            crate::coin::lemma_coin_heads_le_len(self.spec_config());
        }
        self.visited.set(resulting as usize, true);
        self.hist.increment_quiet(resulting);
        let ghost mid_hist = self.spec_histogram();
        let ghost pre_ld = self.spec_log_density();
        let cur = self.log_density[resulting as usize];
        proof {
            vstd::arithmetic::mul::lemma_mul_inequality(
                self.spec_step_counter() as int,
                u64::MAX as int,
                LOG_UNIT as int,
            );
        }
        self.log_density.set(resulting as usize, cur + self.log_f as u128);
        self.step_counter = self.step_counter + 1;
        proof {
            assert forall|e: int|
                0 <= e < self.spec_log_density().len() implies (
            #[trigger] self.spec_log_density()[e]) <= self.spec_step_counter() * LOG_UNIT by {
                assert(pre_ld[e] <= (self.spec_step_counter() - 1) * LOG_UNIT);
                assert((self.spec_step_counter() - 1) * LOG_UNIT + LOG_UNIT
                    == self.spec_step_counter() * LOG_UNIT) by (nonlinear_arith);
                if e != resulting {
                    assert(self.spec_log_density()[e] == pre_ld[e]);
                }
            }
        }
        if self.step_counter % self.check_interval == 0 {
            if self.check_flat() {
                self.hist.reset();
                self.log_f = self.log_f / 2;
            }
        }
        proof {
            let e = coin_heads(final(self).spec_config()) as int;
            assert(e == resulting as int);
            if accept {
                assert(final(self).spec_config() == old_cfg.update(
                    moves@[0].spec_index() as int,
                    cur_cfg[moves@[0].spec_index() as int],
                ));
            } else {
                assert(old_cfg.update(0, old_cfg[0]) =~= old_cfg);
                assert(final(self).spec_config() == old_cfg.update(0, old_cfg[0]));
            }
            assert(crate::histogram::hist_incremented(old(self).spec_histogram(), mid_hist, e));
        }
    }

    /// Advance the run by exactly one flat-histogram step per budgeted
    /// step, stopping early only when the run converges (or, in principle,
    /// when the step counter reaches its capacity): the final state is
    /// reached from the initial one by a chain of `wl_stepped` steps, one
    /// per counted step.  The modification factor never increases, the
    /// estimate and the visited set only grow, and the threshold stays
    /// where it was.
    pub fn sample(&mut self, max_steps: u64)
        requires
            old(self).inv(),
        ensures
            final(self).inv(),
            final(self).spec_log_f() <= old(self).spec_log_f(),
            final(self).spec_threshold() == old(self).spec_threshold(),
            final(self).spec_config().len() == old(self).spec_config().len(),
            old(self).spec_step_counter() <= final(self).spec_step_counter() <= old(
                self,
            ).spec_step_counter() + max_steps,
            final(self).spec_converged() || final(self).spec_step_counter() == old(
                self,
            ).spec_step_counter() + max_steps || final(self).spec_step_counter() == u64::MAX,
            old(self).spec_converged() ==> *final(self) == *old(self),
            forall|e: int|
                0 <= e < old(self).spec_log_density().len()
                    ==> (#[trigger] final(self).spec_log_density()[e]) >= old(
                    self,
                ).spec_log_density()[e],
            forall|e: int|
                0 <= e < old(self).spec_visited().len() && old(self).spec_visited()[e]
                    ==> final(self).spec_visited()[e],
            wl_chain(
                *old(self),
                *final(self),
                (final(self).spec_step_counter() - old(self).spec_step_counter()) as nat,
            ),
    {
        let mut k: u64 = 0;
        proof {
            assert(wl_chain(*old(self), *self, 0));
        }
        while k < max_steps && !self.is_converged() && self.step_counter < u64::MAX
            invariant
                self.inv(),
                k <= max_steps,
                self.spec_log_f() <= old(self).spec_log_f(),
                self.spec_threshold() == old(self).spec_threshold(),
                self.spec_config().len() == old(self).spec_config().len(),
                self.spec_log_density().len() == old(self).spec_log_density().len(),
                self.spec_visited().len() == old(self).spec_visited().len(),
                self.spec_step_counter() == old(self).spec_step_counter() + k,
                old(self).spec_converged() ==> *self == *old(self),
                forall|e: int|
                    0 <= e < old(self).spec_log_density().len()
                        ==> (#[trigger] self.spec_log_density()[e]) >= old(
                        self,
                    ).spec_log_density()[e],
                forall|e: int|
                    0 <= e < old(self).spec_visited().len() && old(self).spec_visited()[e]
                        ==> self.spec_visited()[e],
                wl_chain(*old(self), *self, k as nat),
            decreases max_steps - k,
        {
            let ghost prev = *self;
            let ghost prev_ld = self.spec_log_density();
            self.wl_step();
            proof {
                lemma_wl_chain_snoc(*old(self), prev, *self, k as nat);
                let r = coin_heads(self.spec_config()) as int;
                crate::coin::lemma_coin_heads_le_len(self.spec_config());
                assert(0 <= r < prev_ld.len());
                assert(self.spec_log_density() == prev_ld.update(
                    r,
                    (prev_ld[r] + prev.spec_log_f()) as u128,
                ));
                assert(prev_ld[r] + prev.spec_log_f() <= u128::MAX) by {
                    vstd::arithmetic::mul::lemma_mul_inequality(
                        prev.spec_step_counter() as int,
                        u64::MAX as int,
                        LOG_UNIT as int,
                    );
                }
                assert forall|e: int|
                    0 <= e < old(self).spec_log_density().len() implies (
                #[trigger] self.spec_log_density()[e]) >= old(self).spec_log_density()[e] by {
                    if e != r {
                        assert(self.spec_log_density()[e] == prev_ld[e]);
                    } else {
                        assert(self.spec_log_density()[r] == (prev_ld[r] + prev.spec_log_f())
                            as u128);
                    }
                }
            }
            k = k + 1;
        }
    }
}

} // verus!

verus! {

/// One flat-histogram step leads from `pre` to `post`: the configuration
/// changes at no more than one site; exactly one of the ensemble's
/// accept/reject counters grows, and a move into an energy bin whose
/// estimate is not larger than the walker's own is never rejected; the
/// resulting energy bin (the head count of the resulting configuration) is
/// marked visited, gains one histogram count and gains one modification
/// factor of estimate; and at a check interval where the histogram has
/// become flat, the histogram restarts and the modification factor halves.
pub open spec fn wl_stepped(pre: WangLandauEngine, post: WangLandauEngine) -> bool {
    let e = coin_heads(post.spec_config()) as int;
    &&& post.spec_threshold() == pre.spec_threshold()
    &&& post.spec_check_interval() == pre.spec_check_interval()
    &&& post.spec_flatness_num() == pre.spec_flatness_num()
    &&& post.spec_flatness_den() == pre.spec_flatness_den()
    &&& post.spec_config().len() == pre.spec_config().len()
    &&& post.spec_step_counter() == pre.spec_step_counter() + 1
    &&& (exists|i: int, v: crate::coin::CoinFlip|
        0 <= i < pre.spec_config().len() && post.spec_config() == pre.spec_config().update(i, v))
    &&& post.spec_visited() == pre.spec_visited().update(e, true)
    &&& post.spec_log_density() == pre.spec_log_density().update(
        e,
        (pre.spec_log_density()[e] + pre.spec_log_f()) as u128,
    )
    &&& post.spec_ensemble().spec_steps() == pre.spec_ensemble().spec_steps() + 1
    &&& (({
        &&& post.spec_ensemble().spec_accepted() == pre.spec_ensemble().spec_accepted() + 1
        &&& post.spec_ensemble().spec_rejected() == pre.spec_ensemble().spec_rejected()
    }) || ({
        &&& post.spec_ensemble().spec_rejected() == pre.spec_ensemble().spec_rejected() + 1
        &&& post.spec_ensemble().spec_accepted() == pre.spec_ensemble().spec_accepted()
        &&& post.spec_config() == pre.spec_config()
        &&& exists|e2: int|
            0 <= e2 < pre.spec_log_density().len() && bin_dist(e2, e) <= 1
                && pre.spec_log_density()[e2] > pre.spec_log_density()[e]
    }))
    &&& (exists|mid: Histogram|
        {
            &&& #[trigger] crate::histogram::hist_incremented(pre.spec_histogram(), mid, e)
            &&& if post.spec_step_counter() % pre.spec_check_interval() == 0 && is_flat(
                mid@,
                post.spec_visited(),
                pre.spec_flatness_num(),
                pre.spec_flatness_den(),
            ) {
                &&& post.spec_histogram()@.len() == mid@.len()
                &&& post.spec_histogram().spec_total() == 0
                &&& (forall|j: int|
                    0 <= j < post.spec_histogram()@.len() ==> post.spec_histogram()@[j] == 0)
                &&& post.spec_log_f() == pre.spec_log_f() / 2
            } else {
                &&& post.spec_histogram() == mid
                &&& post.spec_log_f() == pre.spec_log_f()
            }
        })
}

/// `k` flat-histogram steps lead from `pre` to `post`.
pub open spec fn wl_chain(pre: WangLandauEngine, post: WangLandauEngine, k: nat) -> bool
    decreases k,
{
    if k == 0 {
        post == pre
    } else {
        exists|mid: WangLandauEngine|
            #[trigger] wl_stepped(pre, mid) && wl_chain(mid, post, (k - 1) as nat)
    }
}

/// A chain of steps extended by one more step is again a chain.
proof fn lemma_wl_chain_snoc(
    pre: WangLandauEngine,
    mid: WangLandauEngine,
    post: WangLandauEngine,
    k: nat,
)
    requires
        wl_chain(pre, mid, k),
        wl_stepped(mid, post),
    ensures
        wl_chain(pre, post, k + 1),
    decreases k,
{
    if k == 0 {
        assert(wl_chain(post, post, 0));
        assert(wl_stepped(pre, post));
    } else {
        let m1 = choose|m1: WangLandauEngine|
            #[trigger] wl_stepped(pre, m1) && wl_chain(m1, mid, (k - 1) as nat);
        lemma_wl_chain_snoc(m1, mid, post, (k - 1) as nat);
        assert(wl_stepped(pre, m1) && wl_chain(m1, post, k));
    }
}

} // verus!
