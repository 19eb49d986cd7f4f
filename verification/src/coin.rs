//! The binary ensemble: a fixed-length sequence of coin flips with a
//! reversible single-site move.
//!
//! A move draws a uniformly random position, records the value found there
//! and replaces it by a freshly drawn value (so a move may be a no-op).
//! The move record suffices to undo the move exactly and to update the
//! head count in constant time.

use vstd::prelude::*;

use crate::rng::{rng_below, rng_next_u64};

verus! {

/// Result of flipping a coin.
#[derive(Debug, Clone, Copy, Eq, PartialEq, Structural)]
pub enum CoinFlip {
    Head,
    Tail,
}

impl CoinFlip {
    /// The coin turned around.
    pub open spec fn spec_turned(self) -> CoinFlip {
        match self {
            CoinFlip::Head => CoinFlip::Tail,
            CoinFlip::Tail => CoinFlip::Head,
        }
    }

    /// Turn the coin around, i.e. invert it.
    pub fn turn(&mut self)
        ensures
            *final(self) == old(self).spec_turned(),
    {
        *self = match self {
            CoinFlip::Head => CoinFlip::Tail,
            CoinFlip::Tail => CoinFlip::Head,
        };
    }
}

pub open spec fn is_head(c: CoinFlip) -> bool {
    c is Head
}

/// Number of `true` cells in a boolean configuration.
pub open spec fn spec_heads(s: Seq<bool>) -> nat
    decreases s.len(),
{
    if s.len() == 0 {
        0
    } else {
        spec_heads(s.drop_last()) + (if s.last() {
            1nat
        } else {
            0nat
        })
    }
}

/// Number of heads in a coin sequence.
pub open spec fn coin_heads(s: Seq<CoinFlip>) -> nat {
    spec_heads(s.map_values(|c: CoinFlip| is_head(c)))
}

/// The head count never exceeds the length of the configuration.
pub proof fn lemma_heads_le_len(s: Seq<bool>)
    ensures
        spec_heads(s) <= s.len(),
    decreases s.len(),
{
    if s.len() > 0 {
        lemma_heads_le_len(s.drop_last());
    }
}

/// Replacing one cell moves the head count by the difference of the old and
/// the new value, and by nothing else.
pub proof fn lemma_heads_update(s: Seq<bool>, i: int, v: bool)
    requires
        0 <= i < s.len(),
    ensures
        spec_heads(s.update(i, v)) == spec_heads(s) - (if s[i] {
            1int
        } else {
            0int
        }) + (if v {
            1int
        } else {
            0int
        }),
    decreases s.len(),
{
    let t = s.update(i, v);
    if i == s.len() - 1 {
        assert(t.drop_last() =~= s.drop_last());
    } else {
        assert(t.drop_last() =~= s.drop_last().update(i, v));
        lemma_heads_update(s.drop_last(), i, v);
    }
}

/// Appending a cell adds its own contribution to the head count.
pub proof fn lemma_heads_push(s: Seq<bool>, v: bool)
    ensures
        spec_heads(s.push(v)) == spec_heads(s) + (if v {
            1int
        } else {
            0int
        }),
{
    assert(s.push(v).drop_last() =~= s);
}

pub proof fn lemma_coin_heads_le_len(s: Seq<CoinFlip>)
    ensures
        coin_heads(s) <= s.len(),
{
    lemma_heads_le_len(s.map_values(|c: CoinFlip| is_head(c)));
}

pub proof fn lemma_coin_heads_update(s: Seq<CoinFlip>, i: int, v: CoinFlip)
    requires
        0 <= i < s.len(),
    ensures
        coin_heads(s.update(i, v)) == coin_heads(s) - (if is_head(s[i]) {
            1int
        } else {
            0int
        }) + (if is_head(v) {
            1int
        } else {
            0int
        }),
{
    let f = |c: CoinFlip| is_head(c);
    assert(s.update(i, v).map_values(f) =~= s.map_values(f).update(i, is_head(v)));
    lemma_heads_update(s.map_values(f), i, is_head(v));
}

pub proof fn lemma_coin_heads_push(s: Seq<CoinFlip>, v: CoinFlip)
    ensures
        coin_heads(s.push(v)) == coin_heads(s) + (if is_head(v) {
            1int
        } else {
            0int
        }),
{
    let f = |c: CoinFlip| is_head(c);
    assert(s.push(v).map_values(f) =~= s.map_values(f).push(is_head(v)));
    lemma_heads_push(s.map_values(f), is_head(v));
}

/// Record of one markov step: where it happened and what was there before.
#[derive(Clone, Copy, Debug)]
pub struct CoinFlipMove {
    previous: CoinFlip,
    index: usize,
}

impl CoinFlipMove {
    pub closed spec fn spec_previous(&self) -> CoinFlip {
        self.previous
    }

    pub closed spec fn spec_index(&self) -> usize {
        self.index
    }
}

/// One markov step leads from `before` to `after` and `m` records it.
pub open spec fn step_applied(before: Seq<CoinFlip>, after: Seq<CoinFlip>, m: CoinFlipMove) -> bool {
    &&& m.spec_index() < before.len()
    &&& m.spec_previous() == before[m.spec_index() as int]
    &&& after == before.update(m.spec_index() as int, after[m.spec_index() as int])
}

/// The moves in `moves` lead from `before` to `after`, in order.
pub open spec fn trace_applied(
    before: Seq<CoinFlip>,
    after: Seq<CoinFlip>,
    moves: Seq<CoinFlipMove>,
) -> bool
    decreases moves.len(),
{
    if moves.len() == 0 {
        after == before
    } else {
        exists|mid: Seq<CoinFlip>|
            #[trigger] step_applied(before, mid, moves[0]) && trace_applied(
                mid,
                after,
                moves.skip(1),
            )
    }
}

/// Undoing a recorded step is the identity on the configuration: writing the
/// recorded previous value back at the recorded position restores the
/// configuration the step started from.
pub proof fn lemma_undo_roundtrip(before: Seq<CoinFlip>, after: Seq<CoinFlip>, m: CoinFlipMove)
    requires
        step_applied(before, after, m),
    ensures
        after.update(m.spec_index() as int, m.spec_previous()) == before,
{
    assert(after.update(m.spec_index() as int, m.spec_previous()) =~= before);
}

/// A trace extended by one applied step is again a trace.
pub proof fn lemma_trace_snoc(
    before: Seq<CoinFlip>,
    mid: Seq<CoinFlip>,
    after: Seq<CoinFlip>,
    moves: Seq<CoinFlipMove>,
    m: CoinFlipMove,
)
    requires
        trace_applied(before, mid, moves),
        step_applied(mid, after, m),
    ensures
        trace_applied(before, after, moves.push(m)),
    decreases moves.len(),
{
    if moves.len() == 0 {
        assert(moves.push(m)[0] == m);
        assert(moves.push(m).skip(1) =~= Seq::<CoinFlipMove>::empty());
        assert(trace_applied(after, after, moves.push(m).skip(1)));
        assert(step_applied(before, after, moves.push(m)[0]));
    } else {
        let step0 = choose|s: Seq<CoinFlip>|
            #[trigger] step_applied(before, s, moves[0]) && trace_applied(s, mid, moves.skip(1));
        lemma_trace_snoc(step0, mid, after, moves.skip(1), m);
        assert(moves.skip(1).push(m) =~= moves.push(m).skip(1));
        assert(moves.push(m)[0] == moves[0]);
        assert(step_applied(before, step0, moves.push(m)[0]) && trace_applied(
            step0,
            after,
            moves.push(m).skip(1),
        ));
    }
}

/// A sequence of coin flips together with its random number stream and the
/// accept/reject bookkeeping used for invariant testing.
pub struct CoinFlipSequence {
    rng: rand_pcg::Pcg64,
    seq: Vec<CoinFlip>,
    steps: u64,
    rejected: u64,
    accepted: u64,
    undo_count: u64,
}

impl View for CoinFlipSequence {
    type V = Seq<CoinFlip>;

    closed spec fn view(&self) -> Seq<CoinFlip> {
        self.seq@
    }
}

impl CoinFlipSequence {
    /// Batches of steps proposed so far.
    pub closed spec fn spec_steps(&self) -> u64 {
        self.steps
    }

    /// Batches accepted so far.
    pub closed spec fn spec_accepted(&self) -> u64 {
        self.accepted
    }

    /// Batches rejected so far.
    pub closed spec fn spec_rejected(&self) -> u64 {
        self.rejected
    }

    /// Batches undone so far.
    pub closed spec fn spec_undo_count(&self) -> u64 {
        self.undo_count
    }

    /// Batches of steps proposed so far.
    pub fn steps(&self) -> (r: u64)
        ensures
            r == self.spec_steps(),
    {
        self.steps
    }

    /// Batches accepted so far.
    pub fn accepted(&self) -> (r: u64)
        ensures
            r == self.spec_accepted(),
    {
        self.accepted
    }

    /// Batches rejected so far.
    pub fn rejected(&self) -> (r: u64)
        ensures
            r == self.spec_rejected(),
    {
        self.rejected
    }

    /// Batches undone so far.
    pub fn undo_count(&self) -> (r: u64)
        ensures
            r == self.spec_undo_count(),
    {
        self.undo_count
    }

    /// The bookkeeping counters of `self` and `other` agree.
    pub open spec fn same_bookkeeping(&self, other: &CoinFlipSequence) -> bool {
        &&& self.spec_steps() == other.spec_steps()
        &&& self.spec_accepted() == other.spec_accepted()
        &&& self.spec_rejected() == other.spec_rejected()
        &&& self.spec_undo_count() == other.spec_undo_count()
    }

    /// Create a new coin flip sequence of length `n` whose cells are drawn
    /// from `rng`.
    pub fn new(n: usize, rng: rand_pcg::Pcg64) -> (r: CoinFlipSequence)
        ensures
            r@.len() == n,
            r.spec_steps() == 0,
            r.spec_accepted() == 0,
            r.spec_rejected() == 0,
            r.spec_undo_count() == 0,
    {
        let mut rng = rng;
        let mut seq: Vec<CoinFlip> = Vec::new();
        let mut i: usize = 0;
        while i < n
            invariant
                i <= n,
                seq@.len() == i,
            decreases n - i,
        {
            let draw = rng_next_u64(&mut rng);
            if draw & 1 == 1 {
                seq.push(CoinFlip::Tail);
            } else {
                seq.push(CoinFlip::Head);
            }
            i = i + 1;
        }
        CoinFlipSequence { rng, seq, steps: 0, rejected: 0, accepted: 0, undo_count: 0 }
    }

    /// Count how often `Head` occurs, by a full scan.
    pub fn head_count(&self) -> (r: u32)
        requires
            self@.len() <= u32::MAX,
        ensures
            r == coin_heads(self@),
    {
        let mut count: u32 = 0;
        let mut i: usize = 0;
        proof {
            assert(self@.take(0) =~= Seq::<CoinFlip>::empty());
            assert(self@.take(0).map_values(|c: CoinFlip| is_head(c)) =~= Seq::<bool>::empty());
        }
        while i < self.seq.len()
            invariant
                i <= self@.len(),
                self@.len() <= u32::MAX,
                count == coin_heads(self@.take(i as int)),
                count <= i,
            decreases self@.len() - i,
        {
            proof {
                assert(self@.take(i + 1) =~= self@.take(i as int).push(self@[i as int]));
                lemma_coin_heads_push(self@.take(i as int), self@[i as int]);
            }
            if self.seq[i] == CoinFlip::Head {
                count = count + 1;
            }
            i = i + 1;
        }
        proof {
            assert(self@.take(self@.len() as int) =~= self@);
        }
        count
    }

    /// Update a head count known for the configuration the recorded step
    /// started from, so that it counts the current configuration.  This is
    /// the constant-time replacement for a full recount.
    pub fn update_head_count(&self, step: &CoinFlipMove, head_count: &mut u32)
        requires
            step.spec_index() < self@.len(),
            self@.len() <= u32::MAX,
            *old(head_count) == coin_heads(
                self@.update(step.spec_index() as int, step.spec_previous()),
            ),
        ensures
            *final(head_count) == coin_heads(self@),
    {
        let i = step.index;
        let current = self.seq[i];
        proof {
            let prior = self@.update(step.spec_index() as int, step.spec_previous());
            assert(prior.update(i as int, self@[i as int]) =~= self@);
            lemma_coin_heads_update(prior, i as int, self@[i as int]);
            lemma_coin_heads_le_len(self@);
        }
        match (step.previous, current) {
            (CoinFlip::Head, CoinFlip::Tail) => {
                *head_count = *head_count - 1;
            },
            (CoinFlip::Tail, CoinFlip::Head) => {
                *head_count = *head_count + 1;
            },
            _ => {},
        }
    }

    /// Perform one markov step: replace a uniformly random position by a
    /// freshly drawn value and return the record that undoes it.
    pub fn m_step(&mut self) -> (step: CoinFlipMove)
        requires
            old(self)@.len() >= 1,
        ensures
            step_applied(old(self)@, final(self)@, step),
            final(self)@.len() == old(self)@.len(),
            final(self).same_bookkeeping(old(self)),
    {
        let pos = rng_below(&mut self.rng, self.seq.len());
        let previous = self.seq[pos];
        let draw = rng_next_u64(&mut self.rng);
        let value = if draw & 1 == 1 {
            CoinFlip::Tail
        } else {
            CoinFlip::Head
        };
        self.seq.set(pos, value);
        proof {
            assert(self@ =~= old(self)@.update(pos as int, self@[pos as int]));
        }
        CoinFlipMove { previous, index: pos }
    }

    /// Propose a batch of `count` markov steps, filling `steps` with their
    /// records, and count one proposed batch.
    pub fn m_steps(&mut self, count: usize, steps: &mut Vec<CoinFlipMove>)
        requires
            old(self)@.len() >= 1,
            old(self).spec_steps() < u64::MAX,
        ensures
            final(self).spec_steps() == old(self).spec_steps() + 1,
            final(self).spec_accepted() == old(self).spec_accepted(),
            final(self).spec_rejected() == old(self).spec_rejected(),
            final(self).spec_undo_count() == old(self).spec_undo_count(),
            final(self)@.len() == old(self)@.len(),
            final(steps)@.len() == count,
            trace_applied(old(self)@, final(self)@, final(steps)@),
    {
        self.steps = self.steps + 1;
        steps.clear();
        let mut i: usize = 0;
        proof {
            assert(steps@.take(0) =~= Seq::<CoinFlipMove>::empty());
        }
        while i < count
            invariant
                i <= count,
                steps@.len() == i,
                self@.len() == old(self)@.len(),
                self@.len() >= 1,
                self.spec_steps() == old(self).spec_steps() + 1,
                self.spec_accepted() == old(self).spec_accepted(),
                self.spec_rejected() == old(self).spec_rejected(),
                self.spec_undo_count() == old(self).spec_undo_count(),
                trace_applied(old(self)@, self@, steps@),
            decreases count - i,
        {
            let ghost mid = self@;
            let ghost trace_so_far = steps@;
            let step = self.m_step();
            steps.push(step);
            proof {
                lemma_trace_snoc(old(self)@, mid, self@, trace_so_far, step);
            }
            i = i + 1;
        }
    }

    /// Undo one recorded step: write the recorded previous value back.
    pub fn undo_step(&mut self, step: &CoinFlipMove)
        requires
            step.spec_index() < old(self)@.len(),
        ensures
            final(self)@ == old(self)@.update(step.spec_index() as int, step.spec_previous()),
            final(self).same_bookkeeping(old(self)),
    {
        self.seq.set(step.index, step.previous);
    }

    /// Undo one recorded step without reporting anything.
    pub fn undo_step_quiet(&mut self, step: &CoinFlipMove)
        requires
            step.spec_index() < old(self)@.len(),
        ensures
            final(self)@ == old(self)@.update(step.spec_index() as int, step.spec_previous()),
            final(self).same_bookkeeping(old(self)),
    {
        self.undo_step(step);
    }

    /// Undo a recorded batch, last step first, and count one undone batch.
    /// Undoing the batch restores the configuration the batch started from.
    pub fn undo_steps_quiet(&mut self, steps: &Vec<CoinFlipMove>)
        requires
            old(self).spec_undo_count() < u64::MAX,
            old(self).spec_rejected() == old(self).spec_undo_count() + 1,
            forall|i: int|
                0 <= i < steps@.len() ==> #[trigger] steps@[i].spec_index() < old(self)@.len(),
        ensures
            final(self)@.len() == old(self)@.len(),
            final(self).spec_undo_count() == old(self).spec_undo_count() + 1,
            final(self).spec_steps() == old(self).spec_steps(),
            final(self).spec_accepted() == old(self).spec_accepted(),
            final(self).spec_rejected() == old(self).spec_rejected(),
            forall|before: Seq<CoinFlip>|
                #[trigger] trace_applied(before, old(self)@, steps@) ==> final(self)@ == before,
    {
        self.undo_count = self.undo_count + 1;
        let mut i: usize = steps.len();
        proof {
            assert(steps@.take(i as int) =~= steps@);
        }
        while i > 0
            invariant
                i <= steps@.len(),
                self@.len() == old(self)@.len(),
                self.spec_undo_count() == old(self).spec_undo_count() + 1,
                self.spec_steps() == old(self).spec_steps(),
                self.spec_accepted() == old(self).spec_accepted(),
                self.spec_rejected() == old(self).spec_rejected(),
                forall|i2: int|
                    0 <= i2 < steps@.len() ==> #[trigger] steps@[i2].spec_index() < self@.len(),
                forall|before: Seq<CoinFlip>|
                    #[trigger] trace_applied(before, old(self)@, steps@) ==> trace_applied(
                        before,
                        self@,
                        steps@.take(i as int),
                    ),
            decreases i,
        {
            i = i - 1;
            let ghost pre = self@;
            self.undo_step(&steps[i]);
            proof {
                lemma_trace_unsnoc_all(old(self)@, pre, self@, steps@, i as int);
            }
        }
        proof {
            assert forall|before: Seq<CoinFlip>|
                #[trigger] trace_applied(before, old(self)@, steps@) implies final(self)@
                == before by {
                assert(steps@.take(0) =~= Seq::<CoinFlipMove>::empty());
            }
        }
    }
}

/// Helper for `undo_steps_quiet`: if every trace from `before` to the
/// starting configuration reaches `pre` after its first `i + 1` moves, then
/// undoing move `i` reaches the trace's state after its first `i` moves.
proof fn lemma_trace_unsnoc_all(
    start: Seq<CoinFlip>,
    pre: Seq<CoinFlip>,
    post: Seq<CoinFlip>,
    moves: Seq<CoinFlipMove>,
    i: int,
)
    requires
        0 <= i < moves.len(),
        moves[i].spec_index() < pre.len(),
        post == pre.update(moves[i].spec_index() as int, moves[i].spec_previous()),
        forall|before: Seq<CoinFlip>|
            #[trigger] trace_applied(before, start, moves) ==> trace_applied(
                before,
                pre,
                moves.take(i + 1),
            ),
    ensures
        forall|before: Seq<CoinFlip>|
            #[trigger] trace_applied(before, start, moves) ==> trace_applied(
                before,
                post,
                moves.take(i),
            ),
{
    assert forall|before: Seq<CoinFlip>|
        #[trigger] trace_applied(before, start, moves) implies trace_applied(
        before,
        post,
        moves.take(i),
    ) by {
        lemma_trace_take_unsnoc(before, pre, post, moves, i);
    }
}

/// Peeling one move off the end of a partial trace by undoing it.
proof fn lemma_trace_take_unsnoc(
    before: Seq<CoinFlip>,
    pre: Seq<CoinFlip>,
    post: Seq<CoinFlip>,
    moves: Seq<CoinFlipMove>,
    i: int,
)
    requires
        0 <= i < moves.len(),
        trace_applied(before, pre, moves.take(i + 1)),
        post == pre.update(moves[i].spec_index() as int, moves[i].spec_previous()),
    ensures
        trace_applied(before, post, moves.take(i)),
    decreases i,
{
    let taken = moves.take(i + 1);
    if i == 0 {
        assert(step_applied(before, pre, taken[0]) && trace_applied(pre, pre, taken.skip(1)))
            by {
            let mid = choose|mid: Seq<CoinFlip>|
                #[trigger] step_applied(before, mid, taken[0]) && trace_applied(
                    mid,
                    pre,
                    taken.skip(1),
                );
            assert(taken.skip(1) =~= Seq::<CoinFlipMove>::empty());
            assert(mid == pre);
        }
        lemma_undo_roundtrip(before, pre, moves[0]);
        assert(moves.take(0) =~= Seq::<CoinFlipMove>::empty());
        assert(post == before);
    } else {
        let mid = choose|mid: Seq<CoinFlip>|
            #[trigger] step_applied(before, mid, taken[0]) && trace_applied(
                mid,
                pre,
                taken.skip(1),
            );
        assert(taken.skip(1) =~= moves.skip(1).take(i));
        assert(moves.skip(1)[i - 1] == moves[i]);
        lemma_trace_take_unsnoc(mid, pre, post, moves.skip(1), i - 1);
        assert(moves.take(i)[0] == moves[0]);
        assert(moves.take(i).skip(1) =~= moves.skip(1).take(i - 1));
        assert(step_applied(before, mid, moves.take(i)[0]) && trace_applied(
            mid,
            post,
            moves.take(i).skip(1),
        ));
    }
}

impl CoinFlipSequence {
    /// Record that the last proposed batch was accepted.  The bookkeeping
    /// stays balanced: accepted and rejected batches together account for
    /// every proposed batch.
    pub fn steps_accepted(&mut self, _steps: &[CoinFlipMove])
        requires
            old(self).spec_accepted() + old(self).spec_rejected() + 1 == old(self).spec_steps(),
        ensures
            final(self).spec_accepted() == old(self).spec_accepted() + 1,
            final(self).spec_rejected() == old(self).spec_rejected(),
            final(self).spec_steps() == old(self).spec_steps(),
            final(self).spec_undo_count() == old(self).spec_undo_count(),
            final(self)@ == old(self)@,
            final(self).spec_accepted() + final(self).spec_rejected() == final(self).spec_steps(),
    {
        self.accepted = self.accepted + 1;
    }

    /// Record that the last proposed batch was rejected.
    pub fn steps_rejected(&mut self, _steps: &[CoinFlipMove])
        requires
            old(self).spec_accepted() + old(self).spec_rejected() + 1 == old(self).spec_steps(),
        ensures
            final(self).spec_rejected() == old(self).spec_rejected() + 1,
            final(self).spec_accepted() == old(self).spec_accepted(),
            final(self).spec_steps() == old(self).spec_steps(),
            final(self).spec_undo_count() == old(self).spec_undo_count(),
            final(self)@ == old(self)@,
            final(self).spec_accepted() + final(self).spec_rejected() == final(self).spec_steps(),
    {
        self.rejected = self.rejected + 1;
    }
}

} // verus!

verus! {

/// One simple sample: the head count of a fresh uniformly random
/// configuration of `n` cells, drawn from `rng`.
pub fn simple_sample_heads(rng: &mut rand_pcg::Pcg64, n: u32) -> (r: u32)
    ensures
        r <= n,
{
    let mut heads: u32 = 0;
    let mut i: u32 = 0;
    while i < n
        invariant
            i <= n,
            heads <= i,
        decreases n - i,
    {
        let draw = rng_next_u64(rng);
        if draw & 1 == 1 {
            heads = heads + 1;
        }
        i = i + 1;
    }
    heads
}

} // verus!
