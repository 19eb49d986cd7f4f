//! Fixed-range integer histogram over the energy observable.
//!
//! Bins run from zero to an inclusive upper border.  The running total is
//! kept beside the bins, and the structural invariant ties it to the sum of
//! all bin counts: the histogram always holds exactly as many samples as
//! were recorded into it.

use vstd::prelude::*;

verus! {

/// Sum of all counts in a sequence of bins.
pub open spec fn sum_counts(s: Seq<u64>) -> nat
    decreases s.len(),
{
    if s.len() == 0 {
        0
    } else {
        sum_counts(s.drop_last()) + s.last() as nat
    }
}

/// Replacing one bin moves the sum by the difference of the old and the new
/// count.
pub proof fn lemma_sum_update(s: Seq<u64>, i: int, v: u64)
    requires
        0 <= i < s.len(),
    ensures
        sum_counts(s.update(i, v)) == sum_counts(s) - s[i] + v,
    decreases s.len(),
{
    let t = s.update(i, v);
    if i == s.len() - 1 {
        assert(t.drop_last() =~= s.drop_last());
    } else {
        assert(t.drop_last() =~= s.drop_last().update(i, v));
        lemma_sum_update(s.drop_last(), i, v);
    }
}

/// No single bin exceeds the sum of all bins.
pub proof fn lemma_elem_le_sum(s: Seq<u64>, i: int)
    requires
        0 <= i < s.len(),
    ensures
        s[i] <= sum_counts(s),
    decreases s.len(),
{
    if i == s.len() - 1 {
    } else {
        lemma_elem_le_sum(s.drop_last(), i);
    }
}

/// Appending a bin adds its count to the sum.
pub proof fn lemma_sum_push(s: Seq<u64>, v: u64)
    ensures
        sum_counts(s.push(v)) == sum_counts(s) + v,
{
    assert(s.push(v).drop_last() =~= s);
}

/// A sequence of zero bins sums to zero.
pub proof fn lemma_sum_zeros(s: Seq<u64>)
    requires
        forall|i: int| 0 <= i < s.len() ==> s[i] == 0,
    ensures
        sum_counts(s) == 0,
    decreases s.len(),
{
    if s.len() > 0 {
        lemma_sum_zeros(s.drop_last());
    }
}

/// The histogram `post` is `pre` with one sample recorded at `val`, the
/// way `increment_quiet` records it: quietly unchanged when `val` is out
/// of the bin range or the total is at its capacity.
pub open spec fn hist_incremented(pre: Histogram, post: Histogram, val: int) -> bool {
    if 0 <= val < pre@.len() && pre.spec_total() < u64::MAX {
        &&& post@ == pre@.update(val, (pre@[val] + 1) as u64)
        &&& post.spec_total() == pre.spec_total() + 1
    } else {
        post == pre
    }
}

/// Histogram over the inclusive bin range `0 ..= upper`.
pub struct Histogram {
    counts: Vec<u64>,
    total: u64,
}

impl View for Histogram {
    type V = Seq<u64>;

    closed spec fn view(&self) -> Seq<u64> {
        self.counts@
    }
}

impl Histogram {
    /// Number of samples recorded so far.
    pub closed spec fn spec_total(&self) -> u64 {
        self.total
    }

    /// Structural invariant: the running total equals the sum of all bins.
    pub open spec fn inv(&self) -> bool {
        self.spec_total() == sum_counts(self@)
    }

    /// Sum of all histogram bin counts equals the number of samples recorded
    /// into the histogram.
    pub proof fn lemma_total_is_sum(&self)
        requires
            self.inv(),
        ensures
            sum_counts(self@) == self.spec_total(),
    {
    }

    /// A histogram over the bins `0 ..= upper`, all empty.
    pub fn new(upper: u32) -> (r: Histogram)
        requires
            upper < u32::MAX,
        ensures
            r.inv(),
            r@.len() == upper + 1,
            r.spec_total() == 0,
            forall|i: int| 0 <= i < r@.len() ==> r@[i] == 0,
    {
        let bins = upper as usize + 1;
        let mut counts: Vec<u64> = Vec::new();
        let mut i: usize = 0;
        while i < bins
            invariant
                i <= bins,
                counts@.len() == i,
                forall|j: int| 0 <= j < i ==> counts@[j] == 0,
            decreases bins - i,
        {
            counts.push(0);
            i = i + 1;
        }
        proof {
            lemma_sum_zeros(counts@);
        }
        Histogram { counts, total: 0 }
    }

    /// Number of bins.
    pub fn bin_count(&self) -> (r: usize)
        ensures
            r == self@.len(),
    {
        self.counts.len()
    }

    /// The bin counts.
    pub fn hist(&self) -> (r: &Vec<u64>)
        ensures
            r@ == self@,
    {
        &self.counts
    }

    /// One bin count.
    pub fn count(&self, val: u32) -> (r: u64)
        requires
            val < self@.len(),
        ensures
            r == self@[val as int],
    {
        self.counts[val as usize]
    }

    /// Number of samples recorded so far.
    pub fn total(&self) -> (r: u64)
        ensures
            r == self.spec_total(),
    {
        self.total
    }

    /// Record one sample quietly: a value outside the bin range is ignored,
    /// as is a sample that would overflow the total.
    pub fn increment_quiet(&mut self, val: u32)
        requires
            old(self).inv(),
        ensures
            final(self).inv(),
            final(self)@.len() == old(self)@.len(),
            hist_incremented(*old(self), *final(self), val as int),
    {
        let idx = val as usize;
        if idx < self.counts.len() && self.total < u64::MAX {
            proof {
                lemma_elem_le_sum(self.counts@, idx as int);
                lemma_sum_update(self.counts@, idx as int, (self.counts@[idx as int] + 1) as u64);
            }
            let c = self.counts[idx];
            self.counts.set(idx, c + 1);
            self.total = self.total + 1;
        }
    }

    /// Forget all recorded samples; the bin range stays.
    pub fn reset(&mut self)
        ensures
            final(self).inv(),
            final(self)@.len() == old(self)@.len(),
            final(self).spec_total() == 0,
            forall|i: int| 0 <= i < final(self)@.len() ==> final(self)@[i] == 0,
    {
        let mut i: usize = 0;
        while i < self.counts.len()
            invariant
                i <= self.counts@.len(),
                self.counts@.len() == old(self)@.len(),
                forall|j: int| 0 <= j < i ==> self.counts@[j] == 0,
            decreases self.counts@.len() - i,
        {
            self.counts.set(i, 0);
            i = i + 1;
        }
        self.total = 0;
        proof {
            lemma_sum_zeros(self.counts@);
        }
    }
}

} // verus!
