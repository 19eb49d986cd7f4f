//! The merged estimator: combine the per-replica log probability curves
//! into one composite density-of-states estimate.
//!
//! Each replica contributes its shifted log probability curve (computed by
//! the host from the replica's histogram, temperature and a user-chosen
//! shift constant, in scaled log units); at every energy bin the curves
//! are combined by a hit-count-weighted average, and replicas that never
//! visited a bin contribute nothing there.  The final renormalization so
//! that the probabilities sum to one happens on the host side, like every
//! other conversion to floating point.

use vstd::prelude::*;

use crate::tempering::{ReplicaSet, Temperature};

verus! {

/// Bound on the magnitude of a shifted log probability value, in scaled
/// log units: `2^45`, that is `2^13` log units.  It keeps every weighted
/// sum far from overflow.
pub const PDF_LIMIT: i64 = 0x2000_0000_0000;

/// The hit count of one replica's histogram at one energy bin.
pub open spec fn hist_count_at(t: Temperature, idx: int) -> int {
    if 0 <= idx < t.spec_histogram()@.len() {
        t.spec_histogram()@[idx] as int
    } else {
        0
    }
}

/// Sum of all replicas' hit counts at one energy bin.
pub open spec fn spec_total_hits(ts: Seq<Temperature>, idx: int) -> int
    decreases ts.len(),
{
    if ts.len() == 0 {
        0
    } else {
        spec_total_hits(ts.drop_last(), idx) + hist_count_at(ts.last(), idx)
    }
}

/// What one replica adds to the weighted sum at one energy bin: its hit
/// count times its curve value, and nothing where it never visited the bin
/// or its curve has no value.
pub open spec fn contribution_at(t: Temperature, row: Seq<Option<i64>>, idx: int) -> int {
    if hist_count_at(t, idx) > 0 && 0 <= idx < row.len() && row[idx] is Some {
        hist_count_at(t, idx) * row[idx]->0
    } else {
        0
    }
}

/// The hit-count-weighted sum of the curve values at one energy bin.
pub open spec fn spec_weighted_sum(ts: Seq<Temperature>, pdfs: Seq<Seq<Option<i64>>>, idx: int) -> int
    recommends
        pdfs.len() == ts.len(),
    decreases ts.len(),
{
    if ts.len() == 0 || pdfs.len() != ts.len() {
        0
    } else {
        spec_weighted_sum(ts.drop_last(), pdfs.drop_last(), idx) + contribution_at(
            ts.last(),
            pdfs.last(),
            idx,
        )
    }
}

/// Some replica contributes at this energy bin.
pub open spec fn spec_has_contribution(
    ts: Seq<Temperature>,
    pdfs: Seq<Seq<Option<i64>>>,
    idx: int,
) -> bool {
    exists|r: int|
        0 <= r < ts.len() && r < pdfs.len() && hist_count_at(#[trigger] ts[r], idx) > 0
            && pdfs[r][idx] is Some
}

/// The merged curve value at one energy bin: the weighted sum over the
/// total hits, rounded down, or nothing where no replica contributes.
pub open spec fn spec_merged_at(ts: Seq<Temperature>, pdfs: Seq<Seq<Option<i64>>>, idx: int)
    -> Option<i64> {
    if spec_has_contribution(ts, pdfs, idx) {
        Some((spec_weighted_sum(ts, pdfs, idx) / spec_total_hits(ts, idx)) as i64)
    } else {
        None
    }
}

/// The per-replica shifted log probability curves, in scaled log units,
/// ready to be merged.
pub struct ResultingEstimate {
    pdfs: Vec<Vec<Option<i64>>>,
}

impl ResultingEstimate {
    /// The curves: one row per replica, one value per energy bin, and no
    /// value where the replica never visited the bin.
    pub closed spec fn spec_pdfs(&self) -> Seq<Seq<Option<i64>>> {
        Seq::new(self.pdfs@.len(), |r: int| self.pdfs@[r]@)
    }

    /// The rows fit the replica set and every value is within the bound.
    pub open spec fn matches(&self, data: &ReplicaSet) -> bool {
        &&& self.spec_pdfs().len() == data.spec_temps().len()
        &&& forall|r: int|
            0 <= r < self.spec_pdfs().len() ==> (#[trigger] self.spec_pdfs()[r]).len()
                == data.spec_num_coins() + 1
        &&& forall|r: int, i: int|
            0 <= r < self.spec_pdfs().len() && 0 <= i < self.spec_pdfs()[r].len() && (
            #[trigger] self.spec_pdfs()[r][i]) is Some ==> -PDF_LIMIT <= self.spec_pdfs()[r][i]->0
                <= PDF_LIMIT
    }

    /// Wrap the host-computed curves.
    pub fn new(pdfs: Vec<Vec<Option<i64>>>) -> (r: ResultingEstimate)
        ensures
            r.spec_pdfs().len() == pdfs@.len(),
            forall|i: int| 0 <= i < pdfs@.len() ==> r.spec_pdfs()[i] == (#[trigger] pdfs@[i])@,
    {
        ResultingEstimate { pdfs }
    }

    /// Merge the curves at every energy bin by a hit-count-weighted
    /// average over the replicas' histograms: a replica that never visited
    /// a bin contributes nothing there, and a bin nobody visited has no
    /// merged value.
    pub fn merged(&self, data: &ReplicaSet) -> (r: Vec<Option<i64>>)
        requires
            data.inv(),
            self.matches(data),
        ensures
            r@.len() == data.spec_num_coins() + 1,
            forall|idx: int|
                0 <= idx < r@.len() ==> #[trigger] r@[idx] == spec_merged_at(
                    data.spec_temps(),
                    self.spec_pdfs(),
                    idx,
                ),
    {
        let ghost ts = data.spec_temps();
        let ghost pdfs = self.spec_pdfs();
        let bins = data.num_coins() as usize + 1;
        let replicas = data.replicas();
        let n = replicas.len();
        let mut out: Vec<Option<i64>> = Vec::new();
        let mut idx: usize = 0;
        while idx < bins
            invariant
                idx <= bins,
                bins == data.spec_num_coins() + 1,
                data.inv(),
                self.matches(data),
                ts == data.spec_temps(),
                pdfs == self.spec_pdfs(),
                n == ts.len(),
                replicas@ == ts,
                self.pdfs@.len() == n,
                out@.len() == idx,
                forall|k: int|
                    0 <= k < idx ==> #[trigger] out@[k] == spec_merged_at(ts, pdfs, k),
            decreases bins - idx,
        {
            let mut num: i128 = 0;
            let mut den: u128 = 0;
            let mut any = false;
            let mut r: usize = 0;
            proof {
                assert(ts.take(0) =~= Seq::<Temperature>::empty());
                assert(pdfs.take(0) =~= Seq::<Seq<Option<i64>>>::empty());
            }
            while r < n
                invariant
                    r <= n,
                    idx < bins,
                    bins == data.spec_num_coins() + 1,
                    data.inv(),
                    self.matches(data),
                    ts == data.spec_temps(),
                    pdfs == self.spec_pdfs(),
                    n == ts.len(),
                    replicas@ == ts,
                    self.pdfs@.len() == n,
                    num == spec_weighted_sum(ts.take(r as int), pdfs.take(r as int), idx as int),
                    den == spec_total_hits(ts.take(r as int), idx as int),
                    den <= r * (u64::MAX as int),
                    -den * (PDF_LIMIT as int) <= num <= den * (PDF_LIMIT as int),
                    any == spec_has_contribution(ts.take(r as int), pdfs.take(r as int), idx as int),
                    any ==> den >= 1,
                decreases n - r,
            {
                let ghost ts_pre = ts.take(r as int);
                let ghost pdfs_pre = pdfs.take(r as int);
                proof {
                    assert(ts.take(r + 1).drop_last() =~= ts_pre);
                    assert(pdfs.take(r + 1).drop_last() =~= pdfs_pre);
                    assert(ts.take(r + 1).last() == ts[r as int]);
                    assert(pdfs.take(r + 1).last() == pdfs[r as int]);
                    assert(n <= u16::MAX as int);
                }
                let t = &replicas[r];
                let h: u64 = if idx < t.hist().bin_count() {
                    t.hist().count(idx as u32)
                } else {
                    0
                };
                proof {
                    assert(h == hist_count_at(ts[r as int], idx as int));
                    assert(n <= 0xFFFF);
                    assert((r + 1) * (u64::MAX as int) <= 0x10000 * (u64::MAX as int)) by {
                        vstd::arithmetic::mul::lemma_mul_inequality(
                            r as int + 1,
                            0x10000,
                            u64::MAX as int,
                        );
                    }
                    assert(den + h <= (r + 1) * (u64::MAX as int));
                    assert((den + h) * (PDF_LIMIT as int) <= 0x2000_0000_0000_0000_0000_0000_0000_0000int)
                        by (nonlinear_arith)
                        requires
                            0 <= den + h <= 0x1_0000_0000_0000_0000_0000,
                    ;
                }
                den = den + h as u128;
                if h > 0 {
                    let row = &self.pdfs[r];
                    proof {
                        assert(pdfs[r as int] == row@);
                    }
                    if idx < row.len() {
                        match row[idx] {
                            Some(v) => {
                                proof {
                                    assert(pdfs[r as int][idx as int] == Some(v));
                                    assert(-PDF_LIMIT <= v <= PDF_LIMIT);
                                    vstd::arithmetic::mul::lemma_mul_inequality(
                                        v as int,
                                        PDF_LIMIT as int,
                                        h as int,
                                    );
                                    vstd::arithmetic::mul::lemma_mul_inequality(
                                        -PDF_LIMIT as int,
                                        v as int,
                                        h as int,
                                    );
                                    assert(contribution_at(ts[r as int], pdfs[r as int], idx as int)
                                        == (h as int) * (v as int))
                                        by {
                                        vstd::arithmetic::mul::lemma_mul_is_commutative(
                                            h as int,
                                            v as int,
                                        );
                                    }
                                    assert((h as int) * (v as int) <= (h as int) * (
                                    PDF_LIMIT as int)) by {
                                        vstd::arithmetic::mul::lemma_mul_is_commutative(
                                            h as int,
                                            v as int,
                                        );
                                        vstd::arithmetic::mul::lemma_mul_is_commutative(
                                            h as int,
                                            PDF_LIMIT as int,
                                        );
                                    }
                                    assert((h as int) * (-PDF_LIMIT as int) <= (h as int) * (
                                    v as int)) by {
                                        vstd::arithmetic::mul::lemma_mul_inequality(
                                            -PDF_LIMIT as int,
                                            v as int,
                                            h as int,
                                        );
                                        vstd::arithmetic::mul::lemma_mul_is_commutative(
                                            h as int,
                                            v as int,
                                        );
                                        vstd::arithmetic::mul::lemma_mul_is_commutative(
                                            h as int,
                                            -PDF_LIMIT as int,
                                        );
                                    }
                                    assert((den as int) * (PDF_LIMIT as int) == ((den - h) as int)
                                        * (PDF_LIMIT as int) + (h as int) * (PDF_LIMIT as int))
                                        by {
                                        vstd::arithmetic::mul::lemma_mul_is_distributive_sub_other_way(
                                            PDF_LIMIT as int,
                                            den as int,
                                            h as int,
                                        );
                                    }
                                    assert((den as int) * (-PDF_LIMIT as int) == ((den - h) as int)
                                        * (-PDF_LIMIT as int) + (h as int) * (-PDF_LIMIT as int))
                                        by {
                                        vstd::arithmetic::mul::lemma_mul_is_distributive_sub_other_way(
                                            -PDF_LIMIT as int,
                                            den as int,
                                            h as int,
                                        );
                                    }
                                    assert(-(den as int) * (PDF_LIMIT as int) == (den as int) * (
                                    -PDF_LIMIT as int)) by {
                                        vstd::arithmetic::mul::lemma_mul_unary_negation(
                                            den as int,
                                            PDF_LIMIT as int,
                                        );
                                        vstd::arithmetic::mul::lemma_mul_is_commutative(
                                            den as int,
                                            -PDF_LIMIT as int,
                                        );
                                        vstd::arithmetic::mul::lemma_mul_is_commutative(
                                            -(den as int),
                                            PDF_LIMIT as int,
                                        );
                                    }
                                    assert(-((den - h) as int) * (PDF_LIMIT as int) == ((den
                                        - h) as int) * (-PDF_LIMIT as int)) by {
                                        vstd::arithmetic::mul::lemma_mul_unary_negation(
                                            (den - h) as int,
                                            PDF_LIMIT as int,
                                        );
                                        vstd::arithmetic::mul::lemma_mul_is_commutative(
                                            (den - h) as int,
                                            -PDF_LIMIT as int,
                                        );
                                        vstd::arithmetic::mul::lemma_mul_is_commutative(
                                            -((den - h) as int),
                                            PDF_LIMIT as int,
                                        );
                                    }
                                }
                                num = num + (h as i128) * (v as i128);
                                any = true;
                            },
                            None => {
                                proof {
                                    assert(contribution_at(ts[r as int], pdfs[r as int], idx as int)
                                        == 0);
                                }
                            },
                        }
                    }
                } else {
                    proof {
                        assert(contribution_at(ts[r as int], pdfs[r as int], idx as int) == 0);
                    }
                }
                proof {
                    assert(spec_has_contribution(ts.take(r + 1), pdfs.take(r + 1), idx as int)
                        == (spec_has_contribution(ts_pre, pdfs_pre, idx as int) || (hist_count_at(
                        ts[r as int],
                        idx as int,
                    ) > 0 && pdfs[r as int][idx as int] is Some))) by {
                        if spec_has_contribution(ts_pre, pdfs_pre, idx as int) {
                            let w = choose|w: int|
                                0 <= w < ts_pre.len() && w < pdfs_pre.len() && hist_count_at(
                                    #[trigger] ts_pre[w],
                                    idx as int,
                                ) > 0 && pdfs_pre[w][idx as int] is Some;
                            assert(ts.take(r + 1)[w] == ts_pre[w]);
                            assert(hist_count_at(ts.take(r + 1)[w], idx as int) > 0);
                        }
                        if hist_count_at(ts[r as int], idx as int) > 0 && pdfs[r as int][idx
                            as int] is Some {
                            assert(hist_count_at(ts.take(r + 1)[r as int], idx as int) > 0);
                        }
                        if spec_has_contribution(ts.take(r + 1), pdfs.take(r + 1), idx as int) {
                            let w = choose|w: int|
                                0 <= w < ts.take(r + 1).len() && w < pdfs.take(r + 1).len()
                                    && hist_count_at(#[trigger] ts.take(r + 1)[w], idx as int) > 0
                                    && pdfs.take(r + 1)[w][idx as int] is Some;
                            if w < r {
                                assert(hist_count_at(ts_pre[w], idx as int) > 0);
                            }
                        }
                    }
                }
                r = r + 1;
            }
            proof {
                assert(ts.take(n as int) =~= ts);
                assert(pdfs.take(n as int) =~= pdfs);
            }
            if any {
                let v = div_floor(num, den);
                proof {
                    lemma_div_floor_bounds(num as int, den as int, PDF_LIMIT as int);
                }
                out.push(Some(v as i64));
            } else {
                out.push(None);
            }
            idx = idx + 1;
        }
        out
    }
}

/// Quotient of the weighted sum and the total, rounded towards negative
/// infinity, as the mathematical integer division does it.
fn div_floor(num: i128, den: u128) -> (r: i128)
    requires
        1 <= den <= u64::MAX as int * (u16::MAX as int + 1),
        -den * (PDF_LIMIT as int) <= num <= den * (PDF_LIMIT as int),
    ensures
        r == num as int / den as int,
{
    if num >= 0 {
        let q = (num as u128) / den;
        proof {
            assert(num as int / den as int == (num as u128) as int / den as int);
        }
        q as i128
    } else {
        let m = ((-num) as u128);
        let q = m / den;
        let rem = m % den;
        proof {
            let mi = m as int;
            let di = den as int;
            let qi = q as int;
            let ri = rem as int;
            vstd::arithmetic::div_mod::lemma_fundamental_div_mod(mi, di);
            vstd::arithmetic::div_mod::lemma_mod_bound(mi, di);
            vstd::arithmetic::div_mod::lemma_div_pos_is_pos(mi, di);
            assert(mi == di * qi + ri);
            assert(num as int == -mi);
            vstd::arithmetic::mul::lemma_mul_is_commutative(qi, di);
            vstd::arithmetic::mul::lemma_mul_unary_negation(qi, di);
            if rem == 0 {
                assert(num as int == (-qi) * di + 0);
                vstd::arithmetic::div_mod::lemma_fundamental_div_mod_converse(
                    num as int,
                    di,
                    -qi,
                    0,
                );
            } else {
                assert((-qi - 1) * di == (-qi) * di - 1 * di) by {
                    vstd::arithmetic::mul::lemma_mul_is_distributive_sub_other_way(di, -qi, 1);
                }
                assert(num as int == (-qi - 1) * di + (di - ri));
                vstd::arithmetic::div_mod::lemma_fundamental_div_mod_converse(
                    num as int,
                    di,
                    -qi - 1,
                    di - ri,
                );
            }
            lemma_div_floor_bounds(num as int, di, PDF_LIMIT as int);
        }
        if rem == 0 {
            -(q as i128)
        } else {
            -(q as i128) - 1
        }
    }
}

/// A weighted average of bounded values is bounded the same way.
proof fn lemma_div_floor_bounds(num: int, den: int, limit: int)
    requires
        den >= 1,
        limit >= 0,
        -den * limit <= num <= den * limit,
    ensures
        -limit <= num / den <= limit,
{
    vstd::arithmetic::div_mod::lemma_div_is_ordered(-den * limit, num, den);
    vstd::arithmetic::div_mod::lemma_div_is_ordered(num, den * limit, den);
    vstd::arithmetic::div_mod::lemma_div_multiples_vanish(limit, den);
    vstd::arithmetic::div_mod::lemma_div_multiples_vanish(-limit, den);
    assert(-den * limit == den * -limit) by {
        vstd::arithmetic::mul::lemma_mul_unary_negation(den, limit);
        vstd::arithmetic::mul::lemma_mul_is_commutative(den, -limit);
        vstd::arithmetic::mul::lemma_mul_is_commutative(-den, limit);
    }
}

} // verus!
