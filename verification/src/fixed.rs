//! Fixed-point probabilities and scaled logarithms.
//!
//! Probabilities live in Q0.63: the integer `p` stands for the probability
//! `p / 2^63`, so `PROB_ONE` stands for certainty.  Log-scale quantities
//! (log densities, modification factors, inverse temperatures) are held in
//! units of `2^-32` natural-log units: the integer `d` stands for
//! `d / 2^32` in natural-log space, so `LOG_UNIT` stands for `1.0`.
//!
//! `EXP_NEG_TICK` is the closest Q0.63 value to `exp(-2^-32)`, the
//! acceptance probability lost per scaled log unit.  A Metropolis factor
//! `exp(-x)` is then `EXP_NEG_TICK` raised to the scaled power `x * 2^32`,
//! computed exactly in integers by `exp_neg`.

use vstd::prelude::*;

use vstd::arithmetic::div_mod::{lemma_div_by_multiple, lemma_div_is_ordered};
use vstd::arithmetic::mul::lemma_mul_inequality;

verus! {

/// The probability one in Q0.63, that is `2^63`.
pub const PROB_ONE: u64 = 0x8000_0000_0000_0000;

/// The closest Q0.63 value to `exp(-2^-32)`: `2^63 - 2^31`.
pub const EXP_NEG_TICK: u64 = 0x7FFF_FFFF_8000_0000;

/// One natural-log unit in the scaled log representation, that is `2^32`.
pub const LOG_UNIT: u64 = 0x1_0000_0000;

/// Scaled log differences of `2^44` (4096 natural-log units) or more stand
/// for probabilities far below the smallest representable Q0.63 step; the
/// samplers treat them as zero outright.
pub const LOG_CUTOFF: u64 = 0x1000_0000_0000;

/// Q0.63 product, rounded towards zero.
pub open spec fn spec_mul_q63(a: u64, b: u64) -> int {
    (a * b) / (PROB_ONE as int)
}

/// The Q0.63 product of two probabilities is a probability no larger than
/// either factor.
pub proof fn lemma_mul_q63_bounds(a: u64, b: u64)
    requires
        a <= PROB_ONE,
        b <= PROB_ONE,
    ensures
        0 <= spec_mul_q63(a, b) <= a,
        spec_mul_q63(a, b) <= b,
{
    let p = PROB_ONE as int;
    lemma_mul_inequality(b as int, p, a as int);
    lemma_div_is_ordered(a * b, a * p, p);
    lemma_div_by_multiple(a as int, p);
    lemma_mul_inequality(a as int, p, b as int);
    vstd::arithmetic::mul::lemma_mul_is_commutative(a as int, b as int);
    lemma_div_is_ordered(a * b, b * p, p);
    lemma_div_by_multiple(b as int, p);
    vstd::arithmetic::div_mod::lemma_div_pos_is_pos(a * b, p);
    vstd::arithmetic::mul::lemma_mul_nonnegative(a as int, b as int);
}

/// Q0.63 product of two probabilities.
pub fn mul_q63(a: u64, b: u64) -> (r: u64)
    requires
        a <= PROB_ONE,
        b <= PROB_ONE,
    ensures
        r == spec_mul_q63(a, b),
        r <= a,
        r <= b,
{
    proof {
        lemma_mul_q63_bounds(a, b);
    }
    let prod: u128 = (a as u128) * (b as u128);
    let r = (prod >> 63u128) as u64;
    proof {
        vstd::bits::lemma_u128_shr_is_div(prod, 63);
        vstd::arithmetic::power2::lemma2_to64_rest();
    }
    r
}

/// Q0.63 power by binary exponentiation, with the same rounding at every
/// multiplication that `mul_q63` performs.
pub open spec fn spec_pow_q63(b: u64, e: u64) -> int
    decreases e,
{
    if b <= PROB_ONE {
        if e == 0 {
            PROB_ONE as int
        } else {
            let h = spec_pow_q63(spec_mul_q63(b, b) as u64, (e / 2) as u64);
            if e % 2 == 1 {
                spec_mul_q63(h as u64, b)
            } else {
                h
            }
        }
    } else {
        0
    }
}

/// A power of a probability is a probability.
pub proof fn lemma_pow_q63_le_one(b: u64, e: u64)
    requires
        b <= PROB_ONE,
    ensures
        0 <= spec_pow_q63(b, e) <= PROB_ONE,
    decreases e,
{
    if e == 0 {
    } else {
        lemma_mul_q63_bounds(b, b);
        let sq = spec_mul_q63(b, b) as u64;
        lemma_pow_q63_le_one(sq, (e / 2) as u64);
        if e % 2 == 1 {
            let h = spec_pow_q63(sq, (e / 2) as u64) as u64;
            lemma_mul_q63_bounds(h, b);
        }
    }
}

/// Q0.63 power of a probability.
pub fn pow_q63(b: u64, e: u64) -> (r: u64)
    requires
        b <= PROB_ONE,
    ensures
        r == spec_pow_q63(b, e),
        r <= PROB_ONE,
    decreases e,
{
    proof {
        lemma_pow_q63_le_one(b, e);
    }
    if e == 0 {
        PROB_ONE
    } else {
        let sq = mul_q63(b, b);
        let h = pow_q63(sq, e / 2);
        if e % 2 == 1 {
            proof {
                lemma_pow_q63_le_one(sq, (e / 2) as u64);
            }
            mul_q63(h, b)
        } else {
            h
        }
    }
}

/// The Metropolis factor `exp(-x)` for a scaled log difference `x`, as a
/// Q0.63 probability: `EXP_NEG_TICK` raised to the power `x`, and zero
/// outright from `LOG_CUTOFF` on.
pub open spec fn spec_exp_neg(x: nat) -> int {
    if x >= LOG_CUTOFF {
        0
    } else {
        spec_pow_q63(EXP_NEG_TICK, x as u64)
    }
}

/// An acceptance probability always lies between zero and one.
pub proof fn lemma_exp_neg_range(x: nat)
    ensures
        0 <= spec_exp_neg(x) <= PROB_ONE,
{
    if x < LOG_CUTOFF {
        lemma_pow_q63_le_one(EXP_NEG_TICK, x as u64);
    }
}

/// The Metropolis factor `exp(-x)` as a Q0.63 probability.
pub fn exp_neg(x: u128) -> (r: u64)
    ensures
        r == spec_exp_neg(x as nat),
        r <= PROB_ONE,
{
    proof {
        lemma_exp_neg_range(x as nat);
    }
    if x >= LOG_CUTOFF as u128 {
        0
    } else {
        pow_q63(EXP_NEG_TICK, x as u64)
    }
}

} // verus!
