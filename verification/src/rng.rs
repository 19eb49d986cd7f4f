//! Trusted boundary to the pseudo random number generator.
//!
//! The engines own a `rand_pcg::Pcg64` stream and thread it through every
//! step call.  Nothing is promised of a drawn value beyond its range, so
//! every caller is verified for every outcome of a draw.

use vstd::prelude::*;

use rand::Rng;
use rand::RngCore;
use rand::SeedableRng;

verus! {

/// Declares `rand_pcg::Lcg128Xsl64` (the struct behind the `Pcg64` alias)
/// so that the generator can live in fields and signatures.  Its state is
/// opaque here: nothing is assumed about the values it produces.
#[verifier::external_type_specification]
#[verifier::external_body]
pub struct ExLcg128Xsl64(rand_pcg::Lcg128Xsl64);

/// Relies on `rand_core::SeedableRng::seed_from_u64` for `rand_pcg::Pcg64`:
/// builds a generator from a 64-bit seed; it never fails.
#[verifier::external_body]
pub fn rng_from_seed(seed: u64) -> rand_pcg::Pcg64 {
    rand_pcg::Pcg64::seed_from_u64(seed)
}

/// Relies on `rand_core::RngCore::next_u64` for `rand_pcg::Pcg64`: one draw
/// from the stream; nothing is promised of the value.
#[verifier::external_body]
pub(crate) fn rng_next_u64(rng: &mut rand_pcg::Pcg64) -> u64 {
    rng.next_u64()
}

/// Relies on `rand::Rng::gen_range` on the half-open range `0..n` for
/// `rand_pcg::Pcg64`: a uniform draw below the bound.  It panics only on an
/// empty range, which the precondition rules out.
#[verifier::external_body]
pub(crate) fn rng_below(rng: &mut rand_pcg::Pcg64, n: usize) -> (r: usize)
    requires
        n >= 1,
    ensures
        r < n,
{
    rng.gen_range(0..n)
}

} // verus!
