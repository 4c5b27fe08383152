//! The injected pseudo-random source: a seedable generator from the `rand`
//! crate, behind trusted wrappers. Nothing is assumed of the drawn values
//! beyond their range, and of a shuffle beyond being a permutation.

use vstd::prelude::*;

verus! {

/// Declares rand's `StdRng` so that generator values can be stored and
/// passed through; the verifier sees nothing inside them.
#[verifier::external_type_specification]
#[verifier::external_body]
pub struct ExStdRng(rand::rngs::StdRng);

/// Relies on rand's `SeedableRng::seed_from_u64`: builds a deterministic
/// generator from a seed.
#[verifier::external_body]
pub(crate) fn seeded_rng(seed: u64) -> rand::rngs::StdRng {
    <rand::rngs::StdRng as rand::SeedableRng>::seed_from_u64(seed)
}

/// Relies on rand's `Rng::random_range`: a draw from `lo..hi` lies in that
/// range (the call panics on an empty range, which the precondition rules
/// out).
#[verifier::external_body]
pub(crate) fn rand_range_i64(rng: &mut rand::rngs::StdRng, lo: i64, hi: i64) -> (r: i64)
    requires
        lo < hi,
    ensures
        lo <= r < hi,
{
    rand::Rng::random_range(rng, lo..hi)
}

/// Relies on rand's `SliceRandom::shuffle`: the slice is permuted in place,
/// so afterwards it holds the same elements as before, as a multiset.
#[verifier::external_body]
pub(crate) fn shuffle_vec<A>(rng: &mut rand::rngs::StdRng, v: &mut Vec<A>)
    ensures
        final(v)@.len() == old(v)@.len(),
        final(v)@.to_multiset() == old(v)@.to_multiset(),
{
    rand::seq::SliceRandom::shuffle(v.as_mut_slice(), rng);
}

} // verus!
