//! The pseudo-random source: a small, seedable generator threaded explicitly
//! through every draw, so that generation order is reproducible.

use vstd::prelude::*;

verus! {

#[verifier::external_type_specification]
#[verifier::external_body]
pub struct ExSmallRng(rand::rngs::SmallRng);

/// Relies on rand's `SeedableRng::seed_from_u64`: builds a generator from a
/// 64-bit seed.
#[verifier::external_body]
pub(crate) fn rng_from_seed(seed: u64) -> (r: rand::rngs::SmallRng) {
    <rand::rngs::SmallRng as rand::SeedableRng>::seed_from_u64(seed)
}

/// Relies on rand's `RngCore::next_u64`: one full-width draw. Nothing is
/// promised of the value.
#[verifier::external_body]
pub(crate) fn rng_next_u64(rng: &mut rand::rngs::SmallRng) -> (r: u64) {
    rand::RngCore::next_u64(rng)
}

/// Relies on rand's `Rng::gen_ratio`: a draw that is true with probability
/// `num / den`. The documentation guarantees `false` when `num` is zero and
/// `true` when `num` equals `den`, and a panic when `den` is zero or
/// `num > den`, which the precondition rules out.
#[verifier::external_body]
pub(crate) fn rng_ratio(rng: &mut rand::rngs::SmallRng, num: u32, den: u32) -> (r: bool)
    requires
        1 <= den,
        num <= den,
    ensures
        num == 0 ==> !r,
        num == den ==> r,
{
    rand::Rng::gen_ratio(rng, num, den)
}

} // verus!
