//! The random number generator that drives the choice of sites.

use rand::Rng;
use rand::SeedableRng;
use rand_chacha::ChaCha8Rng;
use vstd::prelude::*;

verus! {

/// The ChaCha generator with eight rounds of the `rand_chacha` crate. Its
/// state is not modelled.
#[verifier::external_type_specification]
#[verifier::external_body]
pub struct ExChaCha8Rng(ChaCha8Rng);

/// `SeedableRng::seed_from_u64` of `ChaCha8Rng`: a generator whose stream is
/// fixed by `seed`. Nothing is claimed of the generator.
#[verifier::external_body]
pub(crate) fn rng_from_seed(seed: u64) -> ChaCha8Rng {
    ChaCha8Rng::seed_from_u64(seed)
}

/// `Rng::random_range` over `0..len`: a position below `len`, drawn from the
/// generator, which advances. The call panics on an empty range, which is
/// left out.
#[verifier::external_body]
pub(crate) fn random_index(rng: &mut ChaCha8Rng, len: usize) -> (idxl: usize)
    requires
        len > 0,
    ensures
        idxl < len,
{
    rng.random_range(0..len)
}

} // verus!
