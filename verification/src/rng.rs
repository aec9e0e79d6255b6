//! The trusted boundary to the pseudo-random number generator.
//!
//! The scroll buffer reseeds trailing-edge tiles from a `wyrand::WyRand`
//! stream. Nothing is assumed about the values drawn beyond the range the
//! sampler documents, so every verified caller must be correct for every
//! outcome.

use vstd::prelude::*;

verus! {

#[verifier::external_type_specification]
#[verifier::external_body]
pub struct ExWyRand(wyrand::WyRand);

/// Relies on rand's `RngExt::random_range` over wyrand's `WyRand`: a
/// sample of the non-empty range `0..n` lies in that range. Nothing else
/// is assumed of the value.
#[verifier::external_body]
pub(crate) fn random_variant(rng: &mut wyrand::WyRand, n: u32) -> (r: u32)
    requires
        n >= 1,
    ensures
        r < n,
{
    rand::RngExt::random_range(rng, 0..n)
}

} // verus!
