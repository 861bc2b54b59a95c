//! Trusted boundary to the pseudo-random number generator used when
//! splitting rectangles.

use vstd::prelude::*;

verus! {

/// The xoshiro256++ generator of the rand_xoshiro crate, declared so its
/// state can be threaded through verified code. Verus sees the value as
/// opaque.
#[verifier::external_type_specification]
#[verifier::external_body]
pub struct ExXoshiro256PlusPlus(rand_xoshiro::Xoshiro256PlusPlus);

/// Relies on rand_core::SeedableRng::seed_from_u64: builds a generator
/// from a 64-bit seed. Nothing is promised of the state produced.
#[verifier::external_body]
pub fn seeded_rng(seed: u64) -> rand_xoshiro::Xoshiro256PlusPlus {
    rand_xoshiro::rand_core::SeedableRng::seed_from_u64(seed)
}

/// Relies on rand::RngExt::random_range: a draw from the half-open range
/// `lb..ub`, uniform by its documentation; it panics on an empty range, so
/// the range must be non-empty. Only the bound on the result is promised:
/// the value itself depends on the generator's state.
#[verifier::external_body]
pub(crate) fn draw_in_range(
    rng: &mut rand_xoshiro::Xoshiro256PlusPlus,
    lb: usize,
    ub: usize,
) -> (r: usize)
    requires
        lb < ub,
    ensures
        lb <= r < ub,
{
    rand::RngExt::random_range(rng, lb..ub)
}

} // verus!
