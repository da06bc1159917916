//! Random number generation, backed by the `fastrand` global generator.
use vstd::prelude::*;

verus! {

/// Calls `fastrand::bool`, which draws a uniformly random boolean from the
/// thread-local generator. Nothing is promised of which value comes back.
#[verifier::external_body]
pub(crate) fn random_bool() -> (r: bool) {
    fastrand::bool()
}

/// Calls `fastrand::usize(low..high)`, which panics on an empty range and otherwise
/// returns a value of the half-open range `low..high`; the claim is only that range.
#[verifier::external_body]
pub(crate) fn random_usize(low: usize, high: usize) -> (r: usize)
    requires
        low < high,
    ensures
        low <= r < high,
{
    fastrand::usize(low..high)
}

/// Calls `fastrand::u8(low..high)`, which panics on an empty range and otherwise
/// returns a value of the half-open range `low..high`; the claim is only that range.
#[verifier::external_body]
pub(crate) fn random_u8(low: u8, high: u8) -> (r: u8)
    requires
        low < high,
    ensures
        low <= r < high,
{
    fastrand::u8(low..high)
}

/// Seeds the global `fastrand` generator with `seed` (calls `fastrand::seed`), so that
/// the draws that follow are reproducible. It returns nothing and claims nothing.
#[verifier::external_body]
pub fn init_rng_seeded(seed: u64) {
    fastrand::seed(seed);
}

} // verus!
