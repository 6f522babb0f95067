use rand::rngs::StdRng;
use rand::{RngExt, SeedableRng};
use vstd::prelude::*;

verus! {

/// `rand::rngs::StdRng`, the seeded generator that level generation and the
/// expedition design pass draw from. Verus sees nothing inside it.
#[verifier::external_type_specification]
#[verifier::external_body]
pub struct ExStdRng(StdRng);

/// `StdRng::seed_from_u64`: a fresh generator for `seed`.
/// Nothing is promised of the generator itself: it is opaque.
#[verifier::external_body]
pub(crate) fn seeded_rng(seed: u64) -> StdRng {
    StdRng::seed_from_u64(seed)
}

/// `rng.random_range(0..len)` on `usize`: rand documents that the value lies in
/// the half-open range and that an empty range panics, so `len` must be positive.
#[verifier::external_body]
pub(crate) fn random_index(rng: &mut StdRng, len: usize) -> (r: usize)
    requires
        len > 0,
    ensures
        r < len,
{
    rng.random_range(0..len)
}

/// `rng.random_range(low..=high)` on `usize`: the value lies in the closed range;
/// an empty range panics, so `low <= high`.
#[verifier::external_body]
pub(crate) fn random_usize_inclusive(rng: &mut StdRng, low: usize, high: usize) -> (r: usize)
    requires
        low <= high,
    ensures
        low <= r <= high,
{
    rng.random_range(low..=high)
}

/// `rng.random_range(low..=high)` on `u8`: the value lies in the closed range.
#[verifier::external_body]
pub(crate) fn random_u8_inclusive(rng: &mut StdRng, low: u8, high: u8) -> (r: u8)
    requires
        low <= high,
    ensures
        low <= r <= high,
{
    rng.random_range(low..=high)
}

/// `rng.random_ratio(numerator, denominator)`: true with probability
/// `numerator / denominator`. rand documents that a zero numerator always gives
/// `false`, an equal numerator and denominator always `true`, and that a zero
/// denominator or a numerator above it panics. (`random_ratio(9, 50)` builds the
/// same Bernoulli threshold as `random_bool(0.18)`.)
#[verifier::external_body]
pub(crate) fn random_ratio(rng: &mut StdRng, numerator: u32, denominator: u32) -> (r: bool)
    requires
        0 < denominator,
        numerator <= denominator,
    ensures
        numerator == 0 ==> !r,
        numerator == denominator ==> r,
{
    rng.random_ratio(numerator, denominator)
}

} // verus!
