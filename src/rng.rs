//! The random source that wander turns are drawn from.
use vstd::prelude::*;

verus! {

/// A seeded generator from the fastrand crate.
#[verifier::external_type_specification]
#[verifier::external_body]
pub struct ExRng(fastrand::Rng);

/// Relies on fastrand::Rng::with_seed: builds a generator from a seed, with
/// nothing promised about the values it will produce.
pub assume_specification[ fastrand::Rng::with_seed ](seed: u64) -> fastrand::Rng;

/// Relies on fastrand::Rng::i64: a value drawn from `lo..=hi`, which it
/// panics on only when that range is empty.
#[verifier::external_body]
pub(crate) fn random_in(rng: &mut fastrand::Rng, lo: i64, hi: i64) -> (r: i64)
    requires
        lo <= hi,
    ensures
        lo <= r <= hi,
{
    rng.i64(lo..=hi)
}

} // verus!
