//! Random number generation, delegated to the `rand` crate behind
//! trusted wrappers.  Nothing is assumed of a drawn value beyond its
//! range, so every consumer is verified for every possible outcome.

use rand::Rng;
use vstd::prelude::*;

verus! {

#[verifier::external_type_specification]
#[verifier::external_body]
pub struct ExThreadRng(rand::rngs::ThreadRng);

/// Relies on `rand::thread_rng`: returns a handle to the lazily
/// initialized thread-local generator.
#[verifier::external_body]
pub(crate) fn fresh_rng() -> rand::rngs::ThreadRng {
    rand::thread_rng()
}

/// Relies on `rand::Rng::gen_range` over an inclusive range: the sample
/// lies within the range; the call panics only on an empty range, which
/// the precondition rules out.
#[verifier::external_body]
pub(crate) fn gen_range_i64(rng: &mut rand::rngs::ThreadRng, lo: i64, hi: i64) -> (r: i64)
    requires
        lo <= hi,
    ensures
        lo <= r <= hi,
{
    rng.gen_range(lo..=hi)
}

} // verus!
