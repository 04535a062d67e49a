//! Trusted boundary to the process random number generator.
//!
//! The relaxed composers sample sub-queue indices at random. Nothing is
//! assumed about the distribution: every contract downstream holds for every
//! outcome, so the only fact stated here is that a sampled index is in
//! range.

use vstd::prelude::*;

verus! {

/// `rand::rngs::ThreadRng`, opaque to the verifier: a handle to the calling
/// thread's random number generator.
#[verifier::external_type_specification]
#[verifier::external_body]
pub struct ExThreadRng(rand::rngs::ThreadRng);

/// Relies on rand::thread_rng: obtains the calling thread's generator.
#[verifier::external_body]
pub(crate) fn new_thread_rng() -> (r: rand::rngs::ThreadRng) {
    rand::thread_rng()
}

/// Relies on rand::Rng::gen_range: a uniform sample from `0..n`. The range
/// is non-empty by the precondition (`gen_range` panics on an empty range),
/// and the sample lies below `n`.
#[verifier::external_body]
pub(crate) fn gen_index(rng: &mut rand::rngs::ThreadRng, n: usize) -> (i: usize)
    requires
        n > 0,
    ensures
        i < n,
{
    rand::Rng::gen_range(rng, 0..n)
}

} // verus!
