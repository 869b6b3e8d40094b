//! The source of chance: which column of the formation fires next.

use vstd::prelude::*;
use rand::distributions::{Distribution, Uniform};
use rand::rngs::ThreadRng;

verus! {

/// The thread-local random number generator of the `rand` crate. Nothing
/// is known of its state.
#[verifier::external_type_specification]
#[verifier::external_body]
pub struct ExThreadRng(rand::rngs::ThreadRng);

/// `rand::thread_rng`: a handle to the generator of the current thread.
/// Nothing is claimed of the handle.
pub assume_specification[ rand::thread_rng ]() -> (rng: ThreadRng)
;

/// Draws a number from `rand`'s uniform distribution over `0..bound`
/// (`Uniform::from` of the range, then `Distribution::sample`).
///
/// The contract claims only that the number lies in the range, which the
/// distribution documents for every generator; the range must not be
/// empty, as the distribution refuses to be built over an empty one.
#[verifier::external_body]
pub(crate) fn sample_below(rng: &mut ThreadRng, bound: usize) -> (n: usize)
    requires
        bound > 0,
    ensures
        n < bound,
{
    Uniform::from(0..bound).sample(rng)
}

} // verus!
