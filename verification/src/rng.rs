//! The one place where the engines draw randomness: a bound, a draw below
//! it. Everything an engine then does with the draw is verified for every
//! value the draw could take.

use vstd::prelude::*;

verus! {

/// Relies on rand::random_range: a draw from `0..bound` is strictly below
/// `bound`; the call panics only on an empty range, which `bound > 0`
/// rules out.
#[verifier::external_body]
pub(crate) fn random_below(bound: usize) -> (r: usize)
    requires
        bound > 0,
    ensures
        r < bound,
{
    rand::random_range(0..bound)
}

} // verus!
