use vstd::prelude::*;

use rand::Rng;

verus! {

/// Relies on rand::Rng::gen_range over rand::thread_rng(): for a
/// non-empty range `0..n` it returns a value of that range (and panics
/// only on an empty range, which the precondition rules out).
#[verifier::external_body]
pub(crate) fn random_below(n: usize) -> (r: usize)
    requires
        n >= 1,
    ensures
        r < n,
{
    rand::thread_rng().gen_range(0..n)
}

} // verus!
