//! Where the library gets its random numbers.

use rand::Rng;
use vstd::prelude::*;

verus! {

/// A random integer from `rand::Rng::gen_range`, drawn on the generator that
/// `rand::thread_rng` hands out. Believed of it: the value lies in
/// `[low, high)`. The call panics where `low >= high`, so that is ruled out.
#[verifier::external_body]
pub(crate) fn random_in_range(low: i32, high: i32) -> (value: i32)
    requires
        low < high,
    ensures
        low <= value < high,
{
    rand::thread_rng().gen_range(low, high)
}

} // verus!
