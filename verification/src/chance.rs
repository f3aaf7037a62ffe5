//! Numbers drawn at random.

use rand::Rng;
use vstd::prelude::*;

verus! {

/// A number drawn by the thread's generator of the `rand` crate, with
/// `Rng::gen_range` on the range from `low` up to, not including, `high`.
/// The contract says only that the number lies in that range. The call
/// fails if the system gives the generator no seed.
#[verifier::external_body]
pub(crate) fn random_in(low: u32, high: u32) -> (n: u32)
    requires
        low < high,
    ensures
        low <= n < high,
{
    rand::thread_rng().gen_range(low..high)
}

/// A number between 1 and 100, drawn at random.
pub fn one_to_hundred() -> (n: u32)
    ensures
        1 <= n <= 100,
{
    random_in(1, 101)
}

} // verus!
