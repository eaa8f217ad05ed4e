//! The source of secret numbers.

use rand::Rng;
use vstd::prelude::*;

verus! {

/// Draws a secret number between 1 and `range`, both included.
///
/// Trusted: the body is `rand::thread_rng().gen_range(1..=range)`. The contract
/// claims only that the number lies in the range asked for, which is what
/// `Rng::gen_range` documents; which number comes out is left open. The call
/// panics on an empty range, so `range` must be at least 1.
#[verifier::external_body]
pub(crate) fn generate_secret_number(range: u32) -> (secret: u32)
    requires
        1 <= range,
    ensures
        1 <= secret <= range,
{
    rand::thread_rng().gen_range(1..=range)
}

} // verus!
