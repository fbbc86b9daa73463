//! The library's one source of randomness, used only when a flock is
//! first populated.

use vstd::prelude::*;
use rand::Rng;

verus! {

/// Relies on `rand::Rng::gen_range` over `low..high`: it panics only on
/// an empty range (excluded by the precondition) and returns a uniformly
/// drawn value of the range.  Nothing beyond membership in the range is
/// assumed of the draw.
#[verifier::external_body]
pub(crate) fn rand_i64(low: i64, high: i64) -> (r: i64)
    requires
        low < high,
    ensures
        low <= r < high,
{
    rand::thread_rng().gen_range(low..high)
}

} // verus!
