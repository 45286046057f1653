//! Randomness, behind one trusted wrapper.

use vstd::prelude::*;
use rand::Rng;

verus! {

/// Relies on `rand::Rng::random_range` over `lo..hi`: it returns a value
/// of the half-open range, and panics only when the range is empty.
#[verifier::external_body]
pub(crate) fn random_in_range(lo: i64, hi: i64) -> (r: i64)
    requires
        lo < hi,
    ensures
        lo <= r < hi,
{
    rand::rng().random_range(lo..hi)
}

} // verus!
