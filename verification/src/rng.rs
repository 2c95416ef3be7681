//! Trusted randomness boundary.

use vstd::prelude::*;

verus! {

/// Relies on `rand::random_range` over `0..n`: a sample drawn uniformly
/// from the half-open range, so the result is strictly below `n`.  The
/// range is nonempty (`n > 0`), so the call cannot panic.
#[verifier::external_body]
pub(crate) fn rand_below(n: u64) -> (r: u64)
    requires
        n > 0,
    ensures
        r < n,
{
    rand::random_range(0..n)
}

} // verus!
