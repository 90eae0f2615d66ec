//! The crate's one source of randomness.

use vstd::prelude::*;

verus! {

/// Relies on `rand::Rng::gen_range` on `rand::thread_rng()` with the range
/// `0..65536`: the range is nonempty, so the call does not panic and returns a
/// uniformly distributed value of that range.  Nothing more is assumed of the
/// draw.
#[verifier::external_body]
pub(crate) fn random_unit_fraction() -> (r: i64)
    ensures
        0 <= r < 65536,
{
    rand::Rng::gen_range(&mut rand::thread_rng(), 0i64..65536i64)
}

} // verus!
