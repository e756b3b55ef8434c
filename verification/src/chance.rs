//! Random choices. Pairing picks the offspring's gender and name at random;
//! the `rand` crate supplies the draws. Nothing is promised of an outcome
//! beyond its range.

use vstd::prelude::*;

verus! {

/// An even coin flip.
/// Relies on `rand::random::<bool>()`: a draw from the standard distribution
/// on `bool`. Nothing is promised of the outcome.
#[verifier::external_body]
pub fn coin() -> bool {
    rand::random::<bool>()
}

/// A random index below `n`.
/// Relies on `rand::Rng::gen_range` on the range `0..n`, which returns a
/// value inside the range and panics only when the range is empty.
#[verifier::external_body]
pub fn pick_index(n: usize) -> (r: usize)
    requires
        1 <= n,
    ensures
        r < n,
{
    rand::Rng::gen_range(&mut rand::thread_rng(), 0..n)
}

} // verus!
