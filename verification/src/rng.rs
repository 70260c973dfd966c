//! The random draws of the library, taken from the `rand` crate.
use vstd::prelude::*;
use rand::Rng;

verus! {

/// One of the three axes, drawn uniformly from the thread's generator.
///
/// Calls `rand::thread_rng` and `Rng::gen_range` on the range `0..3`. The
/// contract claims only that the value lies in that range, which is what
/// `gen_range` documents for a non-empty range; nothing is claimed of which
/// axis comes out.
#[verifier::external_body]
pub(crate) fn random_axis() -> (axis: usize)
    ensures
        axis < 3,
{
    rand::thread_rng().gen_range(0..3)
}

/// A fair coin, flipped on the thread's generator.
///
/// Calls `rand::thread_rng` and `Rng::gen` for a `bool`. Nothing is claimed
/// of the outcome.
#[verifier::external_body]
pub(crate) fn coin() -> (heads: bool)
{
    rand::thread_rng().gen::<bool>()
}

} // verus!
