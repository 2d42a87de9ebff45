use rand::Rng;
use rand::rngs::ThreadRng;
use vstd::prelude::*;

verus! {

/// The thread-local generator of the `rand` crate, carried through the library
/// as an opaque value.
#[verifier::external_type_specification]
#[verifier::external_body]
pub struct ExThreadRng(ThreadRng);

/// Trusted: calls `rand::thread_rng`, which hands out the lazily seeded
/// generator of the current thread. Nothing is claimed of its state.
#[verifier::external_body]
pub(crate) fn thread_rng() -> ThreadRng {
    rand::thread_rng()
}

/// Trusted: calls `Rng::gen_range` on the inclusive range `low..=high` of `i32`.
/// rand asserts that the range is not empty (so `low <= high` is required) and
/// returns `low` plus an offset below the range's width: a value in `[low, high]`.
/// Which value comes out depends on the generator's state and is not stated.
#[verifier::external_body]
pub(crate) fn gen_range_i32(rng: &mut ThreadRng, low: i32, high: i32) -> (r: i32)
    requires
        low <= high,
    ensures
        low <= r <= high,
{
    rng.gen_range(low..=high)
}

/// Trusted: calls `Rng::gen_range` on the inclusive range `low..=high` of
/// `usize`, with the same guarantee as for `i32`: a value in `[low, high]`, which
/// one not stated; rand panics on an empty range, so `low <= high` is required.
#[verifier::external_body]
pub(crate) fn gen_range_usize(rng: &mut ThreadRng, low: usize, high: usize) -> (r: usize)
    requires
        low <= high,
    ensures
        low <= r <= high,
{
    rng.gen_range(low..=high)
}

/// A uniformly drawn integer of the closed interval `[min, max]`.
pub fn random_integer_interval(rng: &mut ThreadRng, min: i32, max: i32) -> (r: i32)
    requires
        min <= max,
    ensures
        min <= r <= max,
{
    gen_range_i32(rng, min, max)
}

} // verus!
