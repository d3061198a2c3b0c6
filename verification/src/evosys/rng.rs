//! Random draws, taken from the `rand` crate's thread-local generator.
use rand::seq::SliceRandom;
use rand::Rng;
use vstd::prelude::*;

verus! {

/// `Rng::gen_range(low, high)` on the thread-local generator, for `usize`:
/// the value drawn lies in `[low, high)`. `rand` panics when `low >= high`,
/// so that input is left out.
#[verifier::external_body]
pub(crate) fn rand_range_usize(low: usize, high: usize) -> (r: usize)
    requires
        low < high,
    ensures
        low <= r < high,
{
    rand::thread_rng().gen_range(low, high)
}

/// `Rng::gen_range(low, high)` on the thread-local generator, for `i32`:
/// the value drawn lies in `[low, high)`. `rand` panics when `low >= high`,
/// so that input is left out.
#[verifier::external_body]
pub(crate) fn rand_range_i32(low: i32, high: i32) -> (r: i32)
    requires
        low < high,
    ensures
        low <= r < high,
{
    rand::thread_rng().gen_range(low, high)
}

/// `Rng::gen::<bool>()` on the thread-local generator. Nothing is promised
/// of the value: it rests on chance.
#[verifier::external_body]
pub(crate) fn rand_bool() -> bool {
    rand::thread_rng().gen::<bool>()
}

/// `Rng::gen::<u32>()` on the thread-local generator. Any `u32` can come
/// back: it rests on chance.
#[verifier::external_body]
pub(crate) fn rand_u32() -> u32 {
    rand::thread_rng().gen::<u32>()
}

/// `SliceRandom::shuffle` on the thread-local generator. `rand` shuffles by
/// swapping elements (Fisher-Yates), so the result is a permutation of the
/// input: the same elements, each as often as before. Which permutation
/// comes out rests on chance and is not stated.
#[verifier::external_body]
pub(crate) fn shuffle_usize(v: &mut Vec<usize>)
    ensures
        final(v)@.to_multiset() == old(v)@.to_multiset(),
{
    v.shuffle(&mut rand::thread_rng())
}

} // verus!
