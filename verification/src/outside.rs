//! What this crate takes on trust from the crates it calls.

use vstd::prelude::*;
use rand::rngs::ThreadRng;
use rand::seq::SliceRandom;

verus! {

/// `array_init::array_init` fills an array of `N` elements by calling the
/// initializer once for each index, from `0` up to `N - 1`, and storing what it
/// returned at that index. Trusted: the initializer is called only on indices
/// below `N`, and element `i` of the result is a value it returned for `i`.
pub assume_specification<F, T, const N: usize>[ array_init::array_init::<F, T, N> ](
    initializer: F,
) -> (out: [T; N]) where F: FnMut(usize) -> T
    requires
        forall|i: usize| i < N ==> call_requires(initializer, (i,)),
    ensures
        forall|i: int| 0 <= i < N ==> call_ensures(initializer, (i as usize,), #[trigger] out@[i]),
;

/// `rand::rngs::ThreadRng`, the handle to the thread's random number
/// generator. Nothing is known of what it holds.
#[verifier::external_type_specification]
#[verifier::external_body]
pub struct ExThreadRng(rand::rngs::ThreadRng);

/// `rand::seq::SliceRandom::shuffle` on a slice rearranges it in place by
/// swapping pairs of its elements. Trusted: the slice afterwards holds the
/// same elements as before, each as often as before. Which order comes out
/// depends on the generator, and nothing is claimed of it.
#[verifier::external_body]
pub(crate) fn shuffle<T>(items: &mut [T], rng: &mut ThreadRng)
    ensures
        final(items)@.to_multiset() == old(items)@.to_multiset(),
{
    items.shuffle(rng)
}

} // verus!
