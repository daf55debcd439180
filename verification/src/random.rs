use vstd::prelude::*;

use rand::rngs::ThreadRng;
use rand::seq::SliceRandom;

verus! {

/// The generator handle of `rand`, carried through as an opaque value.
#[verifier::external_type_specification]
#[verifier::external_body]
pub struct ExThreadRng(rand::rngs::ThreadRng);

/// Calls `rand::thread_rng`, a handle to the generator of the current thread. Nothing is
/// promised of what it will draw. Its source (rand 0.8) panics only when the system's random
/// source cannot seed the generator of the thread, which no argument can rule out.
#[verifier::external_body]
pub(crate) fn thread_rng() -> ThreadRng {
    rand::thread_rng()
}

/// Calls `SliceRandom::shuffle` on the cards. Its source (rand 0.8) only swaps elements in
/// place, so the same cards come out, each as often, in an order that rests on chance and is
/// not stated.
#[verifier::external_body]
pub(crate) fn shuffle_cards(cards: &mut Vec<u8>, rng: &mut ThreadRng)
    ensures
        final(cards)@.to_multiset() == old(cards)@.to_multiset(),
{
    cards.shuffle(rng)
}

/// Calls `SliceRandom::choose`: no element for an empty slice, else one of its elements,
/// picked by chance (which one is not stated).
#[verifier::external_body]
pub(crate) fn choose_one<T: Copy>(items: &[T], rng: &mut ThreadRng) -> (r: Option<T>)
    ensures
        r is None <==> items@.len() == 0,
        r matches Some(x) ==> items@.contains(x),
{
    items.choose(rng).copied()
}

} // verus!
