use crate::grid::GridSquare;
use rand::seq::SliceRandom;
use vstd::prelude::*;

verus! {

/// Relies on `rand::random::<u128>`: a fresh identifier drawn from the
/// thread-local generator. Nothing is promised of its value.
#[verifier::external_body]
pub(crate) fn random_id() -> u128 {
    rand::random::<u128>()
}

/// Relies on rand's `SliceRandom::shuffle` with the thread-local generator,
/// which only swaps elements: the result is a permutation of the input.
#[verifier::external_body]
pub(crate) fn shuffle_order(order: &mut Vec<(i32, u128)>)
    ensures
        final(order)@.to_multiset() == old(order)@.to_multiset(),
        final(order)@.len() == old(order)@.len(),
{
    order.shuffle(&mut rand::thread_rng());
}

/// Relies on rand's `SliceRandom::choose` with the thread-local generator:
/// `None` for an empty slice, else one of its elements.
#[verifier::external_body]
pub(crate) fn choose_square(squares: &Vec<GridSquare>) -> (r: Option<GridSquare>)
    ensures
        r is None <==> squares@.len() == 0,
        r matches Some(s) ==> squares@.contains(s),
{
    squares.choose(&mut rand::thread_rng()).copied()
}

} // verus!
