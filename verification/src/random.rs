//! The random draws of the search, made by the `rand` crate on a ChaCha
//! generator.
//!
//! Nothing here is proved. Each contract says what holds of every draw, as
//! the source of `rand` shows it; which item is drawn is left open.

use rand::seq::SliceRandom;
use rand::Rng;
use rand_chacha::ChaCha20Rng;
use vstd::prelude::*;

verus! {

/// The generator that every random decision of the search draws from.
#[verifier::external_type_specification]
#[verifier::external_body]
pub struct ExChaCha20Rng(ChaCha20Rng);

/// The sum of the weights of `items`.
pub open spec fn total_weight<T>(items: Seq<(T, u64)>) -> int
    decreases items.len(),
{
    if items.len() == 0 {
        0
    } else {
        total_weight(items.drop_last()) + items.last().1
    }
}

/// `rand::seq::SliceRandom::choose`: draws one item of a slice, each with
/// the same chance. The contract claims that an empty slice gives `None` and
/// any other slice gives one of its items.
#[verifier::external_body]
pub(crate) fn draw_one<'a, T>(items: &'a Vec<T>, rng: &mut ChaCha20Rng) -> (chosen: Option<&'a T>)
    ensures
        chosen is None <==> items@.len() == 0,
        chosen matches Some(item) ==> items@.contains(*item),
{
    items.choose(rng)
}

/// `rand::seq::SliceRandom::choose_weighted`: draws one item of a slice with
/// a chance in proportion to its weight. The contract claims that the draw
/// fails exactly when the weights add up to zero, which covers the empty
/// slice, and that it otherwise gives an item of the slice whose weight is not
/// zero. The weights are summed in `u64` on the way, so the sum has to fit.
#[verifier::external_body]
pub(crate) fn draw_weighted<'a, T>(items: &'a Vec<(T, u64)>, rng: &mut ChaCha20Rng) -> (chosen:
    Option<&'a (T, u64)>)
    requires
        total_weight(items@) <= u64::MAX,
    ensures
        chosen is Some <==> total_weight(items@) > 0,
        chosen matches Some(item) ==> items@.contains(*item) && item.1 > 0,
{
    items.choose_weighted(rng, |item| item.1).ok()
}

/// `rand::seq::SliceRandom::shuffle`: reorders a slice in place by swaps.
/// The contract claims that the items are the same afterwards, each as often
/// as before.
#[verifier::external_body]
pub(crate) fn shuffle<T>(items: &mut Vec<T>, rng: &mut ChaCha20Rng)
    ensures
        final(items)@.to_multiset() == old(items)@.to_multiset(),
{
    items.shuffle(rng)
}

/// `rand::Rng::gen_range` on a half-open range of `usize`: draws a number of
/// the range, each with the same chance. It panics on an empty range, which
/// the precondition leaves out; the contract claims that the number drawn
/// lies in the range.
#[verifier::external_body]
pub(crate) fn draw_in_range(rng: &mut ChaCha20Rng, low: usize, high: usize) -> (drawn: usize)
    requires
        low < high,
    ensures
        low <= drawn < high,
{
    rng.gen_range(low..high)
}

} // verus!
