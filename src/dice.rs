//! Dice rolls drawn from the thread-local random source.
use rand::rngs::ThreadRng;
use vstd::prelude::*;

verus! {

/// `rand::rngs::ThreadRng`, the thread-local random source that every roll draws
/// from; nothing is assumed of its state.
#[verifier::external_type_specification]
#[verifier::external_body]
pub struct ExThreadRng(ThreadRng);

/// Relies on `rand::Rng::random_range` over an inclusive range: the value drawn
/// lies within both bounds; the call panics only on an empty range.
#[verifier::external_body]
pub(crate) fn roll_between(rng: &mut ThreadRng, low: i32, high: i32) -> (r: i32)
    requires
        low <= high,
    ensures
        low <= r <= high,
{
    rand::Rng::random_range(rng, low..=high)
}

/// The sum of three six-sided dice.
pub fn roll3d6(rng: &mut ThreadRng) -> (r: i32)
    ensures
        3 <= r <= 18,
{
    let roll1 = roll_between(rng, 1, 6);
    let roll2 = roll_between(rng, 1, 6);
    let roll3 = roll_between(rng, 1, 6);
    roll1 + roll2 + roll3
}

/// One twenty-sided die.
pub fn roll1d20(rng: &mut ThreadRng) -> (r: i32)
    ensures
        1 <= r <= 20,
{
    roll_between(rng, 1, 20)
}

/// One eight-sided die.
pub fn roll1d8(rng: &mut ThreadRng) -> (r: i32)
    ensures
        1 <= r <= 8,
{
    roll_between(rng, 1, 8)
}

} // verus!
