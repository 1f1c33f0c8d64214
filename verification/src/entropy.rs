//! The random source and the two draws the library makes from it.
//!
//! Nothing is proved about the generator itself. Each draw states only what
//! holds of every outcome; the callers are verified for all of them.

use vstd::prelude::*;

verus! {

/// `rand::rngs::StdRng`, carried through as an opaque value.
#[verifier::external_type_specification]
#[verifier::external_body]
pub struct ExStdRng(rand::rngs::StdRng);

/// Calls `rand::Rng::gen_range` on the half-open range `0..bound`.
///
/// Claimed of it: the value lies in the range. The range must not be empty,
/// since `gen_range` panics on an empty one.
#[verifier::external_body]
pub(crate) fn draw_below(rng: &mut rand::rngs::StdRng, bound: u128) -> (value: u128)
    requires
        bound > 0,
    ensures
        value < bound,
{
    rand::Rng::gen_range(rng, 0..bound)
}

/// Calls `rand::Rng::gen_ratio`, which is `true` with probability
/// `numerator / denominator`.
///
/// Claimed of it, as its documentation guarantees: the answer is `false` when
/// the numerator is zero and `true` when numerator and denominator are equal.
/// The inputs on which `gen_ratio` panics are left out.
#[verifier::external_body]
pub(crate) fn draw_ratio(rng: &mut rand::rngs::StdRng, numerator: u32, denominator: u32) -> (hit: bool)
    requires
        denominator > 0,
        numerator <= denominator,
    ensures
        numerator == 0 ==> !hit,
        numerator == denominator ==> hit,
{
    rand::Rng::gen_ratio(rng, numerator, denominator)
}

/// Draws a value from `-bound ..= bound`, each with the same probability.
pub fn draw_within(rng: &mut rand::rngs::StdRng, bound: i32) -> (value: i32)
    requires
        bound >= 0,
    ensures
        -bound <= value <= bound,
{
    let span: u128 = 2 * (bound as u128) + 1;
    let raw: u128 = draw_below(rng, span);
    centre(raw, bound)
}

/// The signed value that a raw draw stands for: the draw moved down by
/// `bound`, so that a draw from `0 ..= 2 * bound` lands in
/// `-bound ..= bound`. What does not fit an `i32` stops at its ends.
pub open spec fn centred(raw: u128, bound: i32) -> i32 {
    crate::fixed::saturate(raw - bound)
}

/// Moves a raw draw down by `bound`.
pub fn centre(raw: u128, bound: i32) -> (value: i32)
    ensures
        value == centred(raw, bound),
{
    if raw > 0x1_0000_0000 {
        i32::MAX
    } else {
        crate::fixed::saturate_i128(raw as i128 - bound as i128)
    }
}

} // verus!
