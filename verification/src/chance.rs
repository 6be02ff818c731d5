//! The simulation's one source of chance: a `rand::rngs::StdRng` that the
//! caller owns and every subsystem draws from in turn.
//!
//! Nothing is known about a draw beyond its range, so every function that
//! draws promises only what holds whichever value comes back.

use rand::rngs::StdRng;
use rand::Rng;
use vstd::prelude::*;

verus! {

/// `rand::rngs::StdRng`, declared so that verified code can hand it on.
///
/// Trusted: nothing. The generator is opaque, and no contract speaks of its
/// state.
#[verifier::external_type_specification]
#[verifier::external_body]
pub struct ExStdRng(rand::rngs::StdRng);

/// `rand::Rng::gen_range` on the half-open range `low..high`.
///
/// Trusted: the drawn value lies in the range. `gen_range` panics on an
/// empty range, which the precondition rules out.
#[verifier::external_body]
pub(crate) fn roll_range(rng: &mut StdRng, low: usize, high: usize) -> (r: usize)
    requires
        low < high,
    ensures
        low <= r < high,
{
    rng.gen_range(low..high)
}

/// `rand::Rng::gen_ratio`: true with probability `numerator / denominator`.
///
/// Trusted: a ratio of one always gives true and a ratio of zero always
/// gives false. `gen_ratio` panics on a zero denominator or a ratio above
/// one, which the precondition rules out.
#[verifier::external_body]
pub(crate) fn roll_ratio(rng: &mut StdRng, numerator: u32, denominator: u32) -> (r: bool)
    requires
        0 < denominator,
        numerator <= denominator,
    ensures
        numerator == denominator ==> r,
        numerator == 0 ==> !r,
{
    rng.gen_ratio(numerator, denominator)
}

} // verus!
