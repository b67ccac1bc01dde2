//! The random number generator of `bracket_lib`, behind contracts.
//!
//! Nothing is known of what a generator will draw next; the functions here
//! state only what holds of every draw.

use vstd::prelude::*;
use bracket_lib::random::RandomNumberGenerator;

verus! {

/// `bracket_lib::random::RandomNumberGenerator`, as a type that Verus
/// carries through without looking inside.
#[verifier::external_type_specification]
#[verifier::external_body]
pub struct ExRandomNumberGenerator(RandomNumberGenerator);

/// Calls `RandomNumberGenerator::new`, which seeds a generator from the
/// system. Nothing is claimed of the generator.
#[verifier::external_body]
pub(crate) fn fresh_generator() -> RandomNumberGenerator {
    RandomNumberGenerator::new()
}

/// Calls `RandomNumberGenerator::range`. Claimed: the value drawn is at
/// least `min` and below `max`; which one it is, is not known. The call
/// panics on an empty range.
#[verifier::external_body]
pub(crate) fn range(rng: &mut RandomNumberGenerator, min: usize, max: usize) -> (v: usize)
    requires
        min < max,
    ensures
        min <= v < max,
{
    rng.range(min, max)
}

} // verus!
