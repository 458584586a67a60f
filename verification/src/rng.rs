//! Trusted boundary to the dice roller of the `rltk` crate.
//!
//! Nothing can be promised about which number comes back, only its
//! range; every caller is verified against every admissible outcome.

use vstd::prelude::*;

verus! {

#[verifier::external_type_specification]
#[verifier::external_body]
pub struct ExRandomNumberGenerator(rltk::RandomNumberGenerator);

/// Relies on rltk::RandomNumberGenerator::new: a freshly seeded dice
/// roller; nothing is assumed about the numbers it will produce.
#[verifier::external_body]
pub(crate) fn rng_new() -> rltk::RandomNumberGenerator {
    rltk::RandomNumberGenerator::new()
}

/// Relies on rltk::RandomNumberGenerator::roll_dice: the sum of `n`
/// dice of `die_type` sides, each die landing in `1..=die_type`.
#[verifier::external_body]
pub(crate) fn roll_dice(rng: &mut rltk::RandomNumberGenerator, n: i32, die_type: i32) -> (r: i32)
    requires
        1 <= n,
        1 <= die_type < i32::MAX,
        n * die_type <= i32::MAX,
    ensures
        n <= r <= n * die_type,
{
    rng.roll_dice(n, die_type)
}

/// Relies on rltk::RandomNumberGenerator::range: a number in
/// `min..max`, inclusive of `min` and exclusive of `max`.
#[verifier::external_body]
pub(crate) fn rng_range(rng: &mut rltk::RandomNumberGenerator, min: i32, max: i32) -> (r: i32)
    requires
        min < max,
    ensures
        min <= r < max,
{
    rng.range(min, max)
}

} // verus!
