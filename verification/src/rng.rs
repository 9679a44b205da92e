use vstd::prelude::*;

verus! {

#[verifier::external_type_specification]
#[verifier::external_body]
pub struct ExRandomNumberGenerator(rltk::RandomNumberGenerator);

/// Relies on rltk::RandomNumberGenerator::new: a pseudorandom source from a
/// fresh seed. Nothing is promised of the values it will yield.
#[verifier::external_body]
pub(crate) fn rng_new() -> rltk::RandomNumberGenerator {
    rltk::RandomNumberGenerator::new()
}

/// Relies on rltk::RandomNumberGenerator::seeded: a pseudorandom source from
/// the given seed. Nothing is promised of the values it will yield.
#[verifier::external_body]
pub(crate) fn rng_seeded(seed: u64) -> rltk::RandomNumberGenerator {
    rltk::RandomNumberGenerator::seeded(seed)
}

/// Relies on rltk::RandomNumberGenerator::range: a value at least `min` and
/// strictly below `max`. The call panics on an empty range, so `min < max`
/// is required here.
#[verifier::external_body]
pub(crate) fn rng_range(rng_src: &mut rltk::RandomNumberGenerator, min: i32, max: i32) -> (r: i32)
    requires
        min < max,
    ensures
        min <= r < max,
{
    rng_src.range(min, max)
}

} // verus!
