use vstd::prelude::*;

verus! {

#[verifier::external_type_specification]
#[verifier::external_body]
pub struct ExRandomNumberGenerator(bracket_lib::random::RandomNumberGenerator);

/// Relies on bracket-random's `RandomNumberGenerator::new`: a generator seeded
/// from the platform's entropy source, or from the clock when that fails.
/// Nothing is promised of what it will draw.
#[verifier::external_body]
pub(crate) fn rng_new() -> (r: bracket_lib::random::RandomNumberGenerator) {
    bracket_lib::random::RandomNumberGenerator::new()
}

/// Relies on bracket-random's `RandomNumberGenerator::range`, which samples
/// `gen_range(min..max)`: a value in `[min, max)`; an empty range panics.
#[verifier::external_body]
pub(crate) fn rng_range(rng: &mut bracket_lib::random::RandomNumberGenerator, min: i32, max: i32) -> (r: i32)
    requires
        min < max,
    ensures
        min <= r < max,
{
    rng.range(min, max)
}

/// Relies on bracket-random's `RandomNumberGenerator::roll_dice`: one die of
/// `sides` faces is `range(1, sides + 1)`, a value in `[1, sides]`.
#[verifier::external_body]
pub(crate) fn roll_die(rng: &mut bracket_lib::random::RandomNumberGenerator, sides: i32) -> (r: i32)
    requires
        1 <= sides < i32::MAX,
    ensures
        1 <= r <= sides,
{
    rng.roll_dice(1, sides)
}

/// Relies on bracket-terminal's `to_cp437`, whose table maps each printable
/// ASCII character to its own code.
#[verifier::external_body]
pub(crate) fn cp437(c: char) -> (r: u16)
    ensures
        ' ' <= c <= '~' ==> r == c as u16,
{
    bracket_lib::terminal::to_cp437(c)
}

} // verus!
