//! The randomness source: a seedable generator that hands out uniformly
//! distributed integers from inclusive ranges.

use rand::rngs::OsRng;
use rand::rngs::StdRng;
use rand::Rng;
use rand::SeedableRng;
use vstd::prelude::*;

verus! {

#[verifier::external_type_specification]
#[verifier::external_body]
pub struct ExStdRng(StdRng);

/// A generator seeded from the operating system's entropy source, if that
/// source hands out a seed.
///
/// Calls `rand::SeedableRng::from_rng` for `rand::rngs::StdRng` with
/// `rand::rngs::OsRng`, which gives an error, and no generator, where the
/// operating system has no random bytes to give. Nothing is claimed of the
/// generator that comes back, nor that one does.
#[verifier::external_body]
fn entropy_rng() -> (rng: Option<StdRng>) {
    StdRng::from_rng(OsRng).ok()
}

/// A generator that replays the same sequence for the same `seed`.
///
/// Calls `rand::SeedableRng::seed_from_u64` for `rand::rngs::StdRng`. Nothing
/// is claimed of the generator that comes back.
#[verifier::external_body]
fn seeded_rng(seed: u64) -> (rng: StdRng) {
    StdRng::seed_from_u64(seed)
}

/// One value from the inclusive range `min..=max`.
///
/// Calls `rand::Rng::gen_range` with the inclusive range. That call panics on
/// an empty range, which `requires` excludes, and otherwise returns a value of
/// the range. Which value comes back is left open, and so is the generator's
/// state afterwards.
#[verifier::external_body]
fn sample_inclusive(rng: &mut StdRng, min: i64, max: i64) -> (value: i64)
    requires
        min <= max,
    ensures
        min <= value <= max,
{
    rng.gen_range(min..=max)
}

/// A source of dice rolls.
///
/// Every resolver takes the dice it rolls with as an explicit argument, so two
/// resolutions never share generator state unless the caller hands them the
/// same `Dice`.
pub struct Dice {
    rng: StdRng,
}

impl Dice {
    /// Dice that differ from run to run, unless the operating system has no
    /// randomness to start them with.
    pub fn new() -> (dice: Option<Dice>) {
        match entropy_rng() {
            Some(rng) => Some(Dice { rng }),
            None => None,
        }
    }

    /// Dice that replay the same rolls whenever they are made from the same
    /// `seed` and asked the same questions.
    pub fn from_seed(seed: u64) -> (dice: Dice) {
        Dice { rng: seeded_rng(seed) }
    }

    /// Rolls one value from the inclusive range `min..=max`.
    ///
    /// An empty range is a programming error of the caller and is ruled out
    /// by the precondition rather than clamped.
    pub fn roll(&mut self, min: i64, max: i64) -> (value: i64)
        requires
            min <= max,
        ensures
            min <= value <= max,
    {
        sample_inclusive(&mut self.rng, min, max)
    }

    /// Rolls one value from `min..=max`, or reports an empty range as `None`
    /// without touching the generator.
    pub fn try_roll(&mut self, min: i64, max: i64) -> (value: Option<i64>)
        ensures
            value is Some <==> min <= max,
            value matches Some(v) ==> min <= v <= max,
    {
        if min <= max {
            Some(self.roll(min, max))
        } else {
            None
        }
    }
}

} // verus!
