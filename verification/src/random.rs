//! The source of random numbers for a shuffle: a generator of the
//! `quad-rand` crate, which the caller makes and seeds.

use vstd::prelude::*;
use quad_rand::RandGenerator;

verus! {

/// `quad_rand::RandGenerator`, a seeded pseudo-random number generator.
/// Nothing of its state is known here.
#[verifier::external_type_specification]
#[verifier::external_body]
pub struct ExRandGenerator(RandGenerator);

/// The widest range asked of the generator: within it the generator's
/// arithmetic on double-precision numbers is exact.
pub const RANGE_LIMIT: i32 = 0x10_0000;

/// `quad_rand::RandGenerator::gen_range` on `i32`.
///
/// Believed of it: the number returned is at least `low` and less than
/// `high`. The crate scales a fraction below one to the width of the range,
/// adds `low` and cuts off the digits after the point; for a range that
/// starts at zero or above this stays within the range. Which number comes
/// is not known, and two calls may differ.
#[verifier::external_body]
pub(crate) fn gen_range(rng: &RandGenerator, low: i32, high: i32) -> (r: i32)
    requires
        0 <= low < high <= RANGE_LIMIT,
    ensures
        low <= r < high,
{
    rng.gen_range(low, high)
}

} // verus!
