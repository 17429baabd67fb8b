//! The random source: a generator of the `rand` crate behind three calls.
//!
//! Nothing here is proved. Each contract states only what holds of every value
//! that the generator can hand out.

use rand::rngs::StdRng;
use rand::{Rng, SeedableRng};
use vstd::prelude::*;

verus! {

/// The generator `rand::rngs::StdRng`, carried through as an opaque value.
#[verifier::external_type_specification]
#[verifier::external_body]
pub struct ExStdRng(StdRng);

/// A generator seeded from the operating system, by `StdRng::from_entropy`.
/// Nothing is claimed of it.
#[verifier::external_body]
pub(crate) fn entropy_rng() -> StdRng {
    StdRng::from_entropy()
}

/// One value drawn from `low..=high`, by `Rng::gen_range`. That function
/// refuses an empty range, which `requires` leaves out, and adds an offset
/// below the range's size to `low`: the value lies in the range.
#[verifier::external_body]
pub(crate) fn uniform_i32(rng: &mut StdRng, low: i32, high: i32) -> (value: i32)
    requires
        low <= high,
    ensures
        low <= value <= high,
{
    rng.gen_range(low..=high)
}

/// One value drawn from all of `u32`, by `Rng::gen`. Nothing is claimed of it.
#[verifier::external_body]
pub(crate) fn uniform_u32(rng: &mut StdRng) -> u32 {
    rng.gen::<u32>()
}

} // verus!
