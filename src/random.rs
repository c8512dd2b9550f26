use vstd::prelude::*;

use macroquad::rand::RandGenerator;

verus! {

/// quad_rand's `RandGenerator` (re-exported by macroquad), carried as an opaque value.
#[verifier::external_type_specification]
#[verifier::external_body]
pub struct ExRandGenerator(RandGenerator);

/// Relies on quad_rand's `RandGenerator::new`: a generator in its fixed initial state.
pub assume_specification[ RandGenerator::new ]() -> RandGenerator;

/// Relies on quad_rand's `RandGenerator::srand`: restarts the sequence from `seed`.
pub assume_specification[ RandGenerator::srand ](gen: &RandGenerator, seed: u64);

/// Relies on quad_rand's `RandGenerator::gen_range` on `i32`: it scales a draw in `[0, 1)`
/// onto `low + (high - low) * r` and truncates, so the value lies in `[low, high]`.
#[verifier::external_body]
pub(crate) fn gen_range_i32(rng: &RandGenerator, low: i32, high: i32) -> (r: i32)
    requires
        low <= high,
    ensures
        low <= r <= high,
{
    rng.gen_range(low, high)
}

} // verus!
