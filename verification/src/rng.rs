//! Trusted boundary around the `rand` crate: the pool's single random source.
//!
//! Every probabilistic decision of the library (trajectory direction,
//! coefficient choice, subdivision coin flip, win/lose check) is routed
//! through the one generator owned by its pool, drawn via `rng_in_range`.

use vstd::prelude::*;

verus! {

#[verifier::external_type_specification]
#[verifier::external_body]
pub struct ExStdRng(rand::rngs::StdRng);

/// Relies on rand::SeedableRng::from_entropy: a fresh generator seeded from
/// the operating system. Nothing is promised of its stream.
#[verifier::external_body]
pub(crate) fn rng_from_entropy() -> rand::rngs::StdRng {
    <rand::rngs::StdRng as rand::SeedableRng>::from_entropy()
}

/// Relies on rand::Rng::gen_range over an inclusive range: it returns a value
/// inside the range and panics only when the range is empty, which the
/// precondition rules out. The value drawn is otherwise unconstrained.
#[verifier::external_body]
pub(crate) fn rng_in_range(rng: &mut rand::rngs::StdRng, lo: u64, hi: u64) -> (r: u64)
    requires
        lo <= hi,
    ensures
        lo <= r <= hi,
{
    rand::Rng::gen_range(rng, lo..=hi)
}

} // verus!
