//! The random number generator of a model, and the draws taken from it.
//!
//! The generator is `rand::rngs::StdRng`. Nothing is proved about it: the
//! functions here call into `rand` and `rand_seeder`, and their contracts
//! state what those crates document about the values that come back.

use rand::distributions::{Bernoulli, Distribution};
use rand::rngs::{OsRng, StdRng};
use rand::{Rng, SeedableRng};
use rand_seeder::Seeder;
use vstd::prelude::*;

verus! {

/// Makes `rand::rngs::StdRng` known as a type whose values are carried
/// around and never looked into.
#[verifier::external_type_specification]
#[verifier::external_body]
pub struct ExStdRng(StdRng);

/// Makes `rand::distributions::Bernoulli` known as a type whose values are
/// carried around and never looked into.
#[verifier::external_type_specification]
#[verifier::external_body]
pub struct ExBernoulli(Bernoulli);

/// Makes `rand::Error` known as a type whose values are carried around and
/// never looked into.
#[verifier::external_type_specification]
#[verifier::external_body]
pub struct ExRandError(rand::Error);

/// Calls `rand_seeder::Seeder::from(seed).make_rng()`: a generator whose
/// stream is fixed by the seed text. Nothing is claimed about the generator.
#[verifier::external_body]
pub(crate) fn seeded_rng(seed: &str) -> (rng: StdRng) {
    Seeder::from(seed).make_rng()
}

/// Calls `rand::SeedableRng::from_rng` for `StdRng` on `rand::rngs::OsRng`: a
/// generator seeded by the operating system, or the error of `rand` when the
/// system gives no entropy. Nothing is claimed about which of the two comes
/// back, nor about the generator.
#[verifier::external_body]
pub(crate) fn entropy_rng() -> (r: Result<StdRng, rand::Error>) {
    StdRng::from_rng(OsRng)
}

/// Calls `rand::Rng::gen_range(0..bound)`. `rand` documents the result as a
/// value of the half-open range; that is all that is claimed. For an empty
/// range `rand` panics, so the bound must be positive.
#[verifier::external_body]
pub(crate) fn draw_below(rng: &mut StdRng, bound: isize) -> (r: isize)
    requires
        bound > 0,
    ensures
        0 <= r < bound,
{
    rng.gen_range(0..bound)
}

/// Calls `rand::distributions::Distribution::sample` of a `Bernoulli`
/// distribution: one draw that is `true` with the distribution's
/// probability. Nothing is claimed about the outcome.
#[verifier::external_body]
pub(crate) fn draw_bool(rng: &mut StdRng, chance: &Bernoulli) -> (r: bool) {
    chance.sample(rng)
}

} // verus!
