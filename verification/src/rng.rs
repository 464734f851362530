//! Random choices, drawn from `rand`'s thread-local generator or from the
//! game's `bevy_turborand` global generator.
//!
//! Each draw depends on chance, so its contract states only what holds of
//! every outcome; the verified code that uses it is proved for every value.

use vstd::prelude::*;

use rand::seq::SliceRandom;
use rand::Rng;
use rand::RngCore;

use bevy_turborand::prelude::{DelegatedRng, GlobalRng};

verus! {

/// `RngCore::next_u32` on `rand::thread_rng()`: any `u32`.
#[verifier::external_body]
pub(crate) fn random_u32() -> (r: u32) {
    rand::thread_rng().next_u32()
}

/// `Rng::gen_ratio(1, d)` on `rand::thread_rng()`: true with a chance of one in
/// `d`. Its documentation guarantees `true` when the numerator equals the
/// denominator, that is when `d` is 1, and a panic when `d` is 0.
#[verifier::external_body]
pub(crate) fn one_in(d: u32) -> (r: bool)
    requires
        d >= 1,
    ensures
        d == 1 ==> r,
{
    rand::thread_rng().gen_ratio(1, d)
}

/// `Rng::gen_range(min..=max)` on `rand::thread_rng()`: a value in the
/// inclusive range, which must not be empty.
#[verifier::external_body]
pub(crate) fn in_range(min: usize, max: usize) -> (r: usize)
    requires
        min <= max,
    ensures
        min <= r <= max,
{
    rand::thread_rng().gen_range(min..=max)
}

/// `SliceRandom::shuffle` with `rand::thread_rng()`: the same entries in a
/// random order (the slice is permuted by swaps).
#[verifier::external_body]
pub(crate) fn shuffle_spawns(spawns: &mut Vec<(String, usize)>)
    ensures
        final(spawns)@.to_multiset() == old(spawns)@.to_multiset(),
{
    spawns.shuffle(&mut rand::thread_rng());
}

/// The game's global random generator, a `bevy_turborand` resource.
#[verifier::external_type_specification]
#[verifier::external_body]
pub struct ExGlobalRng(GlobalRng);

/// `DelegatedRng::usize` over `min..=max` on the global generator: a value
/// in that range. The generator panics on an empty range, which the
/// `requires` rules out.
#[verifier::external_body]
pub(crate) fn rng_usize_in(rng: &mut GlobalRng, min: usize, max: usize) -> (r: usize)
    requires
        min <= max,
    ensures
        min <= r <= max,
{
    rng.usize(min..=max)
}

/// `DelegatedRng::sample` on the global generator: one of the entries of
/// `list`, or `None` when it is empty.
#[verifier::external_body]
pub(crate) fn rng_pick(rng: &mut GlobalRng, list: &Vec<u32>) -> (r: Option<u32>)
    ensures
        r is None <==> list@.len() == 0,
        r matches Some(x) ==> list@.contains(x),
{
    rng.sample(list).copied()
}

} // verus!
