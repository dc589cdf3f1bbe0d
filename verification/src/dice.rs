//! The random source of the simulation.
//!
//! Every random decision of the library is drawn from a `StdRng` that the
//! caller hands in, so a seeded generator replays a whole run.  Nothing is
//! assumed of a draw beyond its range: the functions that act on a draw are
//! verified for every value it can take.

use rand::rngs::StdRng;
use rand::seq::SliceRandom;
use rand::Rng;
use vstd::prelude::*;

verus! {

#[verifier::external_type_specification]
#[verifier::external_body]
pub struct ExStdRng(StdRng);

/// Calls `rand::Rng::gen_range` on the half-open range `0..bound`.
///
/// Trusted: the draw lies in the range.  `gen_range` panics on an empty
/// range, which `bound > 0` rules out.
#[verifier::external_body]
pub(crate) fn random_index(rng: &mut StdRng, bound: usize) -> (r: usize)
    requires
        bound > 0,
    ensures
        r < bound,
{
    rng.gen_range(0..bound)
}

/// A uniform draw from `0..bound`.
pub fn random_below(rng: &mut StdRng, bound: u32) -> (r: u32)
    requires
        bound > 0,
    ensures
        r < bound,
{
    let drawn: usize = random_index(rng, bound as usize);
    drawn as u32
}

/// Calls `rand::seq::SliceRandom::shuffle` on the vector's slice.
///
/// Trusted: the shuffle only swaps elements, so the vector afterwards holds
/// the same items, each as often as before.
#[verifier::external_body]
pub(crate) fn shuffle<T>(rng: &mut StdRng, items: &mut Vec<T>)
    ensures
        final(items)@.to_multiset() == old(items)@.to_multiset(),
{
    items.shuffle(rng);
}

/// Whether a draw in a thousand falls under `per_mille`.
pub open spec fn hits(roll: int, per_mille: int) -> bool {
    roll < per_mille
}

/// One Bernoulli trial: true with probability `per_mille / 1000`.  One
/// draw in a thousand is made, and the trial is a hit where it falls under
/// `per_mille`: never with none in a thousand, always with a thousand.
pub fn chance(rng: &mut StdRng, per_mille: u32) -> (hit: bool)
    ensures
        exists|roll: int| 0 <= roll < 1000 && hit == #[trigger] hits(roll, per_mille as int),
        per_mille == 0 ==> !hit,
        per_mille >= 1000 ==> hit,
{
    let roll: u32 = random_below(rng, 1000);
    proof {
        assert(0 <= roll < 1000 && (roll < per_mille) == hits(roll as int, per_mille as int));
    }
    roll < per_mille
}

} // verus!
