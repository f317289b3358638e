use vstd::prelude::*;
use rand::Rng;
use rand::seq::SliceRandom;
use super::tile::Tile;

verus! {

/// A random integer in `[low, high)`, from rand's `Rng::gen_range` on the thread's generator.
/// The contract states only the range; which value comes is chance.
#[verifier::external_body]
pub(crate) fn random_in_range(low: i64, high: i64) -> (r: i64)
    requires
        low < high,
    ensures
        low <= r < high,
{
    rand::thread_rng().gen_range(low, high)
}

/// Shuffles tiles in place with rand's `SliceRandom::shuffle` on the thread's generator.
/// The contract states that the tiles are the same, in some order; which order is chance.
#[verifier::external_body]
pub(crate) fn shuffle_tiles(v: &mut Vec<Tile>)
    ensures
        final(v)@.to_multiset() == old(v)@.to_multiset(),
{
    v.shuffle(&mut rand::thread_rng());
}

} // verus!
