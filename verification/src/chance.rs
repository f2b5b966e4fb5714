//! The one place where chance enters the game.

use vstd::prelude::*;
use rand::seq::SliceRandom;

verus! {

/// Picks one of the candidates at random: `rand`'s `SliceRandom::choose` on
/// the generator that `rand::thread_rng` hands out.
///
/// Trusted, not proved: `choose` returns nothing exactly when there is no
/// candidate, and otherwise one of the candidates. Which one is left to
/// chance, and nothing is claimed of it. The generator is seeded by the
/// operating system when a thread first asks for it, and `thread_rng` panics
/// if the system cannot provide the seed.
#[verifier::external_body]
pub(crate) fn pick_one(candidates: &Vec<usize>) -> (picked: Option<usize>)
    ensures
        picked is None <==> candidates@.len() == 0,
        picked matches Some(one) ==> candidates@.contains(one),
{
    candidates.choose(&mut rand::thread_rng()).copied()
}

} // verus!
