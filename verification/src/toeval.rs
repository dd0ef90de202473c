//! Randomness for the deck shuffle, through rand's standard generator.
//!
//! Each game owns its own generator, so two games' shuffles never interfere,
//! and a game seeded from a fixed number shuffles reproducibly.

use vstd::prelude::*;
use rand::SeedableRng;
use rand::seq::SliceRandom;
use crate::kaart::Kaart;

verus! {

#[verifier::external_type_specification]
#[verifier::external_body]
pub struct ExStdRng(rand::rngs::StdRng);

/// Relies on rand's `StdRng::seed_from_u64`: a generator whose stream is a
/// function of the seed alone, for reproducible play.
#[verifier::external_body]
pub fn rng_uit_zaad(zaad: u64) -> rand::rngs::StdRng {
    rand::rngs::StdRng::seed_from_u64(zaad)
}

/// Relies on rand's `StdRng::from_entropy`: a generator seeded by the
/// operating system.
#[verifier::external_body]
pub fn rng_uit_entropie() -> rand::rngs::StdRng {
    rand::rngs::StdRng::from_entropy()
}

/// Relies on rand's `SliceRandom::shuffle` (Fisher-Yates): reorders the
/// cards in place, so every outcome holds exactly the cards that went in.
#[verifier::external_body]
pub fn schud_kaarten(deck: &mut Vec<Kaart>, rng: &mut rand::rngs::StdRng)
    ensures
        final(deck)@.to_multiset() == old(deck)@.to_multiset(),
        final(deck)@.len() == old(deck)@.len(),
{
    deck.shuffle(rng);
}

} // verus!
