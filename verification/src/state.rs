//! The state of a game: the seed from which the whole world is derived.

use vstd::prelude::*;
use rand::Rng;

verus! {

/// The seed of a world, fixed when the world starts.
pub struct GameState {
    pub seed: u64,
}

/// `rand::thread_rng` and `Rng::gen`: a number drawn from the generator of
/// the calling thread. Nothing is known of it.
#[verifier::external_body]
fn random_seed() -> u64 {
    let mut rng = rand::thread_rng();
    rng.gen()
}

impl GameState {
    /// The state of the world that grows from `seed`.
    pub fn with_seed(seed: u64) -> (state: GameState)
        ensures
            state.seed == seed,
    {
        GameState { seed }
    }
}

impl Default for GameState {
    /// The state of a world with a seed drawn at random.
    fn default() -> GameState {
        GameState { seed: random_seed() }
    }
}

} // verus!
