use vstd::prelude::*;
use crate::engine::application_builder::ScionBuilder;
use crate::engine::state::GameState;
use crate::engine::world::GameData;

verus! {

/// A bundle of systems and resources that a game adds in one step. What a
/// package does is its own business: the builder hands it the store, then
/// itself, and goes on with what comes back.
pub trait Package<F: Fn(GameData) -> GameData, P: Fn(&GameState) -> bool>: Sized {
    /// Prepares the store before the package registers anything.
    fn prepare(&self, data: &mut GameData);

    /// Registers what the package brings.
    fn load(self, builder: ScionBuilder<F, P>) -> ScionBuilder<F, P>;
}

} // verus!
