use vstd::prelude::*;

verus! {

/// Flag consulted by pause predicates. The engine only reads it; game logic
/// is the only writer.
#[derive(Clone, Copy, Debug, PartialEq, Eq, Structural)]
pub enum GameState {
    Running,
    Paused,
}

impl GameState {
    /// Whether the game is paused.
    pub fn is_paused(&self) -> (r: bool)
        ensures
            r == (*self == GameState::Paused),
    {
        match self {
            GameState::Paused => true,
            GameState::Running => false,
        }
    }
}

} // verus!
