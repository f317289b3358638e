use vstd::prelude::*;

verus! {

/// Length of the game
#[derive(Debug, Clone, Copy, PartialEq, Eq, Structural)]
pub enum GameLength {
    /// 1 round
    Tonpuusen,
    /// 2 rounds
    Hanchan,
}

/// All rules will go here
#[derive(Debug, Clone, Copy, PartialEq, Eq, Structural)]
pub struct Rules {
    /// How long is the game?
    pub game_length: GameLength,
    /// Do we use red 5s?
    pub aka_ari: bool,
    /// Do we allow open tanyao?
    pub kuitan_ari: bool,
}

} // verus!
