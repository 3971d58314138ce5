use vstd::prelude::*;

verus! {

/// The three rulesets that share one combat core, plus the cooperative variant.
#[derive(Debug, Clone, Copy, PartialEq, Eq, Structural)]
pub enum GameMode {
    SoloCombat,
    FitnessMode,
    MultiplayerDuel,
    MultiplayerCoop,
}

impl GameMode {
    /// Whether drones keep arriving in waves under this mode.
    pub open spec fn spawns_waves(self) -> bool {
        !(self is MultiplayerDuel)
    }
}

} // verus!
