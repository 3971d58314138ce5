use vstd::prelude::*;

verus! {

/// What a player asked the combat core to do.
#[derive(Debug, Clone, Copy, PartialEq, Eq, Structural)]
pub enum PlayerAction {
    NoAction,
    AttackLeft,
    AttackRight,
    ForcePush,
    GuardStart,
    GuardEnd,
}

/// Where a command came from.
#[derive(Debug, Clone, Copy, PartialEq, Eq, Structural)]
pub enum ActionSource {
    Keyboard,
    Camera,
    Network,
}

/// One gameplay command, as produced by the keyboard, the camera bridge or the network.
///
/// Confidence is kept in millionths (1_000_000 is full confidence) and the timestamp
/// in microseconds, so that the whole command is made of integers.
#[derive(Debug, Clone, Copy, PartialEq, Eq, Structural)]
pub struct ActionCommand {
    pub player_id: u8,
    pub action: PlayerAction,
    pub confidence_millionths: i64,
    pub timestamp_micros: i64,
    pub source: ActionSource,
}

impl PlayerAction {
    /// A left or right saber swing.
    pub open spec fn is_attack(self) -> bool {
        self is AttackLeft || self is AttackRight
    }
}

impl ActionCommand {
    pub fn new(
        player_id: u8,
        action: PlayerAction,
        confidence_millionths: i64,
        timestamp_micros: i64,
        source: ActionSource,
    ) -> (command: Self)
        ensures
            command == (ActionCommand {
                player_id,
                action,
                confidence_millionths,
                timestamp_micros,
                source,
            }),
    {
        ActionCommand { player_id, action, confidence_millionths, timestamp_micros, source }
    }
}

} // verus!
