use vstd::prelude::*;

use crate::command::PlayerAction;

verus! {

/// The three kinds of drone.
#[derive(Debug, Clone, Copy, PartialEq, Eq, Structural)]
pub enum DroneArchetype {
    Basic,
    Shield,
    Heavy,
}

/// How far a drone has come, in billionths of the way to the player: a drone
/// whose progress reaches this value breaches the defence.
pub const PROGRESS_FULL: u64 = 1_000_000_000;

/// Progress a drone makes per microsecond (0.15 of the way per second).
pub const PROGRESS_PER_MICRO: u64 = 150;

/// A drone must have come further than this for a force push to reach it.
pub const FORCE_PUSH_REACH: u64 = 150_000_000;

/// How long a force push staggers a drone, in microseconds.
pub const STAGGER_MICROS: u64 = 750_000;

/// How long a combo stays alive after a success, in microseconds.
pub const COMBO_EXPIRY_MICROS: u64 = 2_250_000;

/// One incoming drone. Times are in microseconds, progress in billionths.
#[derive(Debug, Clone, Copy, PartialEq, Eq, Structural)]
pub struct DroneState {
    pub id: u32,
    pub archetype: DroneArchetype,
    pub health: i32,
    pub lane: i8,
    pub progress: u64,
    pub shielded: bool,
    pub staggered_micros: u64,
}

/// One player. Times are in microseconds.
#[derive(Debug, Clone, Copy, PartialEq, Eq, Structural)]
pub struct PlayerState {
    pub id: u8,
    pub health: i32,
    pub guarding: bool,
    pub score: i32,
    pub combo: u32,
    pub combo_expiry_micros: u64,
    pub attack_cooldown_micros: u64,
    pub force_cooldown_micros: u64,
}

/// Tuning of the combat rules. Times are in microseconds.
#[derive(Debug, Clone, Copy, PartialEq, Eq, Structural)]
pub struct CombatConfig {
    pub attack_cooldown_micros: u64,
    pub force_cooldown_micros: u64,
    pub combo_window_micros: u64,
    pub player_max_health: i32,
}

impl Default for CombatConfig {
    fn default() -> (config: Self)
        ensures
            config == (CombatConfig {
                attack_cooldown_micros: 350_000,
                force_cooldown_micros: 1_500_000,
                combo_window_micros: 2_250_000,
                player_max_health: 100,
            }),
    {
        CombatConfig {
            attack_cooldown_micros: 350_000,
            force_cooldown_micros: 1_500_000,
            combo_window_micros: 2_250_000,
            player_max_health: 100,
        }
    }
}

/// What happened while a command was applied.
#[derive(Debug, Clone, Copy, PartialEq, Eq, Structural)]
pub enum CombatEvent {
    PlayerActionAccepted { player_id: u8, action: PlayerAction },
    PlayerActionRejected { player_id: u8, action: PlayerAction },
    DroneDestroyed { drone_id: u32, player_id: u8 },
    PlayerDamaged { player_id: u8, damage: i32 },
    ComboAdvanced { player_id: u8, combo: u32 },
    FitnessActionCounted { player_id: u8, action: PlayerAction },
}

} // verus!
