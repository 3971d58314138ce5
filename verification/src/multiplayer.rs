use vstd::prelude::*;

verus! {

/// Rounds won by each side of a duel.
#[derive(Debug, Clone, Copy, PartialEq, Eq, Structural)]
pub struct DuelScoreboard {
    pub player_one_rounds: u8,
    pub player_two_rounds: u8,
}

/// Length of a duel round, in microseconds.
pub const ROUND_MICROS: u64 = 90_000_000;

/// State of a duel match. The remaining round time is in microseconds.
#[derive(Debug, Clone, Copy, PartialEq, Eq, Structural)]
pub struct MatchState {
    pub round_time_remaining_micros: u64,
    pub rounds_to_win: u8,
    pub duel_scoreboard: DuelScoreboard,
}

impl Default for DuelScoreboard {
    fn default() -> (board: Self)
        ensures
            board == (DuelScoreboard { player_one_rounds: 0, player_two_rounds: 0 }),
    {
        DuelScoreboard { player_one_rounds: 0, player_two_rounds: 0 }
    }
}

impl Default for MatchState {
    fn default() -> (state: Self)
        ensures
            state == (MatchState {
                round_time_remaining_micros: ROUND_MICROS,
                rounds_to_win: 2,
                duel_scoreboard: DuelScoreboard { player_one_rounds: 0, player_two_rounds: 0 },
            }),
    {
        MatchState {
            round_time_remaining_micros: ROUND_MICROS,
            rounds_to_win: 2,
            duel_scoreboard: DuelScoreboard::default(),
        }
    }
}

} // verus!
