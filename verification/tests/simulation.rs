use lightsaber::combat::{CombatConfig, CombatEvent, DroneArchetype, DroneState, PlayerState};
use lightsaber::command::{ActionCommand, ActionSource, PlayerAction};
use lightsaber::fitness::{FitnessMetrics, FitnessPhase};
use lightsaber::game_mode::GameMode;
use lightsaber::multiplayer::{DuelScoreboard, MatchState};
use lightsaber::rules::StepReport;
use lightsaber::simulation::{report_step, GameState, SimulationConfig, SimulationTickResult};

fn command(player_id: u8, action: PlayerAction) -> ActionCommand {
    ActionCommand::new(player_id, action, 1_000_000, 0, ActionSource::Keyboard)
}

fn drone(id: u32, archetype: DroneArchetype, health: i32, lane: i8, progress: u64) -> DroneState {
    DroneState {
        id,
        archetype,
        health,
        lane,
        progress,
        shielded: archetype == DroneArchetype::Shield,
        staggered_micros: 0,
    }
}

fn solo_with(drones: Vec<DroneState>) -> GameState {
    let mut g = GameState::new(GameMode::SoloCombat, &SimulationConfig::default(), 1);
    g.drones = drones;
    g
}

#[test]
fn default_configs_hold_the_tuning() {
    let config = SimulationConfig::default();
    assert_eq!(config.starting_drones, 3);
    assert_eq!(config.combat.attack_cooldown_micros, 350_000);
    assert_eq!(config.combat.force_cooldown_micros, 1_500_000);
    assert_eq!(config.combat.combo_window_micros, 2_250_000);
    assert_eq!(config.combat.player_max_health, 100);
    assert_eq!(CombatConfig::default(), config.combat);
    let m = MatchState::default();
    assert_eq!(m.round_time_remaining_micros, 90_000_000);
    assert_eq!(m.rounds_to_win, 2);
    assert_eq!(m.duel_scoreboard, DuelScoreboard { player_one_rounds: 0, player_two_rounds: 0 });
    let f = FitnessMetrics::default();
    assert_eq!(f.phase, FitnessPhase::WarmUp);
    assert_eq!(f.effort_tenths, 0);
    assert!(SimulationTickResult::default().events.is_empty());
}

#[test]
fn new_solo_game_opens_with_three_drones() {
    let g = GameState::new(GameMode::SoloCombat, &SimulationConfig::default(), 1);
    assert_eq!(g.players.len(), 1);
    assert_eq!(g.players[0].id, 0);
    assert_eq!(g.players[0].health, 100);
    assert_eq!(g.players[0].score, 0);
    assert!(!g.players[0].guarding);
    assert_eq!(g.wave_index, 1);
    assert_eq!(g.elapsed_micros, 0);
    assert!(g.fitness.is_none());
    assert!(g.match_state.is_none());
    let ids: Vec<u32> = g.drones.iter().map(|d| d.id).collect();
    assert_eq!(ids, vec![0, 1, 2]);
    assert_eq!(g.drones[0], drone(0, DroneArchetype::Basic, 1, -1, 0));
    assert_eq!(g.drones[1], drone(1, DroneArchetype::Shield, 2, 0, 0));
    assert_eq!(g.drones[2], drone(2, DroneArchetype::Heavy, 3, 1, 0));
}

#[test]
fn new_game_modes_carry_their_state() {
    let config = SimulationConfig::default();
    let fitness = GameState::new(GameMode::FitnessMode, &config, 1);
    assert_eq!(fitness.fitness, Some(FitnessMetrics::default()));
    assert!(fitness.match_state.is_none());
    let duel = GameState::new(GameMode::MultiplayerDuel, &config, 2);
    assert_eq!(duel.match_state, Some(MatchState::default()));
    assert!(duel.fitness.is_none());
    assert_eq!(duel.players[1].id, 1);
    let coop = GameState::new(GameMode::MultiplayerCoop, &config, 2);
    assert!(coop.fitness.is_none() && coop.match_state.is_none());
}

#[test]
fn new_game_player_ids_wrap_like_a_u8() {
    let mut config = SimulationConfig::default();
    config.starting_drones = 0;
    config.combat.player_max_health = 40;
    let g = GameState::new(GameMode::SoloCombat, &config, 258);
    assert_eq!(g.players[255].id, 255);
    assert_eq!(g.players[256].id, 0);
    assert_eq!(g.players[257].id, 1);
    assert_eq!(g.players[257].health, 40);
    assert!(g.drones.is_empty());
}

#[test]
fn left_swing_destroys_the_first_basic_drone() {
    let config = SimulationConfig::default();
    let mut g = GameState::new(GameMode::SoloCombat, &config, 1);
    assert!(g.fits_command(&config, command(0, PlayerAction::AttackLeft)));
    let result = g.apply_command(&config, command(0, PlayerAction::AttackLeft));
    assert_eq!(
        result.events,
        vec![
            CombatEvent::PlayerActionAccepted { player_id: 0, action: PlayerAction::AttackLeft },
            CombatEvent::ComboAdvanced { player_id: 0, combo: 1 },
            CombatEvent::DroneDestroyed { drone_id: 0, player_id: 0 },
        ]
    );
    assert_eq!(g.players[0].score, 10);
    assert_eq!(g.players[0].combo, 1);
    assert_eq!(g.players[0].combo_expiry_micros, 2_250_000);
    assert_eq!(g.players[0].attack_cooldown_micros, 350_000);
    assert_eq!(g.drones.len(), 2);
    assert_eq!(g.drones[0], drone(1, DroneArchetype::Shield, 2, 0, 0));
    assert_eq!(g.drones[1], drone(2, DroneArchetype::Heavy, 3, 1, 0));
}

#[test]
fn swing_on_cooldown_is_rejected_and_changes_nothing() {
    let config = SimulationConfig::default();
    let mut g = GameState::new(GameMode::SoloCombat, &config, 1);
    g.apply_command(&config, command(0, PlayerAction::AttackRight));
    let before = g.clone();
    let result = g.apply_command(&config, command(0, PlayerAction::AttackRight));
    assert_eq!(
        result.events,
        vec![CombatEvent::PlayerActionRejected { player_id: 0, action: PlayerAction::AttackRight }]
    );
    assert_eq!(g.players, before.players);
    assert_eq!(g.drones, before.drones);
}

#[test]
fn cooldown_runs_out_with_time() {
    let config = SimulationConfig::default();
    let mut g = GameState::new(GameMode::SoloCombat, &config, 1);
    g.apply_command(&config, command(0, PlayerAction::AttackLeft));
    g.update(349_999);
    assert_eq!(g.players[0].attack_cooldown_micros, 1);
    g.update(1);
    assert_eq!(g.players[0].attack_cooldown_micros, 0);
    let result = g.apply_command(&config, command(0, PlayerAction::AttackLeft));
    assert_eq!(
        result.events[0],
        CombatEvent::PlayerActionAccepted { player_id: 0, action: PlayerAction::AttackLeft }
    );
}

#[test]
fn second_kill_scores_the_combo_bonus() {
    let config = SimulationConfig::default();
    let mut g = solo_with(vec![
        drone(7, DroneArchetype::Heavy, 1, 1, 0),
        drone(8, DroneArchetype::Heavy, 1, 1, 0),
    ]);
    g.apply_command(&config, command(0, PlayerAction::AttackRight));
    g.update(400_000);
    let result = g.apply_command(&config, command(0, PlayerAction::AttackRight));
    assert_eq!(g.players[0].combo, 2);
    assert_eq!(g.players[0].score, 10 + 12);
    assert_eq!(
        result.events,
        vec![
            CombatEvent::PlayerActionAccepted { player_id: 0, action: PlayerAction::AttackRight },
            CombatEvent::ComboAdvanced { player_id: 0, combo: 2 },
            CombatEvent::DroneDestroyed { drone_id: 8, player_id: 0 },
        ]
    );
}

#[test]
fn shield_drone_turns_a_left_swing_aside() {
    let config = SimulationConfig::default();
    let mut g = solo_with(vec![drone(4, DroneArchetype::Shield, 1, -1, 0)]);
    g.players[0].combo = 3;
    g.players[0].combo_expiry_micros = 1_000;
    let result = g.apply_command(&config, command(0, PlayerAction::AttackLeft));
    assert_eq!(
        result.events,
        vec![
            CombatEvent::PlayerActionAccepted { player_id: 0, action: PlayerAction::AttackLeft },
            CombatEvent::PlayerActionRejected { player_id: 0, action: PlayerAction::AttackLeft },
        ]
    );
    assert_eq!(g.drones[0], drone(4, DroneArchetype::Shield, 1, -1, 0));
    assert_eq!(g.players[0].combo, 0);
    assert_eq!(g.players[0].combo_expiry_micros, 0);
}

#[test]
fn wounding_swing_strips_the_shield_and_counts_as_a_miss() {
    let config = SimulationConfig::default();
    let mut g = solo_with(vec![
        drone(4, DroneArchetype::Shield, 2, 1, 0),
        drone(5, DroneArchetype::Heavy, 3, 0, 0),
    ]);
    let result = g.apply_command(&config, command(0, PlayerAction::AttackRight));
    assert_eq!(result.events.len(), 2);
    assert_eq!(g.drones[0].health, 1);
    assert!(!g.drones[0].shielded);
    assert_eq!(g.drones[1], drone(5, DroneArchetype::Heavy, 3, 0, 0));
    assert_eq!(g.players[0].score, 0);
}

#[test]
fn swing_wounds_every_reached_drone_before_the_kill() {
    let config = SimulationConfig::default();
    let mut g = solo_with(vec![
        drone(1, DroneArchetype::Heavy, 3, 1, 0),
        drone(2, DroneArchetype::Heavy, 1, 1, 0),
        drone(3, DroneArchetype::Heavy, 3, 1, 0),
    ]);
    g.apply_command(&config, command(0, PlayerAction::AttackRight));
    assert_eq!(g.drones.len(), 2);
    assert_eq!(g.drones[0].id, 1);
    assert_eq!(g.drones[0].health, 2);
    assert_eq!(g.drones[1].id, 3);
    assert_eq!(g.drones[1].health, 3);
}

#[test]
fn force_push_out_of_reach_misses() {
    let config = SimulationConfig::default();
    let mut g = GameState::new(GameMode::SoloCombat, &config, 1);
    let result = g.apply_command(&config, command(0, PlayerAction::ForcePush));
    assert_eq!(
        result.events,
        vec![
            CombatEvent::PlayerActionAccepted { player_id: 0, action: PlayerAction::ForcePush },
            CombatEvent::PlayerActionRejected { player_id: 0, action: PlayerAction::ForcePush },
        ]
    );
    assert_eq!(g.players[0].force_cooldown_micros, 1_500_000);
    assert_eq!(g.drones.len(), 3);
}

#[test]
fn force_push_hits_every_drone_in_reach() {
    let config = SimulationConfig::default();
    let mut g = solo_with(vec![
        drone(1, DroneArchetype::Basic, 2, -1, 150_000_001),
        drone(2, DroneArchetype::Heavy, 3, 0, 400_000_000),
        drone(3, DroneArchetype::Shield, 2, 1, 500_000_000),
        drone(4, DroneArchetype::Basic, 1, 0, 150_000_000),
    ]);
    let result = g.apply_command(&config, command(0, PlayerAction::ForcePush));
    assert_eq!(
        result.events,
        vec![
            CombatEvent::PlayerActionAccepted { player_id: 0, action: PlayerAction::ForcePush },
            CombatEvent::ComboAdvanced { player_id: 0, combo: 1 },
            CombatEvent::DroneDestroyed { drone_id: 1, player_id: 0 },
            CombatEvent::DroneDestroyed { drone_id: 3, player_id: 0 },
        ]
    );
    assert_eq!(g.players[0].score, 14);
    assert_eq!(g.drones.len(), 2);
    assert_eq!(g.drones[0].id, 2);
    assert_eq!(g.drones[0].health, 2);
    assert_eq!(g.drones[0].staggered_micros, 750_000);
    assert_eq!(g.drones[1], drone(4, DroneArchetype::Basic, 1, 0, 150_000_000));
}

#[test]
fn fitness_counts_each_success() {
    let config = SimulationConfig::default();
    let mut g = GameState::new(GameMode::FitnessMode, &config, 1);
    let result = g.apply_command(&config, command(0, PlayerAction::AttackLeft));
    assert_eq!(
        result.events,
        vec![
            CombatEvent::PlayerActionAccepted { player_id: 0, action: PlayerAction::AttackLeft },
            CombatEvent::ComboAdvanced { player_id: 0, combo: 1 },
            CombatEvent::FitnessActionCounted { player_id: 0, action: PlayerAction::AttackLeft },
            CombatEvent::DroneDestroyed { drone_id: 0, player_id: 0 },
        ]
    );
    let f = g.fitness.unwrap();
    assert_eq!(f.swings_performed, 1);
    assert_eq!(f.force_pushes_performed, 0);
    assert_eq!(f.successful_actions, 1);
    assert_eq!(f.best_combo, 1);
    assert_eq!(f.effort_tenths, 10);
    g.drones = vec![drone(9, DroneArchetype::Basic, 1, 0, 300_000_000)];
    g.apply_command(&config, command(0, PlayerAction::ForcePush));
    let f = g.fitness.unwrap();
    assert_eq!(f.force_pushes_performed, 1);
    assert_eq!(f.successful_actions, 2);
    assert_eq!(f.best_combo, 2);
    assert_eq!(f.effort_tenths, 32);
}

#[test]
fn fitness_phase_follows_active_time() {
    let config = SimulationConfig::default();
    let mut g = GameState::new(GameMode::FitnessMode, &config, 1);
    g.update(44_999_999);
    assert_eq!(g.fitness.unwrap().phase, FitnessPhase::WarmUp);
    g.update(1);
    assert_eq!(g.fitness.unwrap().phase, FitnessPhase::Peak);
    assert_eq!(g.fitness.unwrap().active_time_micros, 45_000_000);
    g.update(105_000_000);
    assert_eq!(g.fitness.unwrap().phase, FitnessPhase::Recovery);
}

#[test]
fn drones_advance_and_breach_into_the_first_player() {
    let mut g = solo_with(vec![
        drone(1, DroneArchetype::Basic, 1, 0, 999_999_999),
        drone(2, DroneArchetype::Heavy, 3, 0, 999_999_850),
        drone(3, DroneArchetype::Shield, 2, 0, 0),
    ]);
    g.drones[2].staggered_micros = 5;
    g.update(1);
    assert_eq!(g.players[0].health, 100 - 6 - 16);
    assert_eq!(g.drones.len(), 1);
    assert_eq!(g.drones[0].id, 3);
    assert_eq!(g.drones[0].progress, 150);
    assert_eq!(g.drones[0].staggered_micros, 4);
    assert_eq!(g.elapsed_micros, 1);
}

#[test]
fn guarding_halves_breach_damage_but_not_below_one() {
    let mut g = solo_with(vec![
        drone(1, DroneArchetype::Shield, 2, 0, PROGRESS_FULL_FOR_TESTS),
        drone(2, DroneArchetype::Basic, 2, 0, 0),
    ]);
    g.players[0].guarding = true;
    g.update(0);
    assert_eq!(g.players[0].health, 95);
    g.players[0].health = 1;
    g.drones = vec![drone(5, DroneArchetype::Basic, 1, 0, PROGRESS_FULL_FOR_TESTS), drone(6, DroneArchetype::Basic, 1, 0, 0)];
    g.players[0].guarding = false;
    g.update(0);
    assert_eq!(g.players[0].health, 0);
}

const PROGRESS_FULL_FOR_TESTS: u64 = 1_000_000_000;

#[test]
fn cleared_field_brings_the_next_wave() {
    let mut g = solo_with(vec![drone(1, DroneArchetype::Basic, 1, 0, PROGRESS_FULL_FOR_TESTS)]);
    g.update(0);
    assert_eq!(g.wave_index, 2);
    let ids: Vec<u32> = g.drones.iter().map(|d| d.id).collect();
    assert_eq!(ids, vec![200, 201, 202, 203]);
    assert_eq!(g.drones[3], drone(203, DroneArchetype::Basic, 1, -1, 0));
    assert_eq!(g.players[0].health, 94);
}

#[test]
fn duel_field_stays_empty() {
    let config = SimulationConfig::default();
    let mut g = GameState::new(GameMode::MultiplayerDuel, &config, 2);
    for d in g.drones.iter_mut() {
        d.progress = PROGRESS_FULL_FOR_TESTS;
    }
    g.update(1_000_000);
    assert!(g.drones.is_empty());
    assert_eq!(g.wave_index, 1);
    assert_eq!(g.match_state.unwrap().round_time_remaining_micros, 89_000_000);
    assert_eq!(g.players[0].health, 100 - 6 - 10 - 16);
    g.update(1_000_000);
    assert!(g.drones.is_empty());
}

#[test]
fn duel_swing_hurts_the_opponent() {
    let config = SimulationConfig::default();
    let mut g = GameState::new(GameMode::MultiplayerDuel, &config, 2);
    let result = g.apply_command(&config, command(0, PlayerAction::AttackLeft));
    assert_eq!(
        result.events,
        vec![
            CombatEvent::PlayerActionAccepted { player_id: 0, action: PlayerAction::AttackLeft },
            CombatEvent::PlayerDamaged { player_id: 1, damage: 10 },
            CombatEvent::ComboAdvanced { player_id: 0, combo: 1 },
        ]
    );
    assert_eq!(g.players[1].health, 90);
    assert_eq!(g.players[0].score, 12);
    assert_eq!(g.drones.len(), 3);
    g.players[0].guarding = true;
    let result = g.apply_command(&config, command(1, PlayerAction::ForcePush));
    assert_eq!(result.events[1], CombatEvent::PlayerDamaged { player_id: 0, damage: 2 });
    assert_eq!(g.players[0].health, 98);
    assert!(!g.players[1].guarding);
    assert_eq!(g.players[1].score, 14);
}

#[test]
fn duel_knockout_ends_the_round() {
    let config = SimulationConfig::default();
    let mut g = GameState::new(GameMode::MultiplayerDuel, &config, 2);
    g.players[0].health = 7;
    g.players[0].combo = 4;
    g.players[0].combo_expiry_micros = 10;
    g.players[1].guarding = true;
    let mut m = g.match_state.unwrap();
    m.round_time_remaining_micros = 3;
    g.match_state = Some(m);
    let result = g.apply_command(&config, command(1, PlayerAction::AttackRight));
    assert_eq!(result.events[1], CombatEvent::PlayerDamaged { player_id: 0, damage: 10 });
    let m = g.match_state.unwrap();
    assert_eq!(m.duel_scoreboard, DuelScoreboard { player_one_rounds: 0, player_two_rounds: 1 });
    assert_eq!(m.round_time_remaining_micros, 90_000_000);
    for p in &g.players {
        assert_eq!(p.health, 100);
        assert_eq!(p.combo, 0);
        assert!(!p.guarding);
    }
    assert_eq!(g.players[1].score, 12);
}

#[test]
fn lone_duelist_loses_the_combo() {
    let config = SimulationConfig::default();
    let mut g = GameState::new(GameMode::MultiplayerDuel, &config, 1);
    g.players[0].combo = 5;
    let result = g.apply_command(&config, command(0, PlayerAction::AttackLeft));
    assert_eq!(
        result.events,
        vec![CombatEvent::PlayerActionAccepted { player_id: 0, action: PlayerAction::AttackLeft }]
    );
    assert_eq!(g.players[0].combo, 0);
    assert_eq!(g.players[0].attack_cooldown_micros, 350_000);
}

#[test]
fn unknown_player_and_no_action_change_nothing() {
    let config = SimulationConfig::default();
    let mut g = GameState::new(GameMode::SoloCombat, &config, 1);
    let result = g.apply_command(&config, command(9, PlayerAction::AttackLeft));
    assert!(result.events.is_empty());
    assert_eq!(g.drones.len(), 3);
    let result = g.apply_command(&config, command(0, PlayerAction::NoAction));
    assert!(result.events.is_empty());
    assert_eq!(g.players[0].attack_cooldown_micros, 0);
}

#[test]
fn guard_start_then_end_restores_the_player() {
    let config = SimulationConfig::default();
    let mut g = GameState::new(GameMode::SoloCombat, &config, 1);
    let before: Vec<PlayerState> = g.players.clone();
    let result = g.apply_command(&config, command(0, PlayerAction::GuardStart));
    assert!(g.players[0].guarding);
    assert_eq!(
        result.events,
        vec![CombatEvent::PlayerActionAccepted { player_id: 0, action: PlayerAction::GuardStart }]
    );
    let result = g.apply_command(&config, command(0, PlayerAction::GuardEnd));
    assert_eq!(
        result.events,
        vec![CombatEvent::PlayerActionAccepted { player_id: 0, action: PlayerAction::GuardEnd }]
    );
    assert_eq!(g.players, before);
}

#[test]
fn swing_drops_the_guard() {
    let config = SimulationConfig::default();
    let mut g = GameState::new(GameMode::SoloCombat, &config, 1);
    g.apply_command(&config, command(0, PlayerAction::GuardStart));
    g.apply_command(&config, command(0, PlayerAction::AttackLeft));
    assert!(!g.players[0].guarding);
}

#[test]
fn combo_window_closes_with_time() {
    let config = SimulationConfig::default();
    let mut g = GameState::new(GameMode::SoloCombat, &config, 1);
    g.apply_command(&config, command(0, PlayerAction::AttackLeft));
    g.update(2_249_999);
    assert_eq!(g.players[0].combo, 1);
    g.update(1);
    assert_eq!(g.players[0].combo, 0);
    assert_eq!(g.players[0].combo_expiry_micros, 0);
}

#[test]
fn elapsed_time_saturates() {
    let mut g = GameState::new(GameMode::SoloCombat, &SimulationConfig::default(), 1);
    g.elapsed_micros = u64::MAX - 1;
    g.update(5);
    assert_eq!(g.elapsed_micros, u64::MAX);
}

#[test]
fn obstacle_hit_costs_eight_health() {
    let mut g = GameState::new(GameMode::SoloCombat, &SimulationConfig::default(), 1);
    g.take_obstacle_hit();
    assert_eq!(g.players[0].health, 92);
    g.players[0].health = 5;
    g.take_obstacle_hit();
    assert_eq!(g.players[0].health, 0);
    let mut empty = GameState::new(GameMode::SoloCombat, &SimulationConfig::default(), 0);
    empty.take_obstacle_hit();
    assert!(empty.players.is_empty());
}

#[test]
fn command_fits_only_when_its_own_counters_overflow() {
    let config = SimulationConfig::default();
    let mut g = GameState::new(GameMode::FitnessMode, &config, 1);
    assert!(g.fits_command(&config, command(0, PlayerAction::AttackLeft)));
    g.players[0].score = i32::MAX;
    // Guards, unknown players and commands on cooldown change no counter.
    assert!(g.fits_command(&config, command(0, PlayerAction::GuardStart)));
    assert!(g.fits_command(&config, command(7, PlayerAction::AttackLeft)));
    g.players[0].attack_cooldown_micros = 5;
    assert!(g.fits_command(&config, command(0, PlayerAction::AttackLeft)));
    g.players[0].attack_cooldown_micros = 0;
    // A kill would score ten points past the top.
    assert!(!g.fits_command(&config, command(0, PlayerAction::AttackLeft)));
    // A swing that kills nothing scores nothing.
    g.drones = vec![drone(3, DroneArchetype::Heavy, 3, 1, 0)];
    assert!(g.fits_command(&config, command(0, PlayerAction::AttackRight)));
    // Exactly the ten points of a kill are asked for.
    g.players[0].score = i32::MAX - 10;
    g.drones = vec![drone(3, DroneArchetype::Heavy, 1, 1, 0)];
    assert!(g.fits_command(&config, command(0, PlayerAction::AttackRight)));
    g.players[0].score = 0;
    g.fitness.as_mut().unwrap().force_pushes_performed = u32::MAX;
    assert!(g.fits_command(&config, command(0, PlayerAction::AttackRight)));
    g.fitness.as_mut().unwrap().swings_performed = u32::MAX;
    assert!(!g.fits_command(&config, command(0, PlayerAction::AttackRight)));
    g.fitness = None;
    g.drones = vec![drone(3, DroneArchetype::Basic, i32::MIN, 1, 0)];
    assert!(!g.fits_command(&config, command(0, PlayerAction::AttackRight)));
    g.drones = vec![drone(3, DroneArchetype::Basic, i32::MIN + 1, 1, 500_000_000)];
    assert!(!g.fits_command(&config, command(0, PlayerAction::ForcePush)));
    g.drones[0].progress = 0;
    assert!(g.fits_command(&config, command(0, PlayerAction::ForcePush)));
}

#[test]
fn guard_at_the_top_score_is_taken() {
    let config = SimulationConfig::default();
    let mut g = GameState::new(GameMode::SoloCombat, &config, 1);
    g.players[0].score = i32::MAX;
    let result = g.apply_command(&config, command(0, PlayerAction::GuardStart));
    assert_eq!(result.events.len(), 1);
    assert!(g.players[0].guarding);
}

#[test]
fn duel_round_count_matters_only_when_the_round_ends() {
    let config = SimulationConfig::default();
    let mut g = GameState::new(GameMode::MultiplayerDuel, &config, 2);
    let mut m = g.match_state.unwrap();
    m.duel_scoreboard.player_one_rounds = u8::MAX;
    g.match_state = Some(m);
    assert!(g.fits_command(&config, command(0, PlayerAction::AttackLeft)));
    g.players[1].health = 10;
    assert!(!g.fits_command(&config, command(0, PlayerAction::AttackLeft)));
    assert!(g.fits_command(&config, command(1, PlayerAction::AttackLeft)));
    g.players[1].guarding = true;
    assert!(g.fits_command(&config, command(0, PlayerAction::AttackLeft)));
    g.drones[0].health = i32::MIN;
    assert!(g.fits_command(&config, command(0, PlayerAction::ForcePush)));
}

#[test]
fn wave_limit_matters_only_when_a_wave_comes() {
    let config = SimulationConfig::default();
    let mut duel = GameState::new(GameMode::MultiplayerDuel, &config, 2);
    duel.wave_index = lightsaber::rules::MAX_WAVE;
    duel.drones.clear();
    assert!(duel.fits_update(1_000));
    duel.update(1_000);
    assert_eq!(duel.wave_index, lightsaber::rules::MAX_WAVE);
    let mut solo = GameState::new(GameMode::SoloCombat, &config, 1);
    solo.wave_index = u32::MAX;
    assert!(solo.fits_update(1_000));
    solo.update(1_000);
    assert_eq!(solo.wave_index, u32::MAX);
    solo.drones.clear();
    assert!(!solo.fits_update(1_000));
    solo.wave_index = lightsaber::rules::MAX_WAVE - 1;
    assert!(solo.fits_update(0));
}

#[test]
fn health_never_drops_below_zero_over_a_long_run() {
    let config = SimulationConfig::default();
    let mut g = GameState::new(GameMode::SoloCombat, &config, 1);
    for step in 0..2_000u64 {
        g.update(50_000);
        if step % 3 == 0 {
            g.apply_command(&config, command(0, PlayerAction::AttackRight));
        }
        assert!(g.players[0].health >= 0);
        assert!(!g.drones.is_empty());
    }
    assert!(g.wave_index > 1);
}

#[test]
fn clocks_only_move_forward() {
    let config = SimulationConfig::default();
    let mut g = GameState::new(GameMode::FitnessMode, &config, 1);
    let mut last = 0;
    for step in 0..50u64 {
        g.update(step * 1_000);
        assert!(g.elapsed_micros >= last);
        last = g.elapsed_micros;
        let f = g.fitness.unwrap();
        assert_eq!(f.active_time_micros, g.elapsed_micros);
    }
}

#[test]
fn workout_counts_never_fall() {
    let config = SimulationConfig::default();
    let mut g = GameState::new(GameMode::FitnessMode, &config, 1);
    let mut previous = g.fitness.unwrap();
    let actions = [
        PlayerAction::AttackLeft,
        PlayerAction::ForcePush,
        PlayerAction::AttackRight,
        PlayerAction::GuardStart,
        PlayerAction::GuardEnd,
    ];
    for step in 0..60usize {
        g.update(200_000);
        g.apply_command(&config, command(0, actions[step % actions.len()]));
        let now = g.fitness.unwrap();
        assert!(now.swings_performed >= previous.swings_performed);
        assert!(now.force_pushes_performed >= previous.force_pushes_performed);
        assert!(now.successful_actions >= previous.successful_actions);
        assert!(now.best_combo >= previous.best_combo);
        assert!(now.effort_tenths >= previous.effort_tenths);
        previous = now;
    }
    assert!(previous.successful_actions > 0);
}

#[test]
fn duel_knockout_never_leaves_anyone_down() {
    let config = SimulationConfig::default();
    let mut g = GameState::new(GameMode::MultiplayerDuel, &config, 2);
    for step in 0..100u8 {
        g.update(400_000);
        g.apply_command(&config, command(step % 2, PlayerAction::AttackLeft));
        g.apply_command(&config, command(step % 2, PlayerAction::ForcePush));
        assert!(g.players.iter().all(|p| p.health > 0));
    }
    let board = g.match_state.unwrap().duel_scoreboard;
    assert!(board.player_one_rounds + board.player_two_rounds > 0);
}

#[test]
fn effort_score_is_held_at_the_top() {
    let config = SimulationConfig::default();
    let mut g = GameState::new(GameMode::FitnessMode, &config, 1);
    g.fitness.as_mut().unwrap().effort_tenths = u64::MAX - 3;
    assert!(g.fits_command(&config, command(0, PlayerAction::AttackLeft)));
    g.apply_command(&config, command(0, PlayerAction::AttackLeft));
    assert_eq!(g.fitness.unwrap().effort_tenths, u64::MAX);
    assert_eq!(g.fitness.unwrap().successful_actions, 1);
}

#[test]
fn frame_report_names_what_changed() {
    let config = SimulationConfig::default();
    let before = GameState::new(GameMode::SoloCombat, &config, 1);
    let mut after = before.clone();
    assert_eq!(
        report_step(&before, &after),
        StepReport { wave_engaged: false, drone_destroyed: false, clean_hit: false, impact_taken: false }
    );
    after.apply_command(&config, command(0, PlayerAction::AttackLeft));
    assert_eq!(
        report_step(&before, &after),
        StepReport { wave_engaged: false, drone_destroyed: true, clean_hit: true, impact_taken: false }
    );
    let mut cleared = solo_with(vec![drone(1, DroneArchetype::Heavy, 3, 0, PROGRESS_FULL_FOR_TESTS)]);
    let start = cleared.clone();
    cleared.update(0);
    assert_eq!(
        report_step(&start, &cleared),
        StepReport { wave_engaged: true, drone_destroyed: false, clean_hit: false, impact_taken: true }
    );
}
