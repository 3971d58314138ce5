use vstd::prelude::*;

use crate::combat::{CombatConfig, CombatEvent, DroneState, PlayerState};
use crate::command::{ActionCommand, ActionSource, PlayerAction};
use crate::fitness::{phase_for, FitnessMetrics};
use crate::keyboard::{keyboard_command, KEYBOARD_CONFIDENCE};
use crate::protocol::message_command;
use crate::text::{ascii_lower, ascii_lowercase, is_white_space, trim, trim_end, trim_start};
use crate::game_mode::GameMode;
use crate::rules::{
    apply_to_game, drones_hittable, duel_strike, force_push, lemma_first_kill_from,
    lemma_first_player_from, new_game, player_slot, reset_combo, reward, reward_fits,
    room_for_command, slash, update_game, wave_drones, GameView, MAX_WAVE, apply_fits, slash_fits,
    push_fits, duel_fits,
};

verus! {

broadcast use vstd::seq_lib::group_filter_ensures;

// ---------------------------------------------------------------- vocabulary of the laws

/// The same players, in the same order.
pub open spec fn roster_kept(before: Seq<PlayerState>, after: Seq<PlayerState>) -> bool {
    &&& before.len() == after.len()
    &&& forall|i: int| 0 <= i < before.len() ==> #[trigger] after[i].id == before[i].id
}

/// No player's score went down.
pub open spec fn scores_kept(before: Seq<PlayerState>, after: Seq<PlayerState>) -> bool {
    forall|i: int| 0 <= i < before.len() && i < after.len() ==> #[trigger] after[i].score >= before[i].score
}

/// Every player's cooldowns are as they were.
pub open spec fn cooldowns_kept(before: Seq<PlayerState>, after: Seq<PlayerState>) -> bool {
    forall|i: int|
        0 <= i < before.len() && i < after.len() ==> {
            &&& (#[trigger] after[i]).attack_cooldown_micros == before[i].attack_cooldown_micros
            &&& after[i].force_cooldown_micros == before[i].force_cooldown_micros
        }
}

/// The workout metrics are there exactly when they were, and no count went down.
pub open spec fn workout_grew(before: Option<FitnessMetrics>, after: Option<FitnessMetrics>) -> bool {
    match before {
        None => after is None,
        Some(f) => after matches Some(a) && {
            &&& a.swings_performed >= f.swings_performed
            &&& a.force_pushes_performed >= f.force_pushes_performed
            &&& a.successful_actions >= f.successful_actions
            &&& a.best_combo >= f.best_combo
            &&& a.effort_tenths >= f.effort_tenths
            &&& a.active_time_micros == f.active_time_micros
        },
    }
}

/// No player has negative health.
pub open spec fn health_nonnegative(ps: Seq<PlayerState>) -> bool {
    forall|i: int| 0 <= i < ps.len() ==> #[trigger] ps[i].health >= 0
}

// ---------------------------------------------------------------- frames of the building blocks

proof fn lemma_filter_keeps<A>(s: Seq<A>, p: spec_fn(A) -> bool, q: spec_fn(A) -> bool)
    requires
        forall|i: int| 0 <= i < s.len() && p(s[i]) ==> q(#[trigger] s[i]),
    ensures
        forall|j: int| 0 <= j < s.filter(p).len() ==> q(#[trigger] s.filter(p)[j]),
{
    assert forall|j: int| 0 <= j < s.filter(p).len() implies q(#[trigger] s.filter(p)[j]) by {
        let e = s.filter(p)[j];
        assert(s.filter(p).contains(e));
        s.lemma_filter_contains_rev(p, e);
        let i = choose|i: int| 0 <= i < s.len() && s[i] == e;
        assert(p(s[i]));
    }
}

/// A reward touches one player's combo and score, and the fitness metrics.
proof fn lemma_reward_frame(g: GameView, id: u8, action: PlayerAction, base: int)
    requires
        0 <= base <= 14,
        reward_fits(g, id, action, base),
    ensures
        ({
            let r = reward(g, id, action, base).0;
            &&& workout_grew(g.fitness, r.fitness)
            &&& r.mode == g.mode
            &&& r.drones == g.drones
            &&& r.wave_index == g.wave_index
            &&& r.elapsed_micros == g.elapsed_micros
            &&& r.match_state == g.match_state
            &&& r.players.len() == g.players.len()
            &&& forall|i: int|
                0 <= i < g.players.len() ==> {
                    &&& (#[trigger] r.players[i]).id == g.players[i].id
                    &&& r.players[i].health == g.players[i].health
                    &&& r.players[i].guarding == g.players[i].guarding
                    &&& r.players[i].attack_cooldown_micros == g.players[i].attack_cooldown_micros
                    &&& r.players[i].force_cooldown_micros == g.players[i].force_cooldown_micros
                    &&& r.players[i].score >= g.players[i].score
                }
        }),
{
    lemma_first_player_from(g.players, id, true, 0);
}

/// Resetting a combo touches one player's combo only.
proof fn lemma_reset_frame(g: GameView, id: u8)
    ensures
        ({
            let r = reset_combo(g, id);
            &&& r.mode == g.mode
            &&& r.drones == g.drones
            &&& r.wave_index == g.wave_index
            &&& r.match_state == g.match_state
            &&& r.fitness == g.fitness
            &&& r.players.len() == g.players.len()
            &&& forall|i: int|
                0 <= i < g.players.len() ==> {
                    &&& (#[trigger] r.players[i]).id == g.players[i].id
                    &&& r.players[i].health == g.players[i].health
                    &&& r.players[i].guarding == g.players[i].guarding
                    &&& r.players[i].attack_cooldown_micros == g.players[i].attack_cooldown_micros
                    &&& r.players[i].force_cooldown_micros == g.players[i].force_cooldown_micros
                    &&& r.players[i].score == g.players[i].score
                }
        }),
{
    lemma_first_player_from(g.players, id, true, 0);
}

/// What a command leaves of the players: the roster, no lower scores, no negative
/// health where there was none, and the cooldowns of everyone but the actor.
proof fn lemma_command_players(g: GameView, config: CombatConfig, command: ActionCommand)
    requires
        apply_fits(g, config, command),
    ensures
        ({
            let r = apply_to_game(g, config, command).0;
            &&& workout_grew(g.fitness, r.fitness)
            &&& r.mode == g.mode
            &&& roster_kept(g.players, r.players)
            &&& scores_kept(g.players, r.players)
            &&& (health_nonnegative(g.players) ==> health_nonnegative(r.players))
        }),
{
    lemma_first_player_from(g.players, command.player_id, true, 0);
    match player_slot(g.players, command.player_id) {
        None => {},
        Some(i) => {
            let p = g.players[i];
            let action = command.action;
            if action is AttackLeft || action is AttackRight || action is ForcePush {
                let cooling = if action is ForcePush {
                    p.force_cooldown_micros > 0
                } else {
                    p.attack_cooldown_micros > 0
                };
                if !cooling {
                    let p1 = if action is ForcePush {
                        PlayerState { guarding: false, force_cooldown_micros: config.force_cooldown_micros, ..p }
                    } else {
                        PlayerState { guarding: false, attack_cooldown_micros: config.attack_cooldown_micros, ..p }
                    };
                    let g1 = GameView { players: g.players.update(i, p1), ..g };
                    if g.mode is MultiplayerDuel {
                        let (guarded, full, base) = if action is ForcePush {
                            (2i32, 8i32, 14int)
                        } else {
                            (4i32, 10i32, 12int)
                        };
                        lemma_duel_players(g1, p.id, action, guarded, full, base);
                    } else if action is ForcePush {
                        lemma_push_players(g1, p.id);
                    } else {
                        lemma_slash_players(g1, p.id, action);
                    }
                }
            }
        },
    }
}

proof fn lemma_slash_players(g: GameView, id: u8, action: PlayerAction)
    requires
        slash_fits(g, id, action),
    ensures
        ({
            let r = slash(g, id, action).0;
            &&& workout_grew(g.fitness, r.fitness)
            &&& r.mode == g.mode
            &&& roster_kept(g.players, r.players)
            &&& cooldowns_kept(g.players, r.players)
            &&& scores_kept(g.players, r.players)
            &&& (health_nonnegative(g.players) ==> health_nonnegative(r.players))
        }),
{
    match crate::rules::first_kill(g.drones, action) {
        Some(k) => {
            let drones = crate::rules::struck(g.drones, action, k + 1).filter(
                crate::rules::id_other_than(g.drones[k].id),
            );
            lemma_reward_frame(GameView { drones, ..g }, id, action, 10);
        },
        None => {
            lemma_reset_frame(
                GameView { drones: crate::rules::struck(g.drones, action, g.drones.len() as int), ..g },
                id,
            );
        },
    }
}

proof fn lemma_push_players(g: GameView, id: u8)
    requires
        push_fits(g, id),
    ensures
        ({
            let r = force_push(g, id).0;
            &&& workout_grew(g.fitness, r.fitness)
            &&& r.mode == g.mode
            &&& roster_kept(g.players, r.players)
            &&& cooldowns_kept(g.players, r.players)
            &&& scores_kept(g.players, r.players)
            &&& (health_nonnegative(g.players) ==> health_nonnegative(r.players))
        }),
{
    let after = crate::rules::pushed(g.drones);
    let ids = crate::rules::destroyed_ids(after);
    if ids.len() == 0 {
        lemma_reset_frame(GameView { drones: after, ..g }, id);
    } else {
        lemma_reward_frame(
            GameView { drones: after.filter(crate::rules::id_not_in(ids)), ..g },
            id,
            PlayerAction::ForcePush,
            14,
        );
    }
}

proof fn lemma_duel_players(
    g: GameView,
    id: u8,
    action: PlayerAction,
    guarded: i32,
    full: i32,
    base: int,
)
    requires
        duel_fits(g, id, action, guarded, full, base),
        0 <= guarded,
        0 <= full,
        0 <= base <= 14,
    ensures
        ({
            let r = duel_strike(g, id, action, guarded, full, base).0;
            &&& workout_grew(g.fitness, r.fitness)
            &&& r.mode == g.mode
            &&& roster_kept(g.players, r.players)
            &&& cooldowns_kept(g.players, r.players)
            &&& scores_kept(g.players, r.players)
            &&& (health_nonnegative(g.players) ==> health_nonnegative(r.players))
        }),
{
    lemma_first_player_from(g.players, id, false, 0);
    match crate::rules::opponent_slot(g.players, id) {
        None => {
            lemma_reset_frame(g, id);
        },
        Some(t) => {
            let target = g.players[t];
            let damage = if target.guarding { guarded } else { full };
            let hurt = PlayerState {
                health: crate::rules::floor_zero(target.health - damage) as i32,
                ..target
            };
            let g1 = GameView { players: g.players.update(t, hurt), ..g };

            lemma_reward_frame(g1, id, action, base);
        },
    }
}

// ---------------------------------------------------------------- laws

/// A new game has room to spare for a command from anyone: no counter is anywhere near
/// its limit, and every drone can be hit (so it fits any command, by `law_room_is_enough`).
pub proof fn law_new_game_ready(
    mode: GameMode,
    max_health: i32,
    starting_drones: nat,
    player_count: nat,
    id: u8,
)
    ensures
        room_for_command(new_game(mode, max_health, starting_drones, player_count), id),
        drones_hittable(new_game(mode, max_health, starting_drones, player_count).drones),
{
}

/// Commands keep the roster: the same players in the same order, in the same mode.
/// No command lowers a score, and a command never drives health below zero.
pub proof fn law_command_keeps_players(g: GameView, config: CombatConfig, command: ActionCommand)
    requires
        apply_fits(g, config, command),
    ensures
        apply_to_game(g, config, command).0.mode == g.mode,
        roster_kept(g.players, apply_to_game(g, config, command).0.players),
        scores_kept(g.players, apply_to_game(g, config, command).0.players),
        health_nonnegative(g.players) ==> health_nonnegative(
            apply_to_game(g, config, command).0.players,
        ),
{
    lemma_command_players(g, config, command);
}

/// Commands only add to the workout: no fitness count ever goes down, and the workout
/// clock is left to time.
pub proof fn law_workout_counts_grow(g: GameView, config: CombatConfig, command: ActionCommand)
    requires
        apply_fits(g, config, command),
    ensures
        workout_grew(g.fitness, apply_to_game(g, config, command).0.fitness),
{
    lemma_command_players(g, config, command);
}

/// Time keeps the roster, the scores and the guards; breaches reach only the first player
/// and never drive health below zero, nor raise a health that was not negative.
pub proof fn law_time_keeps_players(g: GameView, delta: u64)
    ensures
        update_game(g, delta).mode == g.mode,
        roster_kept(g.players, update_game(g, delta).players),
        scores_kept(g.players, update_game(g, delta).players),
        health_nonnegative(g.players) ==> health_nonnegative(update_game(g, delta).players),
        forall|i: int|
            0 <= i < g.players.len() ==> {
                &&& (g.players[i].health >= 0 ==> (#[trigger] update_game(g, delta).players[i]).health
                    <= g.players[i].health)
                &&& update_game(g, delta).players[i].guarding == g.players[i].guarding
                &&& (i > 0 ==> update_game(g, delta).players[i].health == g.players[i].health)
            },
{
}

/// The wave number grows by one exactly when time clears the field outside a duel,
/// and the new wave holds two more drones than its number.
pub proof fn law_wave_grows_when_cleared(g: GameView, delta: u64)
    requires
        crate::rules::update_fits(g, delta),
    ensures
        update_game(g, delta).wave_index == if crate::rules::spawns_wave(g, delta) {
            g.wave_index + 1
        } else {
            g.wave_index as int
        },
        crate::rules::spawns_wave(g, delta) ==> update_game(
            g,
            delta,
        ).drones.len() == g.wave_index + 3,
        g.mode == GameMode::MultiplayerDuel ==> !crate::rules::spawns_wave(g, delta),
{
}

/// Outside duels the drones keep coming: after any lapse of time there is a drone
/// on the field.
pub proof fn law_waves_keep_coming(g: GameView, delta: u64)
    requires
        g.mode != GameMode::MultiplayerDuel,
    ensures
        update_game(g, delta).drones.len() > 0,
{
}

/// In a duel no drone ever arrives: time only takes drones away.
pub proof fn law_duel_spawns_nothing(g: GameView, delta: u64)
    requires
        g.mode == GameMode::MultiplayerDuel,
    ensures
        update_game(g, delta).drones.len() <= g.drones.len(),
        update_game(g, delta).wave_index == g.wave_index,
{
}

/// A command from an id that no player has changes nothing and reports nothing.
pub proof fn law_unknown_player_ignored(g: GameView, config: CombatConfig, command: ActionCommand)
    requires
        forall|i: int| 0 <= i < g.players.len() ==> #[trigger] g.players[i].id != command.player_id,
    ensures
        apply_to_game(g, config, command).0 == g,
        apply_to_game(g, config, command).1 == Seq::<CombatEvent>::empty(),
{
    lemma_first_player_from(g.players, command.player_id, true, 0);
}

/// Every drone of a wave has its own id.
pub proof fn law_wave_ids_distinct(wave: u32)
    requires
        wave <= MAX_WAVE,
    ensures
        forall|i: int, j: int|
            0 <= i < j < wave_drones(wave).len() ==> #[trigger] wave_drones(wave)[i].id
                != #[trigger] wave_drones(wave)[j].id,
{
}

proof fn lemma_slash_drones(g: GameView, id: u8, action: PlayerAction)
    requires
        drones_hittable(g.drones),
        slash_fits(g, id, action),
    ensures
        drones_hittable(slash(g, id, action).0.drones),
{
    let hittable = |d: DroneState| d.health >= i32::MIN + 2;
    lemma_first_kill_from(g.drones, action, 0);
    match crate::rules::first_kill(g.drones, action) {
        Some(k) => {
            let killed = g.drones[k].id;
            let hit = crate::rules::struck(g.drones, action, k + 1);
            let keep = crate::rules::id_other_than(killed);
            assert forall|i: int| 0 <= i < hit.len() && keep(hit[i]) implies hittable(
                #[trigger] hit[i],
            ) by {
                assert(g.drones[i].health >= i32::MIN + 2);
            }
            lemma_filter_keeps(hit, keep, hittable);
            lemma_reward_frame(GameView { drones: hit.filter(keep), ..g }, id, action, 10);
        },
        None => {
            let hit = crate::rules::struck(g.drones, action, g.drones.len() as int);
            assert forall|i: int| 0 <= i < hit.len() implies #[trigger] hit[i].health >= i32::MIN + 2 by {
                assert(g.drones[i].health >= i32::MIN + 2);
            }
            lemma_reset_frame(GameView { drones: hit, ..g }, id);
        },
    }
}

proof fn lemma_push_drones(g: GameView, id: u8)
    requires
        drones_hittable(g.drones),
        push_fits(g, id),
    ensures
        drones_hittable(force_push(g, id).0.drones),
{
    let hittable = |d: DroneState| d.health >= i32::MIN + 2;
    let after = crate::rules::pushed(g.drones);
    let gone = crate::rules::push_destroyed();
    let ids = crate::rules::destroyed_ids(after);
    assert forall|i: int| 0 <= i < after.len() && gone(after[i]) implies ids.contains(
        #[trigger] after[i].id,
    ) by {
        after.lemma_filter_contains(gone, i);
        let j = choose|j: int| 0 <= j < after.filter(gone).len() && after.filter(gone)[j] == after[i];
        assert(ids[j] == after[i].id);
    }
    if ids.len() == 0 {
        assert forall|i: int| 0 <= i < after.len() implies #[trigger] after[i].health >= i32::MIN + 2 by {
            assert(g.drones[i].health >= i32::MIN + 2);
            if gone(after[i]) {
                assert(ids.contains(after[i].id));
            }
        }
        lemma_reset_frame(GameView { drones: after, ..g }, id);
    } else {
        let keep = crate::rules::id_not_in(ids);
        assert forall|i: int| 0 <= i < after.len() && keep(after[i]) implies hittable(
            #[trigger] after[i],
        ) by {
            assert(g.drones[i].health >= i32::MIN + 2);
            if gone(after[i]) {
                assert(ids.contains(after[i].id));
            }
        }
        lemma_filter_keeps(after, keep, hittable);
        lemma_reward_frame(GameView { drones: after.filter(keep), ..g }, id, PlayerAction::ForcePush, 14);
    }
}

proof fn lemma_duel_drones(
    g: GameView,
    id: u8,
    action: PlayerAction,
    guarded: i32,
    full: i32,
    base: int,
)
    requires
        duel_fits(g, id, action, guarded, full, base),
        0 <= base <= 14,
    ensures
        duel_strike(g, id, action, guarded, full, base).0.drones == g.drones,
{
    lemma_first_player_from(g.players, id, false, 0);
    match crate::rules::opponent_slot(g.players, id) {
        None => {
            lemma_reset_frame(g, id);
        },
        Some(t) => {
            let target = g.players[t];
            let damage = if target.guarding { guarded } else { full };
            let hurt = PlayerState {
                health: crate::rules::floor_zero(target.health - damage) as i32,
                ..target
            };
            let g1 = GameView { players: g.players.update(t, hurt), ..g };

            lemma_reward_frame(g1, id, action, base);
        },
    }
}

/// Every drone can always be hit: a new game starts that way (see `law_new_game_ready`),
/// and neither time nor commands bring a drone's health near the bottom of `i32`.
pub proof fn law_drones_stay_hittable(
    g: GameView,
    delta: u64,
    config: CombatConfig,
    command: ActionCommand,
)
    requires
        drones_hittable(g.drones),
        apply_fits(g, config, command),
    ensures
        drones_hittable(update_game(g, delta).drones),
        drones_hittable(apply_to_game(g, config, command).0.drones),
{
    let hittable = |d: DroneState| d.health >= i32::MIN + 2;
    let advanced = Seq::new(
        g.drones.len(),
        |i: int| crate::rules::advance_drone(g.drones[i], delta),
    );
    assert forall|i: int| 0 <= i < advanced.len() && crate::rules::holds_position()(advanced[i]) implies hittable(
        #[trigger] advanced[i],
    ) by {
        assert(g.drones[i].health >= i32::MIN + 2);
    }
    lemma_filter_keeps(advanced, crate::rules::holds_position(), hittable);
    lemma_first_player_from(g.players, command.player_id, true, 0);
    match player_slot(g.players, command.player_id) {
        None => {},
        Some(i) => {
            let p = g.players[i];
            let action = command.action;
            let cooling = if action is ForcePush {
                p.force_cooldown_micros > 0
            } else {
                p.attack_cooldown_micros > 0
            };
            if (action is AttackLeft || action is AttackRight || action is ForcePush) && !cooling {
                let p1 = if action is ForcePush {
                    PlayerState { guarding: false, force_cooldown_micros: config.force_cooldown_micros, ..p }
                } else {
                    PlayerState { guarding: false, attack_cooldown_micros: config.attack_cooldown_micros, ..p }
                };
                let g1 = GameView { players: g.players.update(i, p1), ..g };
                if g.mode is MultiplayerDuel {
                    if action is ForcePush {
                        lemma_duel_drones(g1, p.id, action, 2, 8, 14);
                    } else {
                        lemma_duel_drones(g1, p.id, action, 4, 10, 12);
                    }
                } else if action is ForcePush {
                    lemma_push_drones(g1, p.id);
                } else {
                    lemma_slash_drones(g1, p.id, action);
                }
            }
        },
    }
}

proof fn lemma_slot_follows_roster(a: Seq<PlayerState>, b: Seq<PlayerState>, id: u8, same: bool, from: int)
    requires
        roster_kept(a, b),
        0 <= from,
    ensures
        crate::rules::first_player_from(a, id, same, from) == crate::rules::first_player_from(
            b,
            id,
            same,
            from,
        ),
    decreases a.len() - from,
{
    if from < a.len() {
        assert(b[from].id == a[from].id);
        lemma_slot_follows_roster(a, b, id, same, from + 1);
    }
}

/// An accepted swing starts its cooldown: the same swing straight away is rejected
/// and changes nothing. The same holds for force pushes.
pub proof fn law_cooldown_blocks_repeat(g: GameView, config: CombatConfig, command: ActionCommand)
    requires
        apply_fits(g, config, command),
        player_slot(g.players, command.player_id) matches Some(i) && (if command.action is ForcePush {
            g.players[i].force_cooldown_micros == 0 && config.force_cooldown_micros > 0
        } else {
            command.action.is_attack() && g.players[i].attack_cooldown_micros == 0
                && config.attack_cooldown_micros > 0
        }),
    ensures
        ({
            let after = apply_to_game(g, config, command).0;
            apply_to_game(after, config, command) == (
                after,
                seq![
                    CombatEvent::PlayerActionRejected {
                        player_id: command.player_id,
                        action: command.action,
                    },
                ],
            )
        }),
{
    lemma_first_player_from(g.players, command.player_id, true, 0);
    let i = player_slot(g.players, command.player_id).unwrap();
    let p = g.players[i];
    let action = command.action;
    let p1 = if action is ForcePush {
        PlayerState { guarding: false, force_cooldown_micros: config.force_cooldown_micros, ..p }
    } else {
        PlayerState { guarding: false, attack_cooldown_micros: config.attack_cooldown_micros, ..p }
    };
    let g1 = GameView { players: g.players.update(i, p1), ..g };
    if g.mode is MultiplayerDuel {
        if action is ForcePush {
            lemma_duel_players(g1, p.id, action, 2, 8, 14);
        } else {
            lemma_duel_players(g1, p.id, action, 4, 10, 12);
        }
    } else if action is ForcePush {
        lemma_push_players(g1, p.id);
    } else {
        lemma_slash_players(g1, p.id, action);
    }
    let after = apply_to_game(g, config, command).0;
    assert(roster_kept(g1.players, after.players));
    assert(roster_kept(g.players, g1.players));
    assert(roster_kept(g.players, after.players));
    lemma_slot_follows_roster(g.players, after.players, command.player_id, true, 0);
    assert(after.players[i] == after.players[i]);
}

/// Time wears cooldowns and combo windows down: once at least that much time has
/// passed they are over, and a combo whose window is over is gone.
pub proof fn law_cooldowns_run_out(g: GameView, delta: u64, i: int)
    requires
        0 <= i < g.players.len(),
    ensures
        delta >= g.players[i].attack_cooldown_micros ==> update_game(g, delta).players[i].attack_cooldown_micros == 0,
        delta >= g.players[i].force_cooldown_micros ==> update_game(g, delta).players[i].force_cooldown_micros == 0,
        delta >= g.players[i].combo_expiry_micros ==> update_game(g, delta).players[i].combo == 0,
{
}

/// Dropping a guard undoes raising it: for a player not on guard, raising and then
/// dropping the guard gives back the very same game.
pub proof fn law_guard_end_undoes_start(g: GameView, config: CombatConfig, id: u8, confidence: i64, at: i64, source: crate::command::ActionSource)
    requires
        player_slot(g.players, id) matches Some(i) && !g.players[i].guarding,
    ensures
        ({
            let start = ActionCommand { player_id: id, action: PlayerAction::GuardStart, confidence_millionths: confidence, timestamp_micros: at, source };
            let end = ActionCommand { action: PlayerAction::GuardEnd, ..start };
            apply_to_game(apply_to_game(g, config, start).0, config, end).0 == g
        }),
{
    lemma_first_player_from(g.players, id, true, 0);
    let i = player_slot(g.players, id).unwrap();
    let start = ActionCommand { player_id: id, action: PlayerAction::GuardStart, confidence_millionths: confidence, timestamp_micros: at, source };
    let raised = apply_to_game(g, config, start).0;
    assert(roster_kept(g.players, raised.players));
    lemma_slot_follows_roster(g.players, raised.players, id, true, 0);
    let end = ActionCommand { action: PlayerAction::GuardEnd, ..start };
    assert(apply_to_game(raised, config, end).0.players =~= g.players);
}

/// Health of every player strictly above zero.
pub open spec fn everyone_standing(ps: Seq<PlayerState>) -> bool {
    forall|i: int| 0 <= i < ps.len() ==> #[trigger] ps[i].health > 0
}

/// In a duel nobody stays down: a strike that takes the opponent's last health point
/// ends the round and every player is restored.
pub proof fn law_duel_nobody_stays_down(g: GameView, config: CombatConfig, command: ActionCommand)
    requires
        g.mode == GameMode::MultiplayerDuel,
        apply_fits(g, config, command),
        everyone_standing(g.players),
    ensures
        everyone_standing(apply_to_game(g, config, command).0.players),
{
    lemma_first_player_from(g.players, command.player_id, true, 0);
    match player_slot(g.players, command.player_id) {
        None => {},
        Some(i) => {
            let p = g.players[i];
            let action = command.action;
            let cooling = if action is ForcePush {
                p.force_cooldown_micros > 0
            } else {
                p.attack_cooldown_micros > 0
            };
            if (action is AttackLeft || action is AttackRight || action is ForcePush) && !cooling {
                let p1 = if action is ForcePush {
                    PlayerState { guarding: false, force_cooldown_micros: config.force_cooldown_micros, ..p }
                } else {
                    PlayerState { guarding: false, attack_cooldown_micros: config.attack_cooldown_micros, ..p }
                };
                let g1 = GameView { players: g.players.update(i, p1), ..g };
                assert(everyone_standing(g1.players));
                if action is ForcePush {
                    lemma_duel_standing(g1, p.id, action, 2, 8, 14);
                } else {
                    lemma_duel_standing(g1, p.id, action, 4, 10, 12);
                }
            }
        },
    }
}

proof fn lemma_duel_standing(
    g: GameView,
    id: u8,
    action: PlayerAction,
    guarded: i32,
    full: i32,
    base: int,
)
    requires
        duel_fits(g, id, action, guarded, full, base),
        everyone_standing(g.players),
        0 <= guarded,
        0 <= full,
        0 <= base <= 14,
    ensures
        everyone_standing(duel_strike(g, id, action, guarded, full, base).0.players),
{
    lemma_first_player_from(g.players, id, false, 0);
    match crate::rules::opponent_slot(g.players, id) {
        None => {
            lemma_reset_frame(g, id);
        },
        Some(t) => {
            let target = g.players[t];
            let damage = if target.guarding { guarded } else { full };
            let hurt = PlayerState {
                health: crate::rules::floor_zero(target.health - damage) as i32,
                ..target
            };
            let g1 = GameView { players: g.players.update(t, hurt), ..g };

            lemma_reward_frame(g1, id, action, base);
        },
    }
}

// ---------------------------------------------------------------- keyboard input

proof fn lemma_trim_start_shape(s: Seq<char>)
    ensures
        trim_start(s).len() == 0 || !is_white_space(trim_start(s)[0]),
    decreases s.len(),
{
    if s.len() > 0 && is_white_space(s[0]) {
        lemma_trim_start_shape(s.drop_first());
    }
}

proof fn lemma_trim_end_shape(s: Seq<char>)
    ensures
        trim_end(s).len() <= s.len(),
        trim_end(s) == s.take(trim_end(s).len() as int),
        trim_end(s).len() == 0 || !is_white_space(trim_end(s).last()),
    decreases s.len(),
{
    if s.len() > 0 && is_white_space(s.last()) {
        lemma_trim_end_shape(s.drop_last());
        assert(s.drop_last().take(trim_end(s).len() as int) =~= s.take(trim_end(s).len() as int));
    } else {
        assert(s.take(s.len() as int) =~= s);
    }
}

/// Trimming twice trims no more than trimming once.
proof fn lemma_trim_idempotent(s: Seq<char>)
    ensures
        trim(trim(s)) == trim(s),
{
    let x = trim_start(s);
    lemma_trim_start_shape(s);
    lemma_trim_end_shape(x);
    let y = trim_end(x);
    if y.len() > 0 {
        assert(y[0] == x[0]);
    }
    assert(trim_start(y) == y);
    lemma_trim_end_shape(y);
    assert(trim_end(y) == y);
}

proof fn lemma_lower_keeps_white_space(c: char)
    ensures
        is_white_space(ascii_lower(c)) == is_white_space(c),
{
}

proof fn lemma_trim_start_lower(s: Seq<char>)
    ensures
        trim_start(ascii_lowercase(s)) == ascii_lowercase(trim_start(s)),
    decreases s.len(),
{
    let l = ascii_lowercase(s);
    if s.len() > 0 {
        lemma_lower_keeps_white_space(s[0]);
        assert(l.drop_first() =~= ascii_lowercase(s.drop_first()));
        if is_white_space(s[0]) {
            lemma_trim_start_lower(s.drop_first());
        }
    }
}

proof fn lemma_trim_end_lower(s: Seq<char>)
    ensures
        trim_end(ascii_lowercase(s)) == ascii_lowercase(trim_end(s)),
    decreases s.len(),
{
    let l = ascii_lowercase(s);
    if s.len() > 0 {
        lemma_lower_keeps_white_space(s.last());
        assert(l.drop_last() =~= ascii_lowercase(s.drop_last()));
        if is_white_space(s.last()) {
            lemma_trim_end_lower(s.drop_last());
        }
    }
}

/// Keyboard input is read without regard to ASCII case or to the white space around it:
/// trimming the input, or bringing it to lower case, does not change the command.
pub proof fn law_keyboard_ignores_case_and_space(input: Seq<char>, player_id: u8, now_micros: i64)
    ensures
        keyboard_command(trim(input), player_id, now_micros) == keyboard_command(
            input,
            player_id,
            now_micros,
        ),
        keyboard_command(ascii_lowercase(input), player_id, now_micros) == keyboard_command(
            input,
            player_id,
            now_micros,
        ),
{
    lemma_trim_idempotent(input);
    lemma_trim_start_lower(input);
    lemma_trim_end_lower(trim_start(input));
    let t = trim(input);
    assert(ascii_lowercase(ascii_lowercase(t)) =~= ascii_lowercase(t));
}

/// A keyboard command always names an action and comes at full confidence from the keyboard.
pub proof fn law_keyboard_commands_name_actions(input: Seq<char>, player_id: u8, now_micros: i64)
    ensures
        keyboard_command(input, player_id, now_micros) matches Some(c) ==> {
            &&& !(c.action is NoAction)
            &&& c.source == ActionSource::Keyboard
            &&& c.player_id == player_id
            &&& c.timestamp_micros == now_micros
            &&& c.confidence_millionths == KEYBOARD_CONFIDENCE
        },
{
}

/// A command read from a camera message always names an action and comes from the camera.
pub proof fn law_camera_commands_name_actions(payload: Seq<char>)
    ensures
        message_command(payload) matches Some(c) ==> !(c.action is NoAction) && c.source
            == ActionSource::Camera,
{
}

// ---------------------------------------------------------------- clocks

/// The game clock never runs backwards, and in fitness mode the workout clock runs
/// with it and the phase always matches the workout clock.
pub proof fn law_clocks_move_forward(g: GameView, delta: u64)
    ensures
        update_game(g, delta).elapsed_micros >= g.elapsed_micros,
        g.fitness matches Some(f) ==> (update_game(g, delta).fitness matches Some(after) && {
            &&& after.active_time_micros >= f.active_time_micros
            &&& after.phase == phase_for(after.active_time_micros)
            &&& after.swings_performed == f.swings_performed
            &&& after.successful_actions == f.successful_actions
        }),
        g.fitness is None ==> update_game(g, delta).fitness is None,
{
}

/// A game with room to spare can take any command: when every counter a command of
/// this player could advance has room, and every drone can be hit, the command fits.
pub proof fn law_room_is_enough(g: GameView, config: CombatConfig, command: ActionCommand)
    requires
        room_for_command(g, command.player_id),
        drones_hittable(g.drones),
    ensures
        apply_fits(g, config, command),
{
    let id = command.player_id;
    lemma_first_player_from(g.players, id, true, 0);
    match player_slot(g.players, id) {
        None => {},
        Some(i) => {
            let p = g.players[i];
            let action = command.action;
            assert(crate::rules::player_has_room(p));
            let p1 = if action is ForcePush {
                PlayerState { guarding: false, force_cooldown_micros: config.force_cooldown_micros, ..p }
            } else {
                PlayerState { guarding: false, attack_cooldown_micros: config.attack_cooldown_micros, ..p }
            };
            let g1 = GameView { players: g.players.update(i, p1), ..g };
            assert(roster_kept(g.players, g1.players));
            lemma_slot_follows_roster(g.players, g1.players, id, true, 0);
            lemma_first_player_from(g1.players, p.id, false, 0);
            lemma_first_kill_from(g1.drones, action, 0);
            match crate::rules::opponent_slot(g1.players, p.id) {
                Some(t) => {
                    let target = g1.players[t];
                    let damage: i32 = if action is ForcePush {
                        if target.guarding { 2 } else { 8 }
                    } else {
                        if target.guarding { 4 } else { 10 }
                    };
                    let hurt = PlayerState {
                        health: crate::rules::floor_zero(target.health - damage) as i32,
                        ..target
                    };
                    let g2 = GameView { players: g1.players.update(t, hurt), ..g1 };
                    assert(roster_kept(g.players, g2.players));
                    lemma_slot_follows_roster(g.players, g2.players, id, true, 0);
                },
                None => {},
            }
        },
    }
}

// ---------------------------------------------------------------- frame reports

/// A frame report names a fall in health, or a rise in score, of any player, whatever
/// their position, and names nothing that did not happen; the same for waves and drones.
pub proof fn law_report_sees_every_player(before: GameView, after: GameView)
    ensures
        forall|i: int|
            0 <= i < before.players.len() && i < after.players.len()
                && #[trigger] after.players[i].health < before.players[i].health
                ==> crate::rules::step_report(before, after).impact_taken,
        forall|i: int|
            0 <= i < before.players.len() && i < after.players.len()
                && #[trigger] after.players[i].score > before.players[i].score
                ==> crate::rules::step_report(before, after).clean_hit,
        crate::rules::step_report(before, after).impact_taken ==> exists|i: int|
            0 <= i < before.players.len() && i < after.players.len()
                && #[trigger] after.players[i].health < before.players[i].health,
        crate::rules::step_report(before, after).clean_hit ==> exists|i: int|
            0 <= i < before.players.len() && i < after.players.len()
                && #[trigger] after.players[i].score > before.players[i].score,
        crate::rules::step_report(before, after).wave_engaged == (after.wave_index > before.wave_index),
        crate::rules::step_report(before, after).drone_destroyed == (after.drones.len()
            < before.drones.len()),
{
}

// ---------------------------------------------------------------- swings

/// A swing reaches every basic drone, whatever its lane: outside a duel, an accepted
/// swing (left or right) against a field whose first drone is a basic drone on its last
/// point of health destroys that drone, reports it last, and scores ten points plus two
/// for every step of the combo so far.
pub proof fn law_swing_reaches_basic_drones(
    g: GameView,
    config: CombatConfig,
    command: ActionCommand,
    i: int,
)
    requires
        g.mode != GameMode::MultiplayerDuel,
        command.action is AttackLeft || command.action is AttackRight,
        player_slot(g.players, command.player_id) == Some(i),
        g.players[i].attack_cooldown_micros == 0,
        g.drones.len() > 0,
        g.drones[0].archetype is Basic,
        g.drones[0].health <= 1,
        apply_fits(g, config, command),
    ensures
        ({
            let (after, events) = apply_to_game(g, config, command);
            &&& events.len() > 0
            &&& events.last() == CombatEvent::DroneDestroyed {
                drone_id: g.drones[0].id,
                player_id: command.player_id,
            }
            &&& forall|j: int| 0 <= j < after.drones.len() ==> #[trigger] after.drones[j].id != g.drones[0].id
            &&& after.players[i].score == g.players[i].score + 10 + 2 * g.players[i].combo
            &&& after.players[i].combo == g.players[i].combo + 1
        }),
{
    lemma_first_player_from(g.players, command.player_id, true, 0);
    let p = g.players[i];
    let action = command.action;
    let p1 = PlayerState {
        guarding: false,
        attack_cooldown_micros: config.attack_cooldown_micros,
        ..p
    };
    let g1 = GameView { players: g.players.update(i, p1), ..g };
    assert(crate::rules::swing_kills(g1.drones[0], action));
    assert(crate::rules::first_kill(g1.drones, action) == Some(0int));
    let killed = g1.drones[0].id;
    let keep = crate::rules::id_other_than(killed);
    let drones = crate::rules::struck(g1.drones, action, 1).filter(keep);
    assert forall|j: int| 0 <= j < drones.len() implies #[trigger] drones[j].id != killed by {
        crate::rules::struck(g1.drones, action, 1).lemma_filter_pred(keep, j);
    }
    let g2 = GameView { drones, ..g1 };
    assert(roster_kept(g.players, g2.players));
    lemma_slot_follows_roster(g.players, g2.players, command.player_id, true, 0);
    assert(apply_to_game(g, config, command).0 == reward(g2, p.id, action, 10).0);
}

/// Outside a duel, an accepted swing or force push that destroys no drone breaks the
/// player's combo: the combo and its window are back to zero.
pub proof fn law_miss_breaks_combo(g: GameView, config: CombatConfig, command: ActionCommand, i: int)
    requires
        g.mode != GameMode::MultiplayerDuel,
        player_slot(g.players, command.player_id) == Some(i),
        command.action is AttackLeft || command.action is AttackRight || command.action is ForcePush,
        command.action is ForcePush ==> g.players[i].force_cooldown_micros == 0,
        !(command.action is ForcePush) ==> g.players[i].attack_cooldown_micros == 0,
        apply_fits(g, config, command),
    ensures
        ({
            let (after, events) = apply_to_game(g, config, command);
            (forall|k: int| 0 <= k < events.len() ==> !(#[trigger] events[k] is DroneDestroyed))
                ==> after.players[i].combo == 0 && after.players[i].combo_expiry_micros == 0
        }),
{
    lemma_first_player_from(g.players, command.player_id, true, 0);
    let p = g.players[i];
    let action = command.action;
    let p1 = if action is ForcePush {
        PlayerState { guarding: false, force_cooldown_micros: config.force_cooldown_micros, ..p }
    } else {
        PlayerState { guarding: false, attack_cooldown_micros: config.attack_cooldown_micros, ..p }
    };
    let g1 = GameView { players: g.players.update(i, p1), ..g };
    let accepted = CombatEvent::PlayerActionAccepted { player_id: p.id, action };
    let (after, events) = apply_to_game(g, config, command);
    if action is ForcePush {
        let pushed_drones = crate::rules::pushed(g1.drones);
        let ids = crate::rules::destroyed_ids(pushed_drones);
        if ids.len() == 0 {
            let g2 = GameView { drones: pushed_drones, ..g1 };
            assert(roster_kept(g.players, g2.players));
            lemma_slot_follows_roster(g.players, g2.players, command.player_id, true, 0);
        } else {
            let g2 = GameView { drones: pushed_drones.filter(crate::rules::id_not_in(ids)), ..g1 };
            let rewarded = reward(g2, p.id, PlayerAction::ForcePush, 14).1;
            let tail = crate::rules::destroyed_events(ids, p.id);
            assert(events == seq![accepted] + (rewarded + tail));
            assert(events[1 + rewarded.len() as int] == tail[0]);
        }
    } else {
        match crate::rules::first_kill(g1.drones, action) {
            Some(k) => {
                let killed = g1.drones[k].id;
                let g2 = GameView {
                    drones: crate::rules::struck(g1.drones, action, k + 1).filter(
                        crate::rules::id_other_than(killed),
                    ),
                    ..g1
                };
                let rewarded = reward(g2, p.id, action, 10).1;
                let done = rewarded.push(CombatEvent::DroneDestroyed { drone_id: killed, player_id: p.id });
                assert(events == seq![accepted] + done);
                assert(events[events.len() - 1] is DroneDestroyed);
            },
            None => {
                let g2 = GameView {
                    drones: crate::rules::struck(g1.drones, action, g1.drones.len() as int),
                    ..g1
                };
                assert(roster_kept(g.players, g2.players));
                lemma_slot_follows_roster(g.players, g2.players, command.player_id, true, 0);
            },
        }
    }
}

// ---------------------------------------------------------------- duel rounds

/// In a duel, a strike that knocks the opponent out wins the round for the striker's
/// side: player 0 scores a round for side one, any other player for side two; the other
/// side's count stays, the round clock restarts and everyone is back to full health.
/// A strike that leaves the opponent standing counts no round.
pub proof fn law_duel_knockout_counts_round(
    g: GameView,
    config: CombatConfig,
    command: ActionCommand,
    i: int,
    t: int,
    m: crate::multiplayer::MatchState,
)
    requires
        g.mode == GameMode::MultiplayerDuel,
        command.action is AttackLeft || command.action is AttackRight || command.action is ForcePush,
        player_slot(g.players, command.player_id) == Some(i),
        command.action is ForcePush ==> g.players[i].force_cooldown_micros == 0,
        !(command.action is ForcePush) ==> g.players[i].attack_cooldown_micros == 0,
        crate::rules::opponent_slot(g.players, command.player_id) == Some(t),
        g.match_state == Some(m),
        apply_fits(g, config, command),
    ensures
        ({
            let after = apply_to_game(g, config, command).0;
            &&& g.players[t].health <= 2 ==> {
                &&& after.match_state matches Some(m2) && {
                    &&& m2.round_time_remaining_micros == crate::multiplayer::ROUND_MICROS
                    &&& if command.player_id == 0 {
                        m2.duel_scoreboard.player_one_rounds == m.duel_scoreboard.player_one_rounds + 1
                            && m2.duel_scoreboard.player_two_rounds
                            == m.duel_scoreboard.player_two_rounds
                    } else {
                        m2.duel_scoreboard.player_two_rounds == m.duel_scoreboard.player_two_rounds + 1
                            && m2.duel_scoreboard.player_one_rounds
                            == m.duel_scoreboard.player_one_rounds
                    }
                }
                &&& forall|j: int| 0 <= j < after.players.len() ==> #[trigger] after.players[j].health == 100
            }
            &&& g.players[t].health > 10 ==> after.match_state == g.match_state
        }),
{
    lemma_first_player_from(g.players, command.player_id, true, 0);
    lemma_first_player_from(g.players, command.player_id, false, 0);
    let p = g.players[i];
    let action = command.action;
    let p1 = if action is ForcePush {
        PlayerState { guarding: false, force_cooldown_micros: config.force_cooldown_micros, ..p }
    } else {
        PlayerState { guarding: false, attack_cooldown_micros: config.attack_cooldown_micros, ..p }
    };
    let g1 = GameView { players: g.players.update(i, p1), ..g };
    assert(i != t);
    assert(roster_kept(g.players, g1.players));
    lemma_slot_follows_roster(g.players, g1.players, command.player_id, false, 0);
    let target = g1.players[t];
    let (guarded, full, base) = if action is ForcePush {
        (2i32, 8i32, 14int)
    } else {
        (4i32, 10i32, 12int)
    };
    let damage = if target.guarding { guarded } else { full };
    let hurt = PlayerState {
        health: crate::rules::floor_zero(target.health - damage) as i32,
        ..target
    };
    let g2 = GameView { players: g1.players.update(t, hurt), ..g1 };
    assert(roster_kept(g.players, g2.players));
    lemma_slot_follows_roster(g.players, g2.players, command.player_id, true, 0);
    let g3 = reward(g2, p.id, action, base).0;
    assert(g3.players[t] == hurt);
    assert(g3.match_state == g.match_state);
    assert(apply_to_game(g, config, command).0 == duel_strike(g1, p.id, action, guarded, full, base).0);
}

// ---------------------------------------------------------------- workout counts

/// Counts that follow the action: the number of successes grows by at most one, and
/// the swing count (for a left or right swing) or the push count (for a force push)
/// grows by exactly as much; the other count stays.
pub open spec fn counts_follow(
    before: Option<FitnessMetrics>,
    after: Option<FitnessMetrics>,
    action: PlayerAction,
) -> bool {
    match before {
        None => after is None,
        Some(f) => after matches Some(a) && {
            let won = a.successful_actions - f.successful_actions;
            &&& won == 0 || won == 1
            &&& a.swings_performed - f.swings_performed == if action is AttackLeft
                || action is AttackRight {
                won
            } else {
                0
            }
            &&& a.force_pushes_performed - f.force_pushes_performed == if action is ForcePush {
                won
            } else {
                0
            }
        },
    }
}

proof fn lemma_reward_counts(g: GameView, id: u8, action: PlayerAction, base: int)
    requires
        reward_fits(g, id, action, base),
    ensures
        counts_follow(g.fitness, reward(g, id, action, base).0.fitness, action),
{
}

proof fn lemma_reset_counts(g: GameView, id: u8, action: PlayerAction)
    ensures
        counts_follow(g.fitness, reset_combo(g, id).fitness, action),
{
}

proof fn lemma_slash_counts(g: GameView, id: u8, action: PlayerAction)
    requires
        slash_fits(g, id, action),
    ensures
        counts_follow(g.fitness, slash(g, id, action).0.fitness, action),
{
    match crate::rules::first_kill(g.drones, action) {
        Some(k) => {
            let drones = crate::rules::struck(g.drones, action, k + 1).filter(
                crate::rules::id_other_than(g.drones[k].id),
            );
            lemma_reward_counts(GameView { drones, ..g }, id, action, 10);
        },
        None => {
            lemma_reset_counts(
                GameView { drones: crate::rules::struck(g.drones, action, g.drones.len() as int), ..g },
                id,
                action,
            );
        },
    }
}

proof fn lemma_push_counts(g: GameView, id: u8)
    requires
        push_fits(g, id),
    ensures
        counts_follow(g.fitness, force_push(g, id).0.fitness, PlayerAction::ForcePush),
{
    let after = crate::rules::pushed(g.drones);
    let ids = crate::rules::destroyed_ids(after);
    if ids.len() == 0 {
        lemma_reset_counts(GameView { drones: after, ..g }, id, PlayerAction::ForcePush);
    } else {
        lemma_reward_counts(
            GameView { drones: after.filter(crate::rules::id_not_in(ids)), ..g },
            id,
            PlayerAction::ForcePush,
            14,
        );
    }
}

proof fn lemma_duel_counts(
    g: GameView,
    id: u8,
    action: PlayerAction,
    guarded: i32,
    full: i32,
    base: int,
)
    requires
        duel_fits(g, id, action, guarded, full, base),
    ensures
        counts_follow(g.fitness, duel_strike(g, id, action, guarded, full, base).0.fitness, action),
{
    match crate::rules::opponent_slot(g.players, id) {
        None => {
            lemma_reset_counts(g, id, action);
        },
        Some(t) => {
            let target = g.players[t];
            let damage = if target.guarding { guarded } else { full };
            let hurt = PlayerState {
                health: crate::rules::floor_zero(target.health - damage) as i32,
                ..target
            };
            lemma_reward_counts(GameView { players: g.players.update(t, hurt), ..g }, id, action, base);
        },
    }
}

/// Workout counts follow the action: every command counts at most one success, and a
/// success with a left or right swing adds exactly one swing, a success with a force
/// push exactly one push, and nothing else moves either count.
pub proof fn law_workout_counts_follow_action(g: GameView, config: CombatConfig, command: ActionCommand)
    requires
        apply_fits(g, config, command),
    ensures
        counts_follow(g.fitness, apply_to_game(g, config, command).0.fitness, command.action),
{
    lemma_first_player_from(g.players, command.player_id, true, 0);
    match player_slot(g.players, command.player_id) {
        None => {},
        Some(i) => {
            let p = g.players[i];
            let action = command.action;
            let cooling = if action is ForcePush {
                p.force_cooldown_micros > 0
            } else {
                p.attack_cooldown_micros > 0
            };
            if (action is AttackLeft || action is AttackRight || action is ForcePush) && !cooling {
                let p1 = if action is ForcePush {
                    PlayerState { guarding: false, force_cooldown_micros: config.force_cooldown_micros, ..p }
                } else {
                    PlayerState { guarding: false, attack_cooldown_micros: config.attack_cooldown_micros, ..p }
                };
                let g1 = GameView { players: g.players.update(i, p1), ..g };
                if g.mode is MultiplayerDuel {
                    if action is ForcePush {
                        lemma_duel_counts(g1, p.id, action, 2, 8, 14);
                    } else {
                        lemma_duel_counts(g1, p.id, action, 4, 10, 12);
                    }
                } else if action is ForcePush {
                    lemma_push_counts(g1, p.id);
                } else {
                    lemma_slash_counts(g1, p.id, action);
                }
            }
        },
    }
}

/// The workout counted one more success.
pub open spec fn success_counted(before: Option<FitnessMetrics>, after: Option<FitnessMetrics>) -> bool {
    before matches Some(f) && after matches Some(a) && a.successful_actions > f.successful_actions
}

proof fn lemma_reward_scores(g: GameView, id: u8, action: PlayerAction, base: int, i: int)
    requires
        reward_fits(g, id, action, base),
        player_slot(g.players, id) == Some(i),
        10 <= base <= 14,
    ensures
        reward(g, id, action, base).0.players[i].score > g.players[i].score,
        g.fitness is Some ==> success_counted(g.fitness, reward(g, id, action, base).0.fitness),
{
    lemma_first_player_from(g.players, id, true, 0);
}

/// In fitness mode a command counts a success exactly when it raises the player's score.
pub proof fn law_success_counted_when_scored(
    g: GameView,
    config: CombatConfig,
    command: ActionCommand,
    i: int,
)
    requires
        apply_fits(g, config, command),
        player_slot(g.players, command.player_id) == Some(i),
        g.fitness is Some,
    ensures
        success_counted(g.fitness, apply_to_game(g, config, command).0.fitness) == (apply_to_game(
            g,
            config,
            command,
        ).0.players[i].score > g.players[i].score),
{
    lemma_first_player_from(g.players, command.player_id, true, 0);
    let p = g.players[i];
    let action = command.action;
    let cooling = if action is ForcePush {
        p.force_cooldown_micros > 0
    } else {
        p.attack_cooldown_micros > 0
    };
    if (action is AttackLeft || action is AttackRight || action is ForcePush) && !cooling {
        let p1 = if action is ForcePush {
            PlayerState { guarding: false, force_cooldown_micros: config.force_cooldown_micros, ..p }
        } else {
            PlayerState { guarding: false, attack_cooldown_micros: config.attack_cooldown_micros, ..p }
        };
        let g1 = GameView { players: g.players.update(i, p1), ..g };
        assert(roster_kept(g.players, g1.players));
        if g.mode is MultiplayerDuel {
            lemma_first_player_from(g1.players, p.id, false, 0);
            let (guarded, full, base) = if action is ForcePush {
                (2i32, 8i32, 14int)
            } else {
                (4i32, 10i32, 12int)
            };
            assert(apply_to_game(g, config, command).0 == duel_strike(g1, p.id, action, guarded, full, base).0);
            match crate::rules::opponent_slot(g1.players, p.id) {
                None => {
                    lemma_slot_follows_roster(g.players, g1.players, command.player_id, true, 0);
                    lemma_reset_frame(g1, p.id);
                },
                Some(t) => {
                    let target = g1.players[t];
                    let damage = if target.guarding { guarded } else { full };
                    let hurt = PlayerState {
                        health: crate::rules::floor_zero(target.health - damage) as i32,
                        ..target
                    };
                    let g2 = GameView { players: g1.players.update(t, hurt), ..g1 };
                    assert(roster_kept(g.players, g2.players));
                    lemma_slot_follows_roster(g.players, g2.players, command.player_id, true, 0);
                    lemma_reward_scores(g2, p.id, action, base, i);
                },
            }
        } else if action is ForcePush {
            let after = crate::rules::pushed(g1.drones);
            let ids = crate::rules::destroyed_ids(after);
            if ids.len() == 0 {
                let g2 = GameView { drones: after, ..g1 };
                assert(roster_kept(g.players, g2.players));
                lemma_slot_follows_roster(g.players, g2.players, command.player_id, true, 0);
                lemma_reset_frame(g2, p.id);
            } else {
                let g2 = GameView { drones: after.filter(crate::rules::id_not_in(ids)), ..g1 };
                assert(roster_kept(g.players, g2.players));
                lemma_slot_follows_roster(g.players, g2.players, command.player_id, true, 0);
                lemma_reward_scores(g2, p.id, action, 14, i);
            }
        } else {
            match crate::rules::first_kill(g1.drones, action) {
                Some(k) => {
                    let g2 = GameView {
                        drones: crate::rules::struck(g1.drones, action, k + 1).filter(
                            crate::rules::id_other_than(g1.drones[k].id),
                        ),
                        ..g1
                    };
                    assert(roster_kept(g.players, g2.players));
                    lemma_slot_follows_roster(g.players, g2.players, command.player_id, true, 0);
                    lemma_reward_scores(g2, p.id, action, 10, i);
                },
                None => {
                    let g2 = GameView {
                        drones: crate::rules::struck(g1.drones, action, g1.drones.len() as int),
                        ..g1
                    };
                    assert(roster_kept(g.players, g2.players));
                    lemma_slot_follows_roster(g.players, g2.players, command.player_id, true, 0);
                    lemma_reset_frame(g2, p.id);
                },
            }
        }
    }
}

} // verus!
