use vstd::prelude::*;

use crate::combat::{
    CombatConfig, CombatEvent, DroneArchetype, DroneState, PlayerState, COMBO_EXPIRY_MICROS,
    FORCE_PUSH_REACH, PROGRESS_FULL, PROGRESS_PER_MICRO, STAGGER_MICROS,
};
use crate::command::{ActionCommand, PlayerAction};
use crate::fitness::{phase_for, FitnessMetrics, FitnessPhase};
use crate::game_mode::GameMode;
use crate::multiplayer::{DuelScoreboard, MatchState, ROUND_MICROS};

verus! {

/// The mathematical picture of a game in progress: what `GameState` holds,
/// with its vectors seen as sequences.
#[verifier::ext_equal]
pub struct GameView {
    pub mode: GameMode,
    pub players: Seq<PlayerState>,
    pub drones: Seq<DroneState>,
    pub wave_index: u32,
    pub elapsed_micros: u64,
    pub fitness: Option<FitnessMetrics>,
    pub match_state: Option<MatchState>,
}

/// Waves past this one cannot be numbered: the ids of their drones would not fit in a `u32`.
pub const MAX_WAVE: u32 = 42_524_428;

/// Health every duel player gets back when a round ends.
pub const DUEL_ROUND_HEALTH: i32 = 100;

// ---------------------------------------------------------------- arithmetic

pub open spec fn sat_sub(a: u64, b: u64) -> u64 {
    if a >= b { (a - b) as u64 } else { 0 }
}

pub open spec fn sat_add(a: u64, b: int) -> u64 {
    if a + b <= u64::MAX { (a + b) as u64 } else { u64::MAX }
}

pub open spec fn floor_zero(x: int) -> int {
    if x < 0 { 0 } else { x }
}

// ---------------------------------------------------------------- spawning

pub open spec fn archetype_for(idx: int) -> DroneArchetype {
    if idx % 3 == 0 {
        DroneArchetype::Basic
    } else if idx % 3 == 1 {
        DroneArchetype::Shield
    } else {
        DroneArchetype::Heavy
    }
}

/// The drone that stands at position `idx` of a freshly spawned wave.
pub open spec fn fresh_drone(id: u32, idx: int) -> DroneState {
    DroneState {
        id,
        archetype: archetype_for(idx),
        health: (idx % 3 + 1) as i32,
        lane: (idx % 3 - 1) as i8,
        progress: 0,
        shielded: idx % 3 == 1,
        staggered_micros: 0,
    }
}

/// The opening drones of a game: ids count up from zero.
pub open spec fn opening_drones(count: nat) -> Seq<DroneState> {
    Seq::new(count, |i: int| fresh_drone(i as u32, i))
}

/// The drones of wave `wave`: two more than the wave number, ids `wave * 100 + idx`.
pub open spec fn wave_drones(wave: u32) -> Seq<DroneState> {
    Seq::new((wave + 2) as nat, |i: int| fresh_drone((wave * 100 + i) as u32, i))
}

pub open spec fn fresh_player(idx: int, health: i32) -> PlayerState {
    PlayerState {
        id: idx as u8,
        health,
        guarding: false,
        score: 0,
        combo: 0,
        combo_expiry_micros: 0,
        attack_cooldown_micros: 0,
        force_cooldown_micros: 0,
    }
}

pub open spec fn default_metrics() -> FitnessMetrics {
    FitnessMetrics {
        swings_performed: 0,
        force_pushes_performed: 0,
        active_time_micros: 0,
        successful_actions: 0,
        best_combo: 0,
        effort_tenths: 0,
        phase: FitnessPhase::WarmUp,
    }
}

pub open spec fn default_match() -> MatchState {
    MatchState {
        round_time_remaining_micros: ROUND_MICROS,
        rounds_to_win: 2,
        duel_scoreboard: DuelScoreboard { player_one_rounds: 0, player_two_rounds: 0 },
    }
}

/// A new game: `player_count` players at full health, the opening drones, wave one.
pub open spec fn new_game(
    mode: GameMode,
    max_health: i32,
    starting_drones: nat,
    player_count: nat,
) -> GameView {
    GameView {
        mode,
        players: Seq::new(player_count, |i: int| fresh_player(i, max_health)),
        drones: opening_drones(starting_drones),
        wave_index: 1,
        elapsed_micros: 0,
        fitness: if mode is FitnessMode { Some(default_metrics()) } else { None },
        match_state: if mode is MultiplayerDuel { Some(default_match()) } else { None },
    }
}

// ---------------------------------------------------------------- the passage of time

/// A player after `delta` microseconds: cooldowns and the combo window run down,
/// and a combo whose window has closed is lost.
pub open spec fn tick_player(p: PlayerState, delta: u64) -> PlayerState {
    let expiry = sat_sub(p.combo_expiry_micros, delta);
    PlayerState {
        attack_cooldown_micros: sat_sub(p.attack_cooldown_micros, delta),
        force_cooldown_micros: sat_sub(p.force_cooldown_micros, delta),
        combo_expiry_micros: expiry,
        combo: if expiry == 0 { 0 } else { p.combo },
        ..p
    }
}

/// A drone after `delta` microseconds: it comes closer and its stagger runs down.
pub open spec fn advance_drone(d: DroneState, delta: u64) -> DroneState {
    DroneState {
        progress: sat_add(d.progress, PROGRESS_PER_MICRO * delta),
        staggered_micros: sat_sub(d.staggered_micros, delta),
        ..d
    }
}

pub open spec fn has_breached(d: DroneState) -> bool {
    d.progress >= PROGRESS_FULL
}

pub open spec fn holds_position() -> spec_fn(DroneState) -> bool {
    |d: DroneState| !has_breached(d)
}

pub open spec fn breach_damage_of(a: DroneArchetype) -> int {
    match a {
        DroneArchetype::Basic => 6,
        DroneArchetype::Shield => 10,
        DroneArchetype::Heavy => 16,
    }
}

/// Total damage of the drones in `ds` that have breached.
pub open spec fn breach_total(ds: Seq<DroneState>) -> int
    decreases ds.len(),
{
    if ds.len() == 0 {
        0
    } else {
        breach_total(ds.drop_last()) + if has_breached(ds.last()) {
            breach_damage_of(ds.last().archetype)
        } else {
            0
        }
    }
}

/// Damage that reaches a player: guarding halves it, but never below one point.
pub open spec fn guarded_damage(total: int, guarding: bool) -> int {
    if guarding {
        if total / 2 < 1 { 1 } else { total / 2 }
    } else {
        total
    }
}

pub open spec fn take_breach(p: PlayerState, total: int) -> PlayerState {
    PlayerState { health: floor_zero(p.health - guarded_damage(total, p.guarding)) as i32, ..p }
}

pub open spec fn tick_fitness(f: FitnessMetrics, delta: u64) -> FitnessMetrics {
    let active = sat_add(f.active_time_micros, delta as int);
    FitnessMetrics { active_time_micros: active, phase: phase_for(active), ..f }
}

pub open spec fn tick_match(m: MatchState, delta: u64) -> MatchState {
    MatchState { round_time_remaining_micros: sat_sub(m.round_time_remaining_micros, delta), ..m }
}

/// The drones after `delta` microseconds, before the breached ones leave.
pub open spec fn advanced_drones(g: GameView, delta: u64) -> Seq<DroneState> {
    Seq::new(g.drones.len(), |i: int| advance_drone(g.drones[i], delta))
}

/// Whether `delta` microseconds clear the field and bring the next wave: outside
/// duels, when no drone holds its position.
pub open spec fn spawns_wave(g: GameView, delta: u64) -> bool {
    g.mode.spawns_waves() && advanced_drones(g, delta).filter(holds_position()).len() == 0
}

/// The game after `delta` microseconds have passed.
pub open spec fn update_game(g: GameView, delta: u64) -> GameView {
    let ticked = Seq::new(g.players.len(), |i: int| tick_player(g.players[i], delta));
    let advanced = advanced_drones(g, delta);
    let total = breach_total(advanced);
    let players = if total > 0 && ticked.len() > 0 {
        ticked.update(0, take_breach(ticked[0], total))
    } else {
        ticked
    };
    let remaining = advanced.filter(holds_position());
    let next_wave = spawns_wave(g, delta);
    let wave = if next_wave { (g.wave_index + 1) as u32 } else { g.wave_index };
    GameView {
        mode: g.mode,
        players,
        drones: if next_wave { wave_drones(wave) } else { remaining },
        wave_index: wave,
        elapsed_micros: sat_add(g.elapsed_micros, delta as int),
        fitness: match g.fitness {
            Some(f) => Some(tick_fitness(f, delta)),
            None => None,
        },
        match_state: match g.match_state {
            Some(m) => Some(tick_match(m, delta)),
            None => None,
        },
    }
}

// ---------------------------------------------------------------- finding players

/// The first position at or after `from` whose player has id `id` (when `same`)
/// or an id other than `id` (when not `same`).
pub open spec fn first_player_from(ps: Seq<PlayerState>, id: u8, same: bool, from: int) -> Option<int>
    decreases ps.len() - from,
{
    if from < 0 || from >= ps.len() {
        None
    } else if (ps[from].id == id) == same {
        Some(from)
    } else {
        first_player_from(ps, id, same, from + 1)
    }
}

/// What `first_player_from` finds: the first position, from `from` on, whose id test comes out as `same`.
pub proof fn lemma_first_player_from(ps: Seq<PlayerState>, id: u8, same: bool, from: int)
    requires
        0 <= from,
    ensures
        match first_player_from(ps, id, same, from) {
            Some(i) => from <= i < ps.len() && (ps[i].id == id) == same && forall|j: int|
                from <= j < i ==> (#[trigger] ps[j].id == id) != same,
            None => forall|j: int| from <= j < ps.len() ==> (#[trigger] ps[j].id == id) != same,
        },
    decreases ps.len() - from,
{
    if from < ps.len() && (ps[from].id == id) != same {
        lemma_first_player_from(ps, id, same, from + 1);
    }
}

/// Position of the first player with the given id.
pub open spec fn player_slot(ps: Seq<PlayerState>, id: u8) -> Option<int> {
    first_player_from(ps, id, true, 0)
}

/// Position of the first player with another id: a duel opponent.
pub open spec fn opponent_slot(ps: Seq<PlayerState>, id: u8) -> Option<int> {
    first_player_from(ps, id, false, 0)
}

// ---------------------------------------------------------------- combos and rewards

pub open spec fn reset_combo(g: GameView, id: u8) -> GameView {
    match player_slot(g.players, id) {
        Some(i) => GameView {
            players: g.players.update(
                i,
                PlayerState { combo: 0, combo_expiry_micros: 0, ..g.players[i] },
            ),
            ..g
        },
        None => g,
    }
}

/// Effort an action is worth, in tenths of a point.
pub open spec fn effort_of(action: PlayerAction) -> int {
    match action {
        PlayerAction::ForcePush => 22,
        PlayerAction::AttackLeft | PlayerAction::AttackRight => 10,
        _ => 2,
    }
}

pub open spec fn count_success(f: FitnessMetrics, action: PlayerAction, combo: u32) -> FitnessMetrics {
    FitnessMetrics {
        swings_performed: if action.is_attack() {
            (f.swings_performed + 1) as u32
        } else {
            f.swings_performed
        },
        force_pushes_performed: if action is ForcePush {
            (f.force_pushes_performed + 1) as u32
        } else {
            f.force_pushes_performed
        },
        successful_actions: (f.successful_actions + 1) as u32,
        best_combo: if f.best_combo >= combo { f.best_combo } else { combo },
        effort_tenths: sat_add(f.effort_tenths, effort_of(action)),
        ..f
    }
}

/// A player after a success worth `base` points: the combo grows by one, its
/// window reopens, and every step of the combo beyond the first adds two points.
pub open spec fn rewarded_player(p: PlayerState, base: int) -> PlayerState {
    PlayerState {
        combo: (p.combo + 1) as u32,
        combo_expiry_micros: COMBO_EXPIRY_MICROS,
        score: (p.score + base + 2 * p.combo) as i32,
        ..p
    }
}

/// A success of player `id` with `action`, worth `base` points.
pub open spec fn reward(g: GameView, id: u8, action: PlayerAction, base: int) -> (GameView, Seq<CombatEvent>) {
    match player_slot(g.players, id) {
        None => (g, Seq::empty()),
        Some(i) => {
            let p = rewarded_player(g.players[i], base);
            let advanced = seq![CombatEvent::ComboAdvanced { player_id: id, combo: p.combo }];
            match g.fitness {
                None => (GameView { players: g.players.update(i, p), ..g }, advanced),
                Some(f) => (
                    GameView {
                        players: g.players.update(i, p),
                        fitness: Some(count_success(f, action, p.combo)),
                        ..g
                    },
                    advanced.push(CombatEvent::FitnessActionCounted { player_id: id, action }),
                ),
            }
        },
    }
}

// ---------------------------------------------------------------- saber swings

/// The lane a swing aims at: left is -1, right is 1.
pub open spec fn target_lane(action: PlayerAction) -> int {
    match action {
        PlayerAction::AttackLeft => -1,
        PlayerAction::AttackRight => 1,
        _ => 0,
    }
}

/// A swing reaches a drone in its lane, and every basic drone, but a shield drone
/// turns a left swing aside.
pub open spec fn swing_hits(d: DroneState, action: PlayerAction) -> bool {
    (d.lane == target_lane(action) || d.archetype is Basic)
        && !(d.archetype is Shield && action is AttackLeft)
}

pub open spec fn swing_kills(d: DroneState, action: PlayerAction) -> bool {
    swing_hits(d, action) && d.health <= 1
}

/// Position of the first drone that the swing destroys.
pub open spec fn first_kill_from(ds: Seq<DroneState>, action: PlayerAction, from: int) -> Option<int>
    decreases ds.len() - from,
{
    if from < 0 || from >= ds.len() {
        None
    } else if swing_kills(ds[from], action) {
        Some(from)
    } else {
        first_kill_from(ds, action, from + 1)
    }
}

/// What `first_kill_from` finds: the first position, from `from` on, of a drone the swing destroys.
pub proof fn lemma_first_kill_from(ds: Seq<DroneState>, action: PlayerAction, from: int)
    requires
        0 <= from,
    ensures
        match first_kill_from(ds, action, from) {
            Some(k) => from <= k < ds.len() && swing_kills(ds[k], action) && forall|j: int|
                from <= j < k ==> !swing_kills(#[trigger] ds[j], action),
            None => forall|j: int| from <= j < ds.len() ==> !swing_kills(#[trigger] ds[j], action),
        },
    decreases ds.len() - from,
{
    if from < ds.len() && !swing_kills(ds[from], action) {
        lemma_first_kill_from(ds, action, from + 1);
    }
}

pub open spec fn first_kill(ds: Seq<DroneState>, action: PlayerAction) -> Option<int> {
    first_kill_from(ds, action, 0)
}

/// The drones after the swing has struck every reached drone before position `upto`.
pub open spec fn struck(ds: Seq<DroneState>, action: PlayerAction, upto: int) -> Seq<DroneState> {
    Seq::new(
        ds.len(),
        |i: int|
            if i < upto && swing_hits(ds[i], action) {
                DroneState { health: (ds[i].health - 1) as i32, shielded: false, ..ds[i] }
            } else {
                ds[i]
            },
    )
}

pub open spec fn id_other_than(id: u32) -> spec_fn(DroneState) -> bool {
    |d: DroneState| d.id != id
}

/// A swing by player `id` outside a duel.
pub open spec fn slash(g: GameView, id: u8, action: PlayerAction) -> (GameView, Seq<CombatEvent>) {
    match first_kill(g.drones, action) {
        Some(k) => {
            let drone_id = g.drones[k].id;
            let drones = struck(g.drones, action, k + 1).filter(id_other_than(drone_id));
            let (g2, events) = reward(GameView { drones, ..g }, id, action, 10);
            (g2, events.push(CombatEvent::DroneDestroyed { drone_id, player_id: id }))
        },
        None => (
            reset_combo(GameView { drones: struck(g.drones, action, g.drones.len() as int), ..g }, id),
            seq![CombatEvent::PlayerActionRejected { player_id: id, action }],
        ),
    }
}

// ---------------------------------------------------------------- force pushes

pub open spec fn in_push_reach(d: DroneState) -> bool {
    d.progress > FORCE_PUSH_REACH
}

pub open spec fn pushed_drone(d: DroneState) -> DroneState {
    if in_push_reach(d) {
        DroneState {
            health: (d.health - push_loss(d)) as i32,
            staggered_micros: STAGGER_MICROS,
            ..d
        }
    } else {
        d
    }
}

pub open spec fn pushed(ds: Seq<DroneState>) -> Seq<DroneState> {
    Seq::new(ds.len(), |i: int| pushed_drone(ds[i]))
}

pub open spec fn push_destroyed() -> spec_fn(DroneState) -> bool {
    |d: DroneState| in_push_reach(d) && d.health <= 0
}

pub open spec fn drone_id() -> spec_fn(DroneState) -> u32 {
    |d: DroneState| d.id
}

/// Ids of the drones that a push destroyed, in order.
pub open spec fn destroyed_ids(after_push: Seq<DroneState>) -> Seq<u32> {
    after_push.filter(push_destroyed()).map_values(drone_id())
}

pub open spec fn id_not_in(ids: Seq<u32>) -> spec_fn(DroneState) -> bool {
    |d: DroneState| !ids.contains(d.id)
}

pub open spec fn destroyed_events(ids: Seq<u32>, player_id: u8) -> Seq<CombatEvent> {
    Seq::new(ids.len(), |i: int| CombatEvent::DroneDestroyed { drone_id: ids[i], player_id })
}

/// A force push by player `id` outside a duel.
pub open spec fn force_push(g: GameView, id: u8) -> (GameView, Seq<CombatEvent>) {
    let after = pushed(g.drones);
    let ids = destroyed_ids(after);
    if ids.len() == 0 {
        (
            reset_combo(GameView { drones: after, ..g }, id),
            seq![CombatEvent::PlayerActionRejected { player_id: id, action: PlayerAction::ForcePush }],
        )
    } else {
        let (g2, events) = reward(
            GameView { drones: after.filter(id_not_in(ids)), ..g },
            id,
            PlayerAction::ForcePush,
            14,
        );
        (g2, events + destroyed_events(ids, id))
    }
}

// ---------------------------------------------------------------- duels

/// The end of a duel round won by player `winner`: the winner's side scores a round,
/// the clock restarts, and every player is restored.
pub open spec fn round_over(g: GameView, winner: u8) -> GameView {
    GameView {
        match_state: match g.match_state {
            Some(m) => Some(
                MatchState {
                    duel_scoreboard: if winner == 0 {
                        DuelScoreboard {
                            player_one_rounds: (m.duel_scoreboard.player_one_rounds + 1) as u8,
                            ..m.duel_scoreboard
                        }
                    } else {
                        DuelScoreboard {
                            player_two_rounds: (m.duel_scoreboard.player_two_rounds + 1) as u8,
                            ..m.duel_scoreboard
                        }
                    },
                    round_time_remaining_micros: ROUND_MICROS,
                    ..m
                },
            ),
            None => None,
        },
        players: Seq::new(
            g.players.len(),
            |i: int|
                PlayerState {
                    health: DUEL_ROUND_HEALTH,
                    combo: 0,
                    combo_expiry_micros: 0,
                    guarding: false,
                    ..g.players[i]
                },
        ),
        ..g
    }
}

/// A duel strike by player `id`: the first player with another id takes `guarded`
/// damage if guarding and `full` otherwise.
pub open spec fn duel_strike(
    g: GameView,
    id: u8,
    action: PlayerAction,
    guarded: i32,
    full: i32,
    base: int,
) -> (GameView, Seq<CombatEvent>) {
    match opponent_slot(g.players, id) {
        None => (reset_combo(g, id), Seq::empty()),
        Some(t) => {
            let target = g.players[t];
            let damage = if target.guarding { guarded } else { full };
            let hurt = PlayerState { health: floor_zero(target.health - damage) as i32, ..target };
            let (g2, events) = reward(GameView { players: g.players.update(t, hurt), ..g }, id, action, base);
            let events = seq![CombatEvent::PlayerDamaged { player_id: target.id, damage }] + events;
            if g2.players[t].health <= 0 {
                (round_over(g2, id), events)
            } else {
                (g2, events)
            }
        },
    }
}

// ---------------------------------------------------------------- commands

pub open spec fn with_player(g: GameView, i: int, p: PlayerState) -> GameView {
    GameView { players: g.players.update(i, p), ..g }
}

/// What a command does to the game, and the events it reports.
pub open spec fn apply_to_game(g: GameView, config: CombatConfig, command: ActionCommand) -> (GameView, Seq<CombatEvent>) {
    match player_slot(g.players, command.player_id) {
        None => (g, Seq::empty()),
        Some(i) => {
            let p = g.players[i];
            let action = command.action;
            let accepted = CombatEvent::PlayerActionAccepted { player_id: p.id, action };
            let rejected = CombatEvent::PlayerActionRejected { player_id: p.id, action };
            match action {
                PlayerAction::AttackLeft | PlayerAction::AttackRight => {
                    if p.attack_cooldown_micros > 0 {
                        (g, seq![rejected])
                    } else {
                        let g1 = with_player(
                            g,
                            i,
                            PlayerState {
                                guarding: false,
                                attack_cooldown_micros: config.attack_cooldown_micros,
                                ..p
                            },
                        );
                        let (g2, events) = if g.mode is MultiplayerDuel {
                            duel_strike(g1, p.id, action, 4, 10, 12)
                        } else {
                            slash(g1, p.id, action)
                        };
                        (g2, seq![accepted] + events)
                    }
                },
                PlayerAction::ForcePush => {
                    if p.force_cooldown_micros > 0 {
                        (g, seq![rejected])
                    } else {
                        let g1 = with_player(
                            g,
                            i,
                            PlayerState {
                                guarding: false,
                                force_cooldown_micros: config.force_cooldown_micros,
                                ..p
                            },
                        );
                        let (g2, events) = if g.mode is MultiplayerDuel {
                            duel_strike(g1, p.id, action, 2, 8, 14)
                        } else {
                            force_push(g1, p.id)
                        };
                        (g2, seq![accepted] + events)
                    }
                },
                PlayerAction::GuardStart => (
                    with_player(g, i, PlayerState { guarding: true, ..p }),
                    seq![accepted],
                ),
                PlayerAction::GuardEnd => (
                    with_player(g, i, PlayerState { guarding: false, ..p }),
                    seq![accepted],
                ),
                PlayerAction::NoAction => (g, Seq::empty()),
            }
        },
    }
}

// ---------------------------------------------------------------- floor obstacles

/// Health a player loses when an obstacle catches them on the ground.
pub const OBSTACLE_DAMAGE: i32 = 8;

/// The game after the first player has been caught by a floor obstacle.
pub open spec fn obstacle_hit(g: GameView) -> GameView {
    if g.players.len() > 0 {
        GameView {
            players: g.players.update(
                0,
                PlayerState { health: floor_zero(g.players[0].health - OBSTACLE_DAMAGE) as i32, ..g.players[0] },
            ),
            ..g
        }
    } else {
        g
    }
}

// ---------------------------------------------------------------- reporting a frame

/// What a frame of play changed, in the terms the front end announces: a new wave,
/// fewer drones, a higher score, or lower health for some player.
#[derive(Debug, Clone, Copy, PartialEq, Eq, Structural)]
pub struct StepReport {
    pub wave_engaged: bool,
    pub drone_destroyed: bool,
    pub clean_hit: bool,
    pub impact_taken: bool,
}

/// The report of the frame that took the game from `before` to `after`; players are
/// compared position by position.
pub open spec fn step_report(before: GameView, after: GameView) -> StepReport {
    StepReport {
        wave_engaged: after.wave_index > before.wave_index,
        drone_destroyed: after.drones.len() < before.drones.len(),
        clean_hit: exists|i: int|
            0 <= i < before.players.len() && i < after.players.len() && #[trigger] after.players[i].score
                > before.players[i].score,
        impact_taken: exists|i: int|
            0 <= i < before.players.len() && i < after.players.len() && #[trigger] after.players[i].health
                < before.players[i].health,
    }
}

// ---------------------------------------------------------------- what fits in the integer types

/// A success worth `base` points can be scored by this player without leaving `i32`.
pub open spec fn player_reward_fits(p: PlayerState, base: int) -> bool {
    &&& base + 2 * p.combo <= i32::MAX
    &&& p.score + base + 2 * p.combo <= i32::MAX
}

/// The workout counters that a success with `action` advances have room left.
pub open spec fn metrics_fit_for(f: FitnessMetrics, action: PlayerAction) -> bool {
    &&& f.successful_actions < u32::MAX
    &&& (action.is_attack() ==> f.swings_performed < u32::MAX)
    &&& (action is ForcePush ==> f.force_pushes_performed < u32::MAX)
}

/// The success that `reward` counts fits in the integer types.
pub open spec fn reward_fits(g: GameView, id: u8, action: PlayerAction, base: int) -> bool {
    match player_slot(g.players, id) {
        None => true,
        Some(i) => player_reward_fits(g.players[i], base) && (g.fitness matches Some(f)
            ==> metrics_fit_for(f, action)),
    }
}

/// The swing that `slash` resolves fits: the drone it destroys can lose its point
/// of health, and the success can be counted.
pub open spec fn slash_fits(g: GameView, id: u8, action: PlayerAction) -> bool {
    match first_kill(g.drones, action) {
        Some(k) => g.drones[k].health > i32::MIN && reward_fits(g, id, action, 10),
        None => true,
    }
}

pub open spec fn push_loss(d: DroneState) -> int {
    if d.archetype is Heavy { 1 } else { 2 }
}

/// Every drone in reach of a push can lose the health the push takes.
pub open spec fn pushable(ds: Seq<DroneState>) -> bool {
    forall|i: int|
        0 <= i < ds.len() && in_push_reach(#[trigger] ds[i]) ==> ds[i].health >= i32::MIN
            + push_loss(ds[i])
}

/// The push that `force_push` resolves fits: every drone in reach can lose its
/// health, and a success, if any, can be counted.
pub open spec fn push_fits(g: GameView, id: u8) -> bool {
    &&& pushable(g.drones)
    &&& (destroyed_ids(pushed(g.drones)).len() > 0 ==> reward_fits(
        g,
        id,
        PlayerAction::ForcePush,
        14,
    ))
}

/// The duel strike that `duel_strike` resolves fits: the success can be counted,
/// and, when the strike ends the round, the winner's round count has room.
pub open spec fn duel_fits(
    g: GameView,
    id: u8,
    action: PlayerAction,
    guarded: i32,
    full: i32,
    base: int,
) -> bool {
    match opponent_slot(g.players, id) {
        None => true,
        Some(t) => {
            let target = g.players[t];
            let damage = if target.guarding { guarded } else { full };
            let hurt = PlayerState { health: floor_zero(target.health - damage) as i32, ..target };
            &&& reward_fits(GameView { players: g.players.update(t, hurt), ..g }, id, action, base)
            &&& (target.health <= damage ==> (g.match_state matches Some(m) ==> if id == 0 {
                m.duel_scoreboard.player_one_rounds < u8::MAX
            } else {
                m.duel_scoreboard.player_two_rounds < u8::MAX
            }))
        },
    }
}

/// What `apply_to_game` does with this command fits in the integer types: only the
/// counters and healths the command actually changes need room.
pub open spec fn apply_fits(g: GameView, config: CombatConfig, command: ActionCommand) -> bool {
    match player_slot(g.players, command.player_id) {
        None => true,
        Some(i) => {
            let p = g.players[i];
            let action = command.action;
            match action {
                PlayerAction::AttackLeft | PlayerAction::AttackRight => {
                    p.attack_cooldown_micros > 0 || {
                        let g1 = with_player(
                            g,
                            i,
                            PlayerState {
                                guarding: false,
                                attack_cooldown_micros: config.attack_cooldown_micros,
                                ..p
                            },
                        );
                        if g.mode is MultiplayerDuel {
                            duel_fits(g1, p.id, action, 4, 10, 12)
                        } else {
                            slash_fits(g1, p.id, action)
                        }
                    }
                },
                PlayerAction::ForcePush => {
                    p.force_cooldown_micros > 0 || {
                        let g1 = with_player(
                            g,
                            i,
                            PlayerState {
                                guarding: false,
                                force_cooldown_micros: config.force_cooldown_micros,
                                ..p
                            },
                        );
                        if g.mode is MultiplayerDuel {
                            duel_fits(g1, p.id, action, 2, 8, 14)
                        } else {
                            push_fits(g1, p.id)
                        }
                    }
                },
                _ => true,
            }
        },
    }
}

/// The time step fits: a wave is spawned only while its drones can still be numbered.
pub open spec fn update_fits(g: GameView, delta: u64) -> bool {
    spawns_wave(g, delta) ==> g.wave_index < MAX_WAVE
}

// ---------------------------------------------------------------- a game with room to spare

/// Every player with this id has room for the largest success.
pub open spec fn player_has_room(p: PlayerState) -> bool {
    player_reward_fits(p, 14)
}

pub open spec fn metrics_fit(f: FitnessMetrics) -> bool {
    &&& f.swings_performed < u32::MAX
    &&& f.force_pushes_performed < u32::MAX
    &&& f.successful_actions < u32::MAX
}

pub open spec fn scoreboard_fits(m: MatchState) -> bool {
    &&& m.duel_scoreboard.player_one_rounds < u8::MAX
    &&& m.duel_scoreboard.player_two_rounds < u8::MAX
}

/// Every counter that any command of player `id` could advance has room left.
pub open spec fn room_for_command(g: GameView, id: u8) -> bool {
    &&& forall|i: int| 0 <= i < g.players.len() && g.players[i].id == id ==> player_has_room(#[trigger] g.players[i])
    &&& (g.fitness matches Some(f) ==> metrics_fit(f))
    &&& (g.match_state matches Some(m) ==> scoreboard_fits(m))
}

/// Drone healths stay clear of the bottom of `i32`, so any hit can be subtracted.
pub open spec fn drones_hittable(ds: Seq<DroneState>) -> bool {
    forall|i: int| 0 <= i < ds.len() ==> #[trigger] ds[i].health >= i32::MIN + 2
}

} // verus!
