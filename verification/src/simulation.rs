use vstd::prelude::*;

use crate::combat::{
    CombatConfig, CombatEvent, DroneArchetype, DroneState, PlayerState, COMBO_EXPIRY_MICROS,
    FORCE_PUSH_REACH, PROGRESS_FULL, PROGRESS_PER_MICRO, STAGGER_MICROS,
};
use crate::command::{ActionCommand, PlayerAction};
use crate::fitness::{FitnessMetrics, FitnessPhase, PEAK_END_MICROS, WARM_UP_END_MICROS};
use crate::game_mode::GameMode;
use crate::multiplayer::{MatchState, ROUND_MICROS};
use crate::rules::{
    advance_drone, advanced_drones, apply_fits, apply_to_game, breach_damage_of, breach_total,
    destroyed_events, destroyed_ids, drone_id, duel_fits, duel_strike, first_kill, first_kill_from,
    first_player_from, force_push, fresh_drone, fresh_player, guarded_damage, holds_position,
    id_not_in, id_other_than, in_push_reach, lemma_first_kill_from, lemma_first_player_from,
    new_game, obstacle_hit, opening_drones, push_destroyed, push_fits, push_loss, pushable, pushed,
    pushed_drone, reset_combo, reward, reward_fits, slash, slash_fits, struck, swing_hits,
    tick_player, update_fits, update_game, wave_drones, with_player, step_report, DUEL_ROUND_HEALTH, GameView, StepReport,
    MAX_WAVE, OBSTACLE_DAMAGE,
};

verus! {

/// Settings of a simulation run.
#[derive(Debug, Clone, Copy, PartialEq, Eq, Structural)]
pub struct SimulationConfig {
    pub combat: CombatConfig,
    pub starting_drones: usize,
}

impl Default for SimulationConfig {
    fn default() -> (config: Self)
        ensures
            config == (SimulationConfig {
                combat: CombatConfig {
                    attack_cooldown_micros: 350_000,
                    force_cooldown_micros: 1_500_000,
                    combo_window_micros: 2_250_000,
                    player_max_health: 100,
                },
                starting_drones: 3,
            }),
    {
        SimulationConfig { combat: CombatConfig::default(), starting_drones: 3 }
    }
}

/// The whole state of one game. Times are in microseconds.
#[derive(Debug, Clone)]
pub struct GameState {
    pub mode: GameMode,
    pub players: Vec<PlayerState>,
    pub drones: Vec<DroneState>,
    pub wave_index: u32,
    pub elapsed_micros: u64,
    pub fitness: Option<FitnessMetrics>,
    pub match_state: Option<MatchState>,
}

impl View for GameState {
    type V = GameView;

    open spec fn view(&self) -> GameView {
        GameView {
            mode: self.mode,
            players: self.players@,
            drones: self.drones@,
            wave_index: self.wave_index,
            elapsed_micros: self.elapsed_micros,
            fitness: self.fitness,
            match_state: self.match_state,
        }
    }
}

/// The events that one command produced, in order.
#[derive(Debug)]
pub struct SimulationTickResult {
    pub events: Vec<CombatEvent>,
}

impl View for SimulationTickResult {
    type V = Seq<CombatEvent>;

    open spec fn view(&self) -> Seq<CombatEvent> {
        self.events@
    }
}

impl Default for SimulationTickResult {
    fn default() -> (result: Self)
        ensures
            result@ == Seq::<CombatEvent>::empty(),
    {
        SimulationTickResult { events: Vec::new() }
    }
}

// ---------------------------------------------------------------- spawning

fn make_drone(id: u32, idx: usize) -> (d: DroneState)
    ensures
        d == fresh_drone(id, idx as int),
{
    let slot = idx % 3;
    DroneState {
        id,
        archetype: if slot == 0 {
            DroneArchetype::Basic
        } else if slot == 1 {
            DroneArchetype::Shield
        } else {
            DroneArchetype::Heavy
        },
        health: (slot + 1) as i32,
        lane: (slot as i8) - 1,
        progress: 0,
        shielded: slot == 1,
        staggered_micros: 0,
    }
}

fn make_opening_drones(count: usize) -> (ds: Vec<DroneState>)
    ensures
        ds@ == opening_drones(count as nat),
{
    let mut ds: Vec<DroneState> = Vec::new();
    for idx in 0..count
        invariant
            ds.len() == idx,
            forall|j: int| 0 <= j < idx ==> ds@[j] == fresh_drone(j as u32, j),
    {
        ds.push(make_drone(idx as u32, idx));
    }
    assert(ds@ =~= opening_drones(count as nat));
    ds
}

fn make_wave(wave: u32) -> (ds: Vec<DroneState>)
    requires
        wave <= MAX_WAVE,
    ensures
        ds@ == wave_drones(wave),
{
    let count: usize = 2 + wave as usize;
    let mut ds: Vec<DroneState> = Vec::new();
    for idx in 0..count
        invariant
            count == wave + 2,
            wave <= MAX_WAVE,
            ds.len() == idx,
            forall|j: int| 0 <= j < idx ==> ds@[j] == fresh_drone((wave * 100 + j) as u32, j),
    {
        let id: u32 = wave * 100 + idx as u32;
        ds.push(make_drone(id, idx));
    }
    assert(ds@ =~= wave_drones(wave));
    ds
}

fn make_players(count: usize, health: i32) -> (ps: Vec<PlayerState>)
    ensures
        ps@ == Seq::new(count as nat, |i: int| fresh_player(i, health)),
{
    let mut ps: Vec<PlayerState> = Vec::new();
    for idx in 0..count
        invariant
            ps.len() == idx,
            forall|j: int| 0 <= j < idx ==> ps@[j] == fresh_player(j, health),
    {
        ps.push(
            PlayerState {
                id: idx as u8,
                health,
                guarding: false,
                score: 0,
                combo: 0,
                combo_expiry_micros: 0,
                attack_cooldown_micros: 0,
                force_cooldown_micros: 0,
            },
        );
    }
    assert(ps@ =~= Seq::new(count as nat, |i: int| fresh_player(i, health)));
    ps
}

// ---------------------------------------------------------------- the passage of time

fn ticked_players(ps: &Vec<PlayerState>, delta: u64) -> (out: Vec<PlayerState>)
    ensures
        out@ == Seq::new(ps@.len(), |i: int| tick_player(ps@[i], delta)),
{
    let mut out: Vec<PlayerState> = Vec::new();
    for i in 0..ps.len()
        invariant
            out.len() == i,
            forall|j: int| 0 <= j < i ==> out@[j] == tick_player(ps@[j], delta),
    {
        let p = ps[i];
        let expiry = p.combo_expiry_micros.saturating_sub(delta);
        out.push(
            PlayerState {
                attack_cooldown_micros: p.attack_cooldown_micros.saturating_sub(delta),
                force_cooldown_micros: p.force_cooldown_micros.saturating_sub(delta),
                combo_expiry_micros: expiry,
                combo: if expiry == 0 { 0 } else { p.combo },
                ..p
            },
        );
    }
    assert(out@ =~= Seq::new(ps@.len(), |i: int| tick_player(ps@[i], delta)));
    out
}

fn advance_all(ds: &Vec<DroneState>, delta: u64) -> (out: Vec<DroneState>)
    ensures
        out@ == Seq::new(ds@.len(), |i: int| advance_drone(ds@[i], delta)),
{
    let mut out: Vec<DroneState> = Vec::new();
    let step: u64 = if delta <= u64::MAX / PROGRESS_PER_MICRO {
        delta * PROGRESS_PER_MICRO
    } else {
        u64::MAX
    };
    for i in 0..ds.len()
        invariant
            step == (if PROGRESS_PER_MICRO * delta <= u64::MAX {
                PROGRESS_PER_MICRO * delta
            } else {
                u64::MAX as int
            }),
            out.len() == i,
            forall|j: int| 0 <= j < i ==> out@[j] == advance_drone(ds@[j], delta),
    {
        let d = ds[i];
        out.push(
            DroneState {
                progress: d.progress.saturating_add(step),
                staggered_micros: d.staggered_micros.saturating_sub(delta),
                ..d
            },
        );
    }
    assert(out@ =~= Seq::new(ds@.len(), |i: int| advance_drone(ds@[i], delta)));
    out
}

fn breach_damage(a: DroneArchetype) -> (d: u128)
    ensures
        d == breach_damage_of(a),
{
    match a {
        DroneArchetype::Basic => 6,
        DroneArchetype::Shield => 10,
        DroneArchetype::Heavy => 16,
    }
}

/// Splits the drones into those still holding position and the total damage of
/// those that breached.
fn sort_breaches(ds: &Vec<DroneState>) -> (out: (Vec<DroneState>, u128))
    ensures
        out.0@ == ds@.filter(holds_position()),
        out.1 == breach_total(ds@),
{
    let mut kept: Vec<DroneState> = Vec::new();
    let mut total: u128 = 0;
    for i in 0..ds.len()
        invariant
            kept@ == ds@.take(i as int).filter(holds_position()),
            total == breach_total(ds@.take(i as int)),
            total <= 16 * i,
    {
        let d = ds[i];
        proof {
            let pre = ds@.take(i as int);
            assert(ds@.take(i + 1) =~= pre.push(d));
            assert(ds@.take(i + 1).drop_last() =~= pre);
            pre.lemma_filter_push(d, holds_position());
        }
        if d.progress >= PROGRESS_FULL {
            total = total + breach_damage(d.archetype);
        } else {
            kept.push(d);
        }
    }
    assert(ds@.take(ds.len() as int) =~= ds@);
    (kept, total)
}

fn with_breach(p: PlayerState, total: u128) -> (q: PlayerState)
    requires
        total > 0,
    ensures
        q == (PlayerState {
            health: (if p.health - guarded_damage(total as int, p.guarding) < 0 {
                0
            } else {
                p.health - guarded_damage(total as int, p.guarding)
            }) as i32,
            ..p
        }),
{
    let applied: u128 = if p.guarding {
        if total / 2 < 1 { 1 } else { total / 2 }
    } else {
        total
    };
    let health: i32 = if p.health > 0 && (p.health as u128) > applied {
        (p.health as u128 - applied) as i32
    } else {
        0
    };
    PlayerState { health, ..p }
}

impl GameState {
    /// Starts a game: `player_count` players at full health, the opening drones,
    /// wave one, and the metrics or match state of the mode.
    pub fn new(mode: GameMode, config: &SimulationConfig, player_count: usize) -> (g: Self)
        ensures
            g@ == new_game(
                mode,
                config.combat.player_max_health,
                config.starting_drones as nat,
                player_count as nat,
            ),
    {
        let players = make_players(player_count, config.combat.player_max_health);
        let drones = make_opening_drones(config.starting_drones);
        let fitness = if mode == GameMode::FitnessMode {
            Some(FitnessMetrics::default())
        } else {
            None
        };
        let match_state = if mode == GameMode::MultiplayerDuel {
            Some(MatchState::default())
        } else {
            None
        };
        let g = GameState {
            mode,
            players,
            drones,
            wave_index: 1,
            elapsed_micros: 0,
            fitness,
            match_state,
        };
        assert(g@ =~= new_game(
            mode,
            config.combat.player_max_health,
            config.starting_drones as nat,
            player_count as nat,
        ));
        g
    }

    /// Lets `delta_micros` microseconds of game time pass.
    ///
    /// Cooldowns and combo windows run down, drones come closer, the drones that
    /// breach hurt the first player, and outside duels a cleared field brings the
    /// next wave.
    pub fn update(&mut self, delta_micros: u64)
        requires
            update_fits(old(self)@, delta_micros),
        ensures
            final(self)@ == update_game(old(self)@, delta_micros),
    {
        let ghost g0 = self@;
        self.elapsed_micros = self.elapsed_micros.saturating_add(delta_micros);
        let mut players = ticked_players(&self.players, delta_micros);
        let advanced = advance_all(&self.drones, delta_micros);
        let (remaining, total) = sort_breaches(&advanced);
        if total > 0 && players.len() > 0 {
            let hurt = with_breach(players[0], total);
            players.set(0, hurt);
        }
        self.players = players;
        self.drones = remaining;
        assert(advanced@ =~= advanced_drones(g0, delta_micros));
        if self.mode != GameMode::MultiplayerDuel && self.drones.len() == 0 {
            self.wave_index = self.wave_index + 1;
            self.drones = make_wave(self.wave_index);
        }
        match &mut self.fitness {
            Some(f) => {
                let active = f.active_time_micros.saturating_add(delta_micros);
                f.active_time_micros = active;
                f.phase = if active < WARM_UP_END_MICROS {
                    FitnessPhase::WarmUp
                } else if active < PEAK_END_MICROS {
                    FitnessPhase::Peak
                } else {
                    FitnessPhase::Recovery
                };
            },
            None => {},
        }
        match &mut self.match_state {
            Some(m) => {
                m.round_time_remaining_micros = m.round_time_remaining_micros.saturating_sub(
                    delta_micros,
                );
            },
            None => {},
        }
        assert(self@ =~= update_game(g0, delta_micros));
    }
}


// ---------------------------------------------------------------- finding players

fn find_player(ps: &Vec<PlayerState>, id: u8, same: bool) -> (r: Option<usize>)
    ensures
        match r {
            Some(i) => first_player_from(ps@, id, same, 0) == Some(i as int) && i < ps.len()
                && (ps@[i as int].id == id) == same,
            None => first_player_from(ps@, id, same, 0) is None,
        },
{
    let mut i: usize = 0;
    while i < ps.len()
        invariant
            i <= ps.len(),
            first_player_from(ps@, id, same, 0) == first_player_from(ps@, id, same, i as int),
        decreases ps.len() - i,
    {
        if (ps[i].id == id) == same {
            return Some(i);
        }
        i = i + 1;
    }
    None
}

// ---------------------------------------------------------------- saber swings

fn swing_reaches(d: &DroneState, action: PlayerAction) -> (b: bool)
    ensures
        b == swing_hits(*d, action),
{
    let lane: i8 = match action {
        PlayerAction::AttackLeft => -1,
        PlayerAction::AttackRight => 1,
        _ => 0,
    };
    let attack_matches = d.lane == lane || d.archetype == DroneArchetype::Basic;
    let shield_blocks = d.archetype == DroneArchetype::Shield && action == PlayerAction::AttackLeft;
    attack_matches && !shield_blocks
}

fn find_kill(ds: &Vec<DroneState>, action: PlayerAction) -> (r: Option<usize>)
    ensures
        match r {
            Some(k) => first_kill(ds@, action) == Some(k as int) && k < ds.len(),
            None => first_kill(ds@, action) is None,
        },
{
    let mut i: usize = 0;
    while i < ds.len()
        invariant
            i <= ds.len(),
            first_kill(ds@, action) == first_kill_from(ds@, action, i as int),
        decreases ds.len() - i,
    {
        if swing_reaches(&ds[i], action) && ds[i].health <= 1 {
            return Some(i);
        }
        i = i + 1;
    }
    None
}

fn strike(ds: &Vec<DroneState>, action: PlayerAction, upto: usize) -> (out: Vec<DroneState>)
    requires
        forall|i: int|
            0 <= i < upto && i < ds.len() && swing_hits(#[trigger] ds@[i], action) ==> ds@[i].health
                > i32::MIN,
    ensures
        out@ == struck(ds@, action, upto as int),
{
    let mut out: Vec<DroneState> = Vec::new();
    for i in 0..ds.len()
        invariant
            forall|j: int|
                0 <= j < upto && j < ds.len() && swing_hits(#[trigger] ds@[j], action) ==> ds@[j].health
                    > i32::MIN,
            out.len() == i,
            forall|j: int| 0 <= j < i ==> out@[j] == struck(ds@, action, upto as int)[j],
    {
        let d = ds[i];
        if i < upto && swing_reaches(&d, action) {
            out.push(DroneState { health: d.health - 1, shielded: false, ..d });
        } else {
            out.push(d);
        }
    }
    assert(out@ =~= struck(ds@, action, upto as int));
    out
}

fn without_id(ds: &Vec<DroneState>, id: u32) -> (out: Vec<DroneState>)
    ensures
        out@ == ds@.filter(id_other_than(id)),
{
    let mut out: Vec<DroneState> = Vec::new();
    for i in 0..ds.len()
        invariant
            out@ == ds@.take(i as int).filter(id_other_than(id)),
    {
        let d = ds[i];
        proof {
            assert(ds@.take(i + 1) =~= ds@.take(i as int).push(d));
            ds@.take(i as int).lemma_filter_push(d, id_other_than(id));
        }
        if d.id != id {
            out.push(d);
        }
    }
    assert(ds@.take(ds.len() as int) =~= ds@);
    out
}

// ---------------------------------------------------------------- force pushes

fn push_all(ds: &Vec<DroneState>) -> (out: Vec<DroneState>)
    requires
        pushable(ds@),
    ensures
        out@ == pushed(ds@),
{
    let mut out: Vec<DroneState> = Vec::new();
    for i in 0..ds.len()
        invariant
            pushable(ds@),
            out.len() == i,
            forall|j: int| 0 <= j < i ==> out@[j] == pushed_drone(ds@[j]),
    {
        let d = ds[i];
        if d.progress > FORCE_PUSH_REACH {
            let loss: i32 = if d.archetype == DroneArchetype::Heavy { 1 } else { 2 };
            out.push(DroneState { health: d.health - loss, staggered_micros: STAGGER_MICROS, ..d });
        } else {
            out.push(d);
        }
    }
    assert(out@ =~= pushed(ds@));
    out
}

fn collect_destroyed(after: &Vec<DroneState>) -> (ids: Vec<u32>)
    ensures
        ids@ == destroyed_ids(after@),
{
    let mut ids: Vec<u32> = Vec::new();
    for i in 0..after.len()
        invariant
            ids@ == after@.take(i as int).filter(push_destroyed()).map_values(drone_id()),
    {
        let d = after[i];
        proof {
            let pre = after@.take(i as int);
            assert(after@.take(i + 1) =~= pre.push(d));
            pre.lemma_filter_push(d, push_destroyed());
            assert(pre.filter(push_destroyed()).push(d).map_values(drone_id())
                =~= pre.filter(push_destroyed()).map_values(drone_id()).push(d.id));
        }
        if d.progress > FORCE_PUSH_REACH && d.health <= 0 {
            ids.push(d.id);
        }
    }
    assert(after@.take(after.len() as int) =~= after@);
    ids
}

fn holds_id(ids: &Vec<u32>, id: u32) -> (b: bool)
    ensures
        b == ids@.contains(id),
{
    for i in 0..ids.len()
        invariant
            forall|j: int| 0 <= j < i ==> ids@[j] != id,
    {
        if ids[i] == id {
            return true;
        }
    }
    false
}

fn without_ids(ds: &Vec<DroneState>, ids: &Vec<u32>) -> (out: Vec<DroneState>)
    ensures
        out@ == ds@.filter(id_not_in(ids@)),
{
    let mut out: Vec<DroneState> = Vec::new();
    for i in 0..ds.len()
        invariant
            out@ == ds@.take(i as int).filter(id_not_in(ids@)),
    {
        let d = ds[i];
        proof {
            assert(ds@.take(i + 1) =~= ds@.take(i as int).push(d));
            ds@.take(i as int).lemma_filter_push(d, id_not_in(ids@));
        }
        if !holds_id(ids, d.id) {
            out.push(d);
        }
    }
    assert(ds@.take(ds.len() as int) =~= ds@);
    out
}

// ---------------------------------------------------------------- duels

fn restored_players(ps: &Vec<PlayerState>) -> (out: Vec<PlayerState>)
    ensures
        out@ == Seq::new(
            ps@.len(),
            |i: int|
                PlayerState {
                    health: DUEL_ROUND_HEALTH,
                    combo: 0,
                    combo_expiry_micros: 0,
                    guarding: false,
                    ..ps@[i]
                },
        ),
{
    let mut out: Vec<PlayerState> = Vec::new();
    for i in 0..ps.len()
        invariant
            out.len() == i,
            forall|j: int|
                0 <= j < i ==> out@[j] == (PlayerState {
                    health: DUEL_ROUND_HEALTH,
                    combo: 0,
                    combo_expiry_micros: 0,
                    guarding: false,
                    ..ps@[j]
                }),
    {
        let p = ps[i];
        out.push(
            PlayerState {
                health: DUEL_ROUND_HEALTH,
                combo: 0,
                combo_expiry_micros: 0,
                guarding: false,
                ..p
            },
        );
    }
    assert(out@ =~= Seq::new(
        ps@.len(),
        |i: int|
            PlayerState {
                health: DUEL_ROUND_HEALTH,
                combo: 0,
                combo_expiry_micros: 0,
                guarding: false,
                ..ps@[i]
            },
    ));
    out
}

impl GameState {
    fn reset_combo(&mut self, player_id: u8)
        ensures
            final(self)@ == reset_combo(old(self)@, player_id),
    {
        let ghost g0 = self@;
        match find_player(&self.players, player_id, true) {
            Some(i) => {
                let p = self.players[i];
                self.players.set(i, PlayerState { combo: 0, combo_expiry_micros: 0, ..p });
            },
            None => {},
        }
        assert(self@ =~= reset_combo(g0, player_id));
    }

    fn reward_success(
        &mut self,
        player_id: u8,
        action: PlayerAction,
        result: &mut SimulationTickResult,
        base_score: i32,
    )
        requires
            0 <= base_score <= 14,
            reward_fits(old(self)@, player_id, action, base_score as int),
        ensures
            final(self)@ == reward(old(self)@, player_id, action, base_score as int).0,
            final(result)@ == old(result)@ + reward(old(self)@, player_id, action, base_score as int).1,
    {
        let ghost g0 = self@;
        let ghost r0 = result@;
        let i = match find_player(&self.players, player_id, true) {
            Some(i) => i,
            None => {
                assert(result@ =~= r0 + Seq::<CombatEvent>::empty());
                return;
            },
        };
        let p = self.players[i];
        assert(base_score + 2 * p.combo <= i32::MAX && p.score + base_score + 2 * p.combo
            <= i32::MAX);
        let combo = p.combo + 1;
        let step: i32 = (combo as i32 - 1) * 2;
        assert(step == 2 * p.combo);
        let gain: i32 = base_score + step;
        let q = PlayerState {
            combo,
            combo_expiry_micros: COMBO_EXPIRY_MICROS,
            score: p.score + gain,
            ..p
        };
        self.players.set(i, q);
        result.events.push(CombatEvent::ComboAdvanced { player_id, combo });
        match &mut self.fitness {
            Some(f) => {
                if action == PlayerAction::AttackLeft || action == PlayerAction::AttackRight {
                    f.swings_performed = f.swings_performed + 1;
                } else if action == PlayerAction::ForcePush {
                    f.force_pushes_performed = f.force_pushes_performed + 1;
                }
                f.successful_actions = f.successful_actions + 1;
                if f.best_combo < combo {
                    f.best_combo = combo;
                }
                let effort: u64 = if action == PlayerAction::ForcePush {
                    22
                } else if action == PlayerAction::AttackLeft || action == PlayerAction::AttackRight {
                    10
                } else {
                    2
                };
                f.effort_tenths = f.effort_tenths.saturating_add(effort);
                result.events.push(CombatEvent::FitnessActionCounted { player_id, action });
            },
            None => {},
        }
        assert(self@ =~= reward(g0, player_id, action, base_score as int).0);
        assert(result@ =~= r0 + reward(g0, player_id, action, base_score as int).1);
    }

    fn resolve_slash(&mut self, player_id: u8, action: PlayerAction, result: &mut SimulationTickResult)
        requires
            slash_fits(old(self)@, player_id, action),
        ensures
            final(self)@ == slash(old(self)@, player_id, action).0,
            final(result)@ == old(result)@ + slash(old(self)@, player_id, action).1,
    {
        let ghost g0 = self@;
        let ghost r0 = result@;
        proof {
            lemma_first_kill_from(g0.drones, action, 0);
        }
        let kill = find_kill(&self.drones, action);
        let upto = match kill {
            Some(k) => k + 1,
            None => self.drones.len(),
        };
        let hit = strike(&self.drones, action, upto);
        match kill {
            Some(k) => {
                let drone_id = self.drones[k].id;
                self.drones = without_id(&hit, drone_id);
                self.reward_success(player_id, action, result, 10);
                result.events.push(CombatEvent::DroneDestroyed { drone_id, player_id });
                assert(result@ =~= r0 + slash(g0, player_id, action).1);
            },
            None => {
                self.drones = hit;
                self.reset_combo(player_id);
                result.events.push(CombatEvent::PlayerActionRejected { player_id, action });
                assert(result@ =~= r0 + slash(g0, player_id, action).1);
            },
        }
        assert(self@ =~= slash(g0, player_id, action).0);
    }

    fn resolve_force_push(&mut self, player_id: u8, result: &mut SimulationTickResult)
        requires
            push_fits(old(self)@, player_id),
        ensures
            final(self)@ == force_push(old(self)@, player_id).0,
            final(result)@ == old(result)@ + force_push(old(self)@, player_id).1,
    {
        let ghost g0 = self@;
        let ghost r0 = result@;
        let after = push_all(&self.drones);
        let destroyed = collect_destroyed(&after);
        if destroyed.len() == 0 {
            self.drones = after;
            self.reset_combo(player_id);
            result.events.push(
                CombatEvent::PlayerActionRejected { player_id, action: PlayerAction::ForcePush },
            );
            assert(result@ =~= r0 + force_push(g0, player_id).1);
        } else {
            self.drones = without_ids(&after, &destroyed);
            self.reward_success(player_id, PlayerAction::ForcePush, result, 14);
            let ghost r1 = result@;
            for i in 0..destroyed.len()
                invariant
                    result@ == r1 + destroyed_events(destroyed@.take(i as int), player_id),
            {
                proof {
                    assert(destroyed_events(destroyed@.take(i + 1), player_id) =~= destroyed_events(
                        destroyed@.take(i as int),
                        player_id,
                    ).push(CombatEvent::DroneDestroyed { drone_id: destroyed@[i as int], player_id }));
                }
                result.events.push(CombatEvent::DroneDestroyed { drone_id: destroyed[i], player_id });
            }
            assert(destroyed@.take(destroyed.len() as int) =~= destroyed@);
            assert(result@ =~= r0 + force_push(g0, player_id).1);
        }
        assert(self@ =~= force_push(g0, player_id).0);
    }

    fn resolve_duel(
        &mut self,
        player_id: u8,
        action: PlayerAction,
        guarded: i32,
        full: i32,
        base_score: i32,
        result: &mut SimulationTickResult,
    )
        requires
            0 <= guarded,
            0 <= full,
            0 <= base_score <= 14,
            duel_fits(old(self)@, player_id, action, guarded, full, base_score as int),
        ensures
            final(self)@ == duel_strike(old(self)@, player_id, action, guarded, full, base_score as int).0,
            final(result)@ == old(result)@ + duel_strike(
                old(self)@,
                player_id,
                action,
                guarded,
                full,
                base_score as int,
            ).1,
    {
        let ghost g0 = self@;
        let ghost r0 = result@;
        let t = match find_player(&self.players, player_id, false) {
            Some(t) => t,
            None => {
                self.reset_combo(player_id);
                assert(result@ =~= r0 + Seq::<CombatEvent>::empty());
                return;
            },
        };
        let target = self.players[t];
        let damage = if target.guarding { guarded } else { full };
        let health = if target.health > damage { target.health - damage } else { 0 };
        self.players.set(t, PlayerState { health, ..target });
        result.events.push(CombatEvent::PlayerDamaged { player_id: target.id, damage });
        let ghost r1 = result@;
        let ghost g1 = self@;
        proof {
            lemma_first_player_from(g1.players, player_id, true, 0);
        }
        assert(r1 =~= r0 + seq![CombatEvent::PlayerDamaged { player_id: target.id, damage }]);
        self.reward_success(player_id, action, result, base_score);
        assert(self.players@.len() == g1.players.len());
        if self.players[t].health <= 0 {
            match &mut self.match_state {
                Some(m) => {
                    if player_id == 0 {
                        m.duel_scoreboard.player_one_rounds = m.duel_scoreboard.player_one_rounds + 1;
                    } else {
                        m.duel_scoreboard.player_two_rounds = m.duel_scoreboard.player_two_rounds + 1;
                    }
                    m.round_time_remaining_micros = ROUND_MICROS;
                },
                None => {},
            }
            self.players = restored_players(&self.players);
        }
        assert(result@ =~= r0 + duel_strike(g0, player_id, action, guarded, full, base_score as int).1);
        assert(self@ =~= duel_strike(g0, player_id, action, guarded, full, base_score as int).0);
    }

    /// Applies one command of one player and reports what happened.
    ///
    /// A command of a player who is not in the game changes nothing and reports nothing.
    /// An attack or force push still cooling down is rejected and changes nothing;
    /// otherwise it is accepted, starts its cooldown, drops the guard, and is resolved
    /// against the opponent in a duel or against the drones in the other modes.
    pub fn apply_command(&mut self, config: &SimulationConfig, command: ActionCommand) -> (result:
        SimulationTickResult)
        requires
            apply_fits(old(self)@, config.combat, command),
        ensures
            final(self)@ == apply_to_game(old(self)@, config.combat, command).0,
            result@ == apply_to_game(old(self)@, config.combat, command).1,
    {
        let ghost g0 = self@;
        let mut result = SimulationTickResult::default();
        let i = match find_player(&self.players, command.player_id, true) {
            Some(i) => i,
            None => {
                assert(self@ =~= g0);
                return result;
            },
        };
        let p = self.players[i];
        let action = command.action;
        match action {
            PlayerAction::AttackLeft | PlayerAction::AttackRight => {
                if p.attack_cooldown_micros > 0 {
                    result.events.push(CombatEvent::PlayerActionRejected { player_id: p.id, action });
                    assert(self@ =~= g0);
                    return result;
                }
                self.players.set(
                    i,
                    PlayerState {
                        guarding: false,
                        attack_cooldown_micros: config.combat.attack_cooldown_micros,
                        ..p
                    },
                );
                result.events.push(CombatEvent::PlayerActionAccepted { player_id: p.id, action });
                if self.mode == GameMode::MultiplayerDuel {
                    self.resolve_duel(p.id, action, 4, 10, 12, &mut result);
                } else {
                    self.resolve_slash(p.id, action, &mut result);
                }
            },
            PlayerAction::ForcePush => {
                if p.force_cooldown_micros > 0 {
                    result.events.push(CombatEvent::PlayerActionRejected { player_id: p.id, action });
                    assert(self@ =~= g0);
                    return result;
                }
                self.players.set(
                    i,
                    PlayerState {
                        guarding: false,
                        force_cooldown_micros: config.combat.force_cooldown_micros,
                        ..p
                    },
                );
                result.events.push(CombatEvent::PlayerActionAccepted { player_id: p.id, action });
                if self.mode == GameMode::MultiplayerDuel {
                    self.resolve_duel(p.id, action, 2, 8, 14, &mut result);
                } else {
                    self.resolve_force_push(p.id, &mut result);
                }
            },
            PlayerAction::GuardStart => {
                self.players.set(i, PlayerState { guarding: true, ..p });
                result.events.push(CombatEvent::PlayerActionAccepted { player_id: p.id, action });
            },
            PlayerAction::GuardEnd => {
                self.players.set(i, PlayerState { guarding: false, ..p });
                result.events.push(CombatEvent::PlayerActionAccepted { player_id: p.id, action });
            },
            PlayerAction::NoAction => {},
        }
        assert(self@ =~= apply_to_game(g0, config.combat, command).0);
        assert(result@ =~= apply_to_game(g0, config.combat, command).1);
        result
    }

    /// The first player runs into a floor obstacle without jumping: eight points of
    /// health are lost, down to zero at most.
    pub fn take_obstacle_hit(&mut self)
        ensures
            final(self)@ == obstacle_hit(old(self)@),
    {
        let ghost g0 = self@;
        if self.players.len() > 0 {
            let p = self.players[0];
            let health = if p.health > OBSTACLE_DAMAGE { p.health - OBSTACLE_DAMAGE } else { 0 };
            self.players.set(0, PlayerState { health, ..p });
        }
        assert(self@ =~= obstacle_hit(g0));
    }
}

// ---------------------------------------------------------------- what fits

fn copy_players(ps: &Vec<PlayerState>) -> (out: Vec<PlayerState>)
    ensures
        out@ == ps@,
{
    let mut out: Vec<PlayerState> = Vec::new();
    for i in 0..ps.len()
        invariant
            out@ == ps@.take(i as int),
    {
        out.push(ps[i]);
        assert(out@ =~= ps@.take(i + 1));
    }
    assert(ps@.take(ps.len() as int) =~= ps@);
    out
}

fn success_fits(
    players: &Vec<PlayerState>,
    fitness: &Option<FitnessMetrics>,
    player_id: u8,
    action: PlayerAction,
    base_score: i32,
    Ghost(g): Ghost<GameView>,
) -> (b: bool)
    requires
        g.players == players@,
        g.fitness == *fitness,
        0 <= base_score <= 14,
    ensures
        b == reward_fits(g, player_id, action, base_score as int),
{
    let i = match find_player(players, player_id, true) {
        Some(i) => i,
        None => return true,
    };
    let p = players[i];
    let gain: i64 = base_score as i64 + 2 * (p.combo as i64);
    if gain > i32::MAX as i64 || p.score as i64 + gain > i32::MAX as i64 {
        return false;
    }
    match fitness {
        None => true,
        Some(f) => {
            let attack = action == PlayerAction::AttackLeft || action == PlayerAction::AttackRight;
            let push = action == PlayerAction::ForcePush;
            f.successful_actions < u32::MAX && (!attack || f.swings_performed < u32::MAX) && (!push
                || f.force_pushes_performed < u32::MAX)
        },
    }
}

fn swing_fits(
    players: &Vec<PlayerState>,
    drones: &Vec<DroneState>,
    fitness: &Option<FitnessMetrics>,
    player_id: u8,
    action: PlayerAction,
    Ghost(g): Ghost<GameView>,
) -> (b: bool)
    requires
        g.players == players@,
        g.drones == drones@,
        g.fitness == *fitness,
    ensures
        b == slash_fits(g, player_id, action),
{
    match find_kill(drones, action) {
        Some(k) => drones[k].health > i32::MIN && success_fits(
            players,
            fitness,
            player_id,
            action,
            10,
            Ghost(g),
        ),
        None => true,
    }
}

fn reach_fits(ds: &Vec<DroneState>) -> (b: bool)
    ensures
        b == pushable(ds@),
{
    for i in 0..ds.len()
        invariant
            forall|j: int|
                0 <= j < i && in_push_reach(#[trigger] ds@[j]) ==> ds@[j].health >= i32::MIN
                    + push_loss(ds@[j]),
    {
        let d = ds[i];
        if d.progress > FORCE_PUSH_REACH {
            let loss: i32 = if d.archetype == DroneArchetype::Heavy { 1 } else { 2 };
            if d.health < i32::MIN + loss {
                return false;
            }
        }
    }
    true
}

fn push_fits_now(
    players: &Vec<PlayerState>,
    drones: &Vec<DroneState>,
    fitness: &Option<FitnessMetrics>,
    player_id: u8,
    Ghost(g): Ghost<GameView>,
) -> (b: bool)
    requires
        g.players == players@,
        g.drones == drones@,
        g.fitness == *fitness,
    ensures
        b == push_fits(g, player_id),
{
    if !reach_fits(drones) {
        return false;
    }
    let after = push_all(drones);
    let destroyed = collect_destroyed(&after);
    if destroyed.len() > 0 {
        success_fits(players, fitness, player_id, PlayerAction::ForcePush, 14, Ghost(g))
    } else {
        true
    }
}

fn strike_fits(
    players: &Vec<PlayerState>,
    fitness: &Option<FitnessMetrics>,
    match_state: &Option<MatchState>,
    player_id: u8,
    action: PlayerAction,
    guarded: i32,
    full: i32,
    base_score: i32,
    Ghost(g): Ghost<GameView>,
) -> (b: bool)
    requires
        g.players == players@,
        g.fitness == *fitness,
        g.match_state == *match_state,
        0 <= guarded,
        0 <= full,
        0 <= base_score <= 14,
    ensures
        b == duel_fits(g, player_id, action, guarded, full, base_score as int),
{
    let t = match find_player(players, player_id, false) {
        Some(t) => t,
        None => return true,
    };
    let target = players[t];
    let damage = if target.guarding { guarded } else { full };
    let health = if target.health > damage { target.health - damage } else { 0 };
    let mut hurt = copy_players(players);
    hurt.set(t, PlayerState { health, ..target });
    let ghost g1 = GameView {
        players: g.players.update(t as int, PlayerState { health, ..target }),
        ..g
    };
    if !success_fits(&hurt, fitness, player_id, action, base_score, Ghost(g1)) {
        return false;
    }
    if target.health <= damage {
        match match_state {
            Some(m) => if player_id == 0 {
                m.duel_scoreboard.player_one_rounds < u8::MAX
            } else {
                m.duel_scoreboard.player_two_rounds < u8::MAX
            },
            None => true,
        }
    } else {
        true
    }
}

impl GameState {
    /// Whether `apply_command` can take this command: whether everything the command
    /// would change fits in its integer type.
    pub fn fits_command(&self, config: &SimulationConfig, command: ActionCommand) -> (fits: bool)
        ensures
            fits == apply_fits(self@, config.combat, command),
    {
        let i = match find_player(&self.players, command.player_id, true) {
            Some(i) => i,
            None => return true,
        };
        let p = self.players[i];
        let action = command.action;
        let duel = self.mode == GameMode::MultiplayerDuel;
        match action {
            PlayerAction::AttackLeft | PlayerAction::AttackRight => {
                if p.attack_cooldown_micros > 0 {
                    return true;
                }
                let p1 = PlayerState {
                    guarding: false,
                    attack_cooldown_micros: config.combat.attack_cooldown_micros,
                    ..p
                };
                let mut players = copy_players(&self.players);
                players.set(i, p1);
                let ghost g1 = with_player(self@, i as int, p1);
                if duel {
                    strike_fits(&players, &self.fitness, &self.match_state, p.id, action, 4, 10, 12, Ghost(g1))
                } else {
                    swing_fits(&players, &self.drones, &self.fitness, p.id, action, Ghost(g1))
                }
            },
            PlayerAction::ForcePush => {
                if p.force_cooldown_micros > 0 {
                    return true;
                }
                let p1 = PlayerState {
                    guarding: false,
                    force_cooldown_micros: config.combat.force_cooldown_micros,
                    ..p
                };
                let mut players = copy_players(&self.players);
                players.set(i, p1);
                let ghost g1 = with_player(self@, i as int, p1);
                if duel {
                    strike_fits(&players, &self.fitness, &self.match_state, p.id, action, 2, 8, 14, Ghost(g1))
                } else {
                    push_fits_now(&players, &self.drones, &self.fitness, p.id, Ghost(g1))
                }
            },
            _ => true,
        }
    }

    /// Whether `update` can let this much time pass: whether a wave it would bring
    /// can still be numbered.
    pub fn fits_update(&self, delta_micros: u64) -> (fits: bool)
        ensures
            fits == update_fits(self@, delta_micros),
    {
        if self.wave_index < MAX_WAVE || self.mode == GameMode::MultiplayerDuel {
            return true;
        }
        let advanced = advance_all(&self.drones, delta_micros);
        assert(advanced@ =~= advanced_drones(self@, delta_micros));
        let (remaining, _total) = sort_breaches(&advanced);
        remaining.len() > 0
    }
}

// ---------------------------------------------------------------- reporting a frame

/// What the frame that took the game from `before` to `after` changed.
pub fn report_step(before: &GameState, after: &GameState) -> (report: StepReport)
    ensures
        report == step_report(before@, after@),
{
    let n = if before.players.len() < after.players.len() {
        before.players.len()
    } else {
        after.players.len()
    };
    let mut clean_hit = false;
    let mut impact_taken = false;
    for i in 0..n
        invariant
            n <= before.players.len(),
            n <= after.players.len(),
            clean_hit == exists|j: int|
                0 <= j < i && #[trigger] after.players@[j].score > before.players@[j].score,
            impact_taken == exists|j: int|
                0 <= j < i && #[trigger] after.players@[j].health < before.players@[j].health,
    {
        if after.players[i].score > before.players[i].score {
            clean_hit = true;
        }
        if after.players[i].health < before.players[i].health {
            impact_taken = true;
        }
    }
    proof {
        let spec = step_report(before@, after@);
        if spec.clean_hit {
            let j = choose|j: int|
                0 <= j < before@.players.len() && j < after@.players.len()
                    && #[trigger] after@.players[j].score > before@.players[j].score;
            assert(after.players@[j].score > before.players@[j].score);
        }
        if spec.impact_taken {
            let j = choose|j: int|
                0 <= j < before@.players.len() && j < after@.players.len()
                    && #[trigger] after@.players[j].health < before@.players[j].health;
            assert(after.players@[j].health < before.players@[j].health);
        }
    }
    StepReport {
        wave_engaged: after.wave_index > before.wave_index,
        drone_destroyed: after.drones.len() < before.drones.len(),
        clean_hit,
        impact_taken,
    }
}

} // verus!
