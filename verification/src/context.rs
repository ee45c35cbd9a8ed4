//! The simulation context: every piece of per-session state, the tick
//! synchronization controller, the network message dispatcher, and the
//! fixed-rate simulation step.

use vstd::prelude::*;
use crate::clock::ClientTick;
use crate::enemy::{enemy_reconcile_spec, fresh_enemy, Enemy, EnemyModel};
use crate::fixed::Vec2Fixed;
use crate::history::InputRecord;
use crate::messages::{
    msg_valid, message_valid, Damage, NetworkMessage, NewGame, NewPos, PlayerConnected,
    PlayerDisconnected, PlayerInput, ScoreUpdate, SyncMessage,
};
use crate::movement::{apply_tick, MovementConfig};
use crate::objects::{
    objects_in_range, remove_claimed, remove_first, world_step, world_step_spec, KindConfig,
    ObjectPos,
};
use crate::pastpos::{clip_window, insert_sorted};
use crate::player::{fresh_player, reconcile_spec, Player, PlayerModel};

verus! {

/// All tuning constants of a session: movement for the local and the remote
/// players (sharing one set of world bounds), the two object kinds, the
/// catch-up margin, the lead the clock takes over the server at game start,
/// and the size of each remote player's past-position window.
#[derive(Clone, Copy, PartialEq, Eq, Structural, Debug)]
pub struct SimConfig {
    pub local_movement: MovementConfig,
    pub enemy_movement: MovementConfig,
    pub rain_kind: KindConfig,
    pub bolt_kind: KindConfig,
    pub sync_margin: u64,
    pub tick_lead: u64,
    pub history_window: usize,
}

impl SimConfig {
    pub open spec fn wf(self) -> bool {
        &&& self.local_movement.wf()
        &&& self.enemy_movement.wf()
        &&& self.local_movement.bound_x == self.enemy_movement.bound_x
        &&& self.local_movement.bound_y == self.enemy_movement.bound_y
        &&& self.rain_kind.wf()
        &&& self.bolt_kind.wf()
        &&& 1 <= self.history_window
        &&& self.sync_margin <= 1_000_000
        &&& self.tick_lead <= 1_000_000
    }
}

/// The tuning the game ships with, in thousandths of a unit per tick.
pub open spec fn standard_config() -> SimConfig {
    SimConfig {
        local_movement: MovementConfig {
            speed: 2500,
            tolerance: 6000,
            bound_x: 1_000_000,
            bound_y: 500_000,
        },
        enemy_movement: MovementConfig {
            speed: 2500,
            tolerance: 6000,
            bound_x: 1_000_000,
            bound_y: 500_000,
        },
        rain_kind: KindConfig {
            cadence: 5,
            spawn_on_multiple: false,
            fall_speed: 3000,
            bound_x: 1_000_000,
            bound_y: 500_000,
        },
        bolt_kind: KindConfig {
            cadence: 5,
            spawn_on_multiple: true,
            fall_speed: 3000,
            bound_x: 1_000_000,
            bound_y: 500_000,
        },
        sync_margin: 4,
        tick_lead: 4,
        history_window: 32,
    }
}

impl SimConfig {
    pub fn standard() -> (c: SimConfig)
        ensures
            c == standard_config(),
            c.wf(),
    {
        SimConfig {
            local_movement: MovementConfig {
                speed: 2500,
                tolerance: 6000,
                bound_x: 1_000_000,
                bound_y: 500_000,
            },
            enemy_movement: MovementConfig {
                speed: 2500,
                tolerance: 6000,
                bound_x: 1_000_000,
                bound_y: 500_000,
            },
            rain_kind: KindConfig {
                cadence: 5,
                spawn_on_multiple: false,
                fall_speed: 3000,
                bound_x: 1_000_000,
                bound_y: 500_000,
            },
            bolt_kind: KindConfig {
                cadence: 5,
                spawn_on_multiple: true,
                fall_speed: 3000,
                bound_x: 1_000_000,
                bound_y: 500_000,
            },
            sync_margin: 4,
            tick_lead: 4,
            history_window: 32,
        }
    }
}

/// The mathematical state of a whole session.
pub ghost struct SimState {
    pub tick: Option<u64>,
    pub pause: i64,
    pub local: PlayerModel,
    pub enemies: Seq<EnemyModel>,
    pub rain: Seq<ObjectPos>,
    pub bolt: Seq<ObjectPos>,
    pub seed: Option<u64>,
    pub high_scores: Seq<(String, u64)>,
}

/// The models of a registry of remote players.
pub open spec fn enemy_views(es: Seq<Enemy>) -> Seq<EnemyModel> {
    es.map_values(|e: Enemy| e@)
}

/// The whole client-side simulation state of one session.
pub struct SimulationContext {
    pub cfg: SimConfig,
    pub clock: ClientTick,
    pub local: Player,
    pub enemies: Vec<Enemy>,
    pub rain: Vec<ObjectPos>,
    pub bolt: Vec<ObjectPos>,
    pub seed: Option<u64>,
    pub high_scores: Vec<(String, u64)>,
}

impl View for SimulationContext {
    type V = SimState;

    open spec fn view(&self) -> SimState {
        SimState {
            tick: self.clock.tick,
            pause: self.clock.pause,
            local: self.local@,
            enemies: enemy_views(self.enemies@),
            rain: self.rain@,
            bolt: self.bolt@,
            seed: self.seed,
            high_scores: self.high_scores@,
        }
    }
}

impl SimulationContext {
    pub open spec fn wf(self) -> bool {
        &&& self.cfg.wf()
        &&& self.clock.wf()
        &&& self.local.wf()
        &&& forall|i: int| 0 <= i < self.enemies@.len() ==> (#[trigger] self.enemies@[i]).wf()
        &&& objects_in_range(self.rain@)
        &&& objects_in_range(self.bolt@)
    }

    /// A context before any game has started.
    pub fn new(cfg: SimConfig) -> (c: SimulationContext)
        requires
            cfg.wf(),
        ensures
            c.wf(),
            c.cfg == cfg,
            c@ == (SimState {
                tick: None::<u64>,
                pause: 0,
                local: fresh_player(0),
                enemies: Seq::<EnemyModel>::empty(),
                rain: Seq::<ObjectPos>::empty(),
                bolt: Seq::<ObjectPos>::empty(),
                seed: None::<u64>,
                high_scores: Seq::<(String, u64)>::empty(),
            }),
    {
        let c = SimulationContext {
            cfg,
            clock: ClientTick::new(),
            local: Player::new(0),
            enemies: Vec::new(),
            rain: Vec::new(),
            bolt: Vec::new(),
            seed: None,
            high_scores: Vec::new(),
        };
        proof {
            assert(enemy_views(c.enemies@) =~= Seq::<EnemyModel>::empty());
        }
        c
    }
}

/// How far behind the client is, from a signed adjustment: the magnitude of
/// a negative adjustment, zero otherwise.
pub open spec fn sync_magnitude(adj: i64) -> int {
    if adj < 0 {
        -(adj as int)
    } else {
        0
    }
}

/// How many catch-up ticks a behind-report triggers: the deficit minus the
/// latency margin, clamped at zero.
pub open spec fn catch_up_len(adj: i64, margin: u64) -> nat {
    if sync_magnitude(adj) > margin {
        (sync_magnitude(adj) - margin) as nat
    } else {
        0
    }
}

/// One catch-up iteration: a full world-event tick for both kinds, one local
/// movement tick, and the tick counter moved forward — with no waiting for
/// network input.
pub open spec fn sim_tick_spec(s: SimState, cfg: SimConfig) -> SimState {
    if s.tick.is_none() {
        s
    } else {
        let t = s.tick.unwrap();
        let live = s.pause == 0 && s.seed.is_some();
        let rain1 = if live {
            world_step_spec(s.rain, cfg.rain_kind, s.seed.unwrap(), t)
        } else {
            s.rain
        };
        let bolt1 = if live {
            world_step_spec(s.bolt, cfg.bolt_kind, s.seed.unwrap(), t)
        } else {
            s.bolt
        };
        let pos1 = apply_tick(s.local.position, s.local.target, cfg.local_movement, s.pause != 0);
        SimState {
            tick: Some((t + 1) as u64),
            rain: rain1,
            bolt: bolt1,
            local: PlayerModel { position: pos1, ..s.local },
            ..s
        }
    }
}

/// `n` catch-up iterations in a row.
pub open spec fn catch_up_spec(s: SimState, cfg: SimConfig, n: nat) -> SimState
    decreases n,
{
    if n == 0 {
        s
    } else {
        catch_up_spec(sim_tick_spec(s, cfg), cfg, (n - 1) as nat)
    }
}

proof fn lemma_catch_up_snoc(s: SimState, cfg: SimConfig, n: nat)
    ensures
        catch_up_spec(s, cfg, (n + 1) as nat) == sim_tick_spec(catch_up_spec(s, cfg, n), cfg),
    decreases n,
{
    if n == 0 {
        assert(catch_up_spec(s, cfg, 1) == catch_up_spec(sim_tick_spec(s, cfg), cfg, 0));
        assert(catch_up_spec(sim_tick_spec(s, cfg), cfg, 0) == sim_tick_spec(s, cfg));
        assert(catch_up_spec(s, cfg, 0) == s);
    } else {
        assert(catch_up_spec(s, cfg, (n + 1) as nat) == catch_up_spec(
            sim_tick_spec(s, cfg),
            cfg,
            n,
        ));
        assert(catch_up_spec(s, cfg, n) == catch_up_spec(
            sim_tick_spec(s, cfg),
            cfg,
            (n - 1) as nat,
        ));
        lemma_catch_up_snoc(sim_tick_spec(s, cfg), cfg, (n - 1) as nat);
    }
}

/// Catch-up moves the tick forward by exactly the iteration count and leaves
/// the pause, the epoch, the seed, and the remote players untouched.
pub proof fn lemma_catch_up_props(s: SimState, cfg: SimConfig, n: nat)
    requires
        s.tick matches Some(t) && t + n <= u64::MAX,
    ensures
        catch_up_spec(s, cfg, n).tick == Some((s.tick.unwrap() + n) as u64),
        catch_up_spec(s, cfg, n).pause == s.pause,
        catch_up_spec(s, cfg, n).seed == s.seed,
        catch_up_spec(s, cfg, n).enemies == s.enemies,
        catch_up_spec(s, cfg, n).local.adjust_iter == s.local.adjust_iter,
        catch_up_spec(s, cfg, n).high_scores == s.high_scores,
    decreases n,
{
    if n == 0 {
    } else {
        lemma_catch_up_props(sim_tick_spec(s, cfg), cfg, (n - 1) as nat);
    }
}

/// What a sync report does: a positive adjustment schedules a pause of
/// `adjustment - margin` steps (never shortening one already scheduled); a
/// negative one, when its iteration number is newer than the last applied,
/// runs `|adjustment| - margin` catch-up ticks (clamped at zero) and stores
/// the iteration number; anything else — zero adjustment, a stale iteration,
/// or no game yet — changes nothing.
pub open spec fn handle_sync_spec(s: SimState, cfg: SimConfig, m: SyncMessage) -> SimState {
    if s.tick.is_none() {
        s
    } else if m.tick_adjustment > 0 {
        SimState {
            pause: if m.tick_adjustment - cfg.sync_margin > s.pause {
                (m.tick_adjustment - cfg.sync_margin) as i64
            } else {
                s.pause
            },
            ..s
        }
    } else if m.tick_adjustment < 0 && m.adjustment_iteration > s.local.adjust_iter {
        let s1 = catch_up_spec(s, cfg, catch_up_len(m.tick_adjustment, cfg.sync_margin));
        SimState {
            local: PlayerModel { adjust_iter: m.adjustment_iteration, ..s1.local },
            ..s1
        }
    } else {
        s
    }
}

impl SimulationContext {
    /// Consumes one sync report, exactly as `handle_sync_spec` describes:
    /// pause when ahead, an immediate bounded catch-up burst when behind,
    /// guarded against stale or duplicated adjustment iterations. The tick
    /// moves forward by exactly `catch_up_len(adjustment, margin)`.
    pub fn handle_sync(&mut self, m: &SyncMessage)
        requires
            old(self).wf(),
            m.tick_adjustment > i64::MIN,
            old(self)@.tick matches Some(t) ==> t + catch_up_len(
                m.tick_adjustment,
                old(self).cfg.sync_margin,
            ) <= u64::MAX,
        ensures
            final(self).wf(),
            final(self).cfg == old(self).cfg,
            final(self)@ == handle_sync_spec(old(self)@, old(self).cfg, *m),
            old(self)@.tick.is_some() && m.tick_adjustment < 0 && m.adjustment_iteration
                > old(self)@.local.adjust_iter ==> final(self)@.tick == Some(
                (old(self)@.tick.unwrap() + catch_up_len(
                    m.tick_adjustment,
                    old(self).cfg.sync_margin,
                )) as u64,
            ) && final(self)@.local.adjust_iter == m.adjustment_iteration,
    {
        let t0 = match self.clock.tick {
            Some(t) => t,
            None => {
                return;
            },
        };
        if m.tick_adjustment > 0 {
            let margin = self.cfg.sync_margin as i64;
            self.clock.schedule_pause(m.tick_adjustment - margin);
        } else if m.tick_adjustment < 0 && m.adjustment_iteration > self.local.adjust_iter {
            let magnitude: u64 = (-m.tick_adjustment) as u64;
            let iters: u64 = if magnitude > self.cfg.sync_margin {
                magnitude - self.cfg.sync_margin
            } else {
                0
            };
            proof {
                assert(iters as nat == catch_up_len(m.tick_adjustment, self.cfg.sync_margin));
            }
            let ghost s0 = self@;
            let ghost cfg0 = self.cfg;
            let mut done: u64 = 0;
            while done < iters
                invariant
                    0 <= done <= iters,
                    self.wf(),
                    self.cfg == cfg0,
                    cfg0.wf(),
                    self@ == catch_up_spec(s0, cfg0, done as nat),
                    s0.tick == Some(t0),
                    t0 + iters <= u64::MAX,
                    self.clock.tick == Some((t0 + done) as u64),
                decreases iters - done,
            {
                proof {
                    lemma_catch_up_snoc(s0, cfg0, done as nat);
                }
                world_step(
                    &mut self.rain,
                    &self.cfg.rain_kind,
                    self.seed,
                    self.clock.tick,
                    self.clock.pause,
                );
                world_step(
                    &mut self.bolt,
                    &self.cfg.bolt_kind,
                    self.seed,
                    self.clock.tick,
                    self.clock.pause,
                );
                self.local.apply_input(&self.clock, &self.cfg.local_movement);
                if let Some(t) = self.clock.tick {
                    self.clock.tick = Some(t + 1);
                }
                done = done + 1;
            }
            self.local.adjust_iter = m.adjustment_iteration;
            proof {
                lemma_catch_up_props(s0, cfg0, iters as nat);
            }
        }
    }
}

/// The index of the first remote player with this id, or `-1`.
pub open spec fn find_enemy(es: Seq<EnemyModel>, id: u128) -> int
    decreases es.len(),
{
    if es.len() == 0 {
        -1
    } else if es[0].id == id {
        0
    } else {
        let r = find_enemy(es.drop_first(), id);
        if r < 0 {
            -1
        } else {
            r + 1
        }
    }
}

/// Linear scan matching `find_enemy`.
fn find_enemy_index(enemies: &Vec<Enemy>, id: u128) -> (r: Option<usize>)
    ensures
        match r {
            Some(j) => j < enemies@.len() && find_enemy(enemy_views(enemies@), id) == j as int
                && enemies@[j as int]@.id == id,
            None => find_enemy(enemy_views(enemies@), id) == -1,
        },
{
    let ghost models = enemy_views(enemies@);
    proof {
        assert(models.skip(0) =~= models);
    }
    let mut j: usize = 0;
    while j < enemies.len()
        invariant
            0 <= j <= enemies@.len(),
            models == enemy_views(enemies@),
            models.len() == enemies@.len(),
            find_enemy(models, id) == if find_enemy(models.skip(j as int), id) < 0 {
                -1int
            } else {
                find_enemy(models.skip(j as int), id) + j
            },
        decreases enemies@.len() - j,
    {
        proof {
            assert(models.skip(j as int)[0] == models[j as int]);
            assert(models[j as int] == enemies@[j as int]@);
        }
        if enemies[j].id == id {
            return Some(j);
        }
        proof {
            assert(models.skip(j as int).drop_first() =~= models.skip(j + 1));
        }
        j = j + 1;
    }
    proof {
        assert(models.skip(j as int).len() == 0);
    }
    None
}

proof fn lemma_views_update(before: Seq<Enemy>, after: Seq<Enemy>, j: int, e: Enemy)
    requires
        0 <= j < before.len(),
        after == before.remove(j).insert(j, e),
    ensures
        enemy_views(after) =~= enemy_views(before).update(j, e@),
{
    before.remove(j).insert_ensures(j, e);
}

proof fn lemma_views_push(es: Seq<Enemy>, e: Enemy)
    ensures
        enemy_views(es.push(e)) =~= enemy_views(es).push(e@),
{
}

proof fn lemma_views_remove(es: Seq<Enemy>, j: int)
    requires
        0 <= j < es.len(),
    ensures
        enemy_views(es.remove(j)) =~= enemy_views(es).remove(j),
{
}

/// One positional update from a `GameUpdate` batch: the local player gets a
/// server reconciliation; a known remote player adopts the reported input as
/// its target, records the reported position for the reported tick, and is
/// reconciled from it; an unknown id is a no-op, as is everything before a
/// game has started.
pub open spec fn apply_new_pos(s: SimState, cfg: SimConfig, u: NewPos) -> SimState {
    if s.tick.is_none() {
        s
    } else if u.id == s.local.id {
        SimState {
            local: reconcile_spec(
                s.local,
                cfg.local_movement,
                s.tick.unwrap(),
                u.pos,
                u.tick,
                s.pause != 0,
            ),
            ..s
        }
    } else {
        let j = find_enemy(s.enemies, u.id);
        if j < 0 {
            s
        } else {
            let e = s.enemies[j];
            let e1 = EnemyModel {
                target: u.input,
                past: clip_window(insert_sorted(e.past, u.tick, u.pos), e.past_cap),
                ..e
            };
            let e2 = enemy_reconcile_spec(
                e1,
                cfg.enemy_movement,
                s.tick.unwrap(),
                u.tick,
                s.pause != 0,
            );
            SimState { enemies: s.enemies.update(j, e2), ..s }
        }
    }
}

/// A whole `GameUpdate` batch, in arrival order.
pub open spec fn apply_updates(s: SimState, cfg: SimConfig, us: Seq<NewPos>) -> SimState
    decreases us.len(),
{
    if us.len() == 0 {
        s
    } else {
        apply_new_pos(apply_updates(s, cfg, us.drop_last()), cfg, us.last())
    }
}

/// What one decoded message does to the session state. An invalid message
/// (coordinates out of range) is dropped; a message naming an unknown entity
/// is a no-op for that entity; a stale sync iteration is ignored.
pub open spec fn step_spec(s: SimState, cfg: SimConfig, m: NetworkMessage) -> SimState {
    if !msg_valid(m) {
        s
    } else {
        match m {
            NetworkMessage::GameUpdate(us) => apply_updates(s, cfg, us@),
            NetworkMessage::PlayerInput(pi) => {
                let j = find_enemy(s.enemies, pi.id);
                if j < 0 {
                    s
                } else {
                    let e = s.enemies[j];
                    let e1 = EnemyModel {
                        pending: e.pending.push(InputRecord { tick: pi.tick, target: pi.target }),
                        ..e
                    };
                    SimState { enemies: s.enemies.update(j, e1), ..s }
                }
            },
            NetworkMessage::ScoreUpdate(su) => {
                let s1 = SimState { bolt: remove_first(s.bolt, su.tick), ..s };
                let s2 = if s1.local.id == su.id {
                    SimState { local: PlayerModel { score: su.score, ..s1.local }, ..s1 }
                } else {
                    s1
                };
                let j = find_enemy(s2.enemies, su.id);
                if j < 0 {
                    s2
                } else {
                    SimState {
                        enemies: s2.enemies.update(
                            j,
                            EnemyModel { score: su.score, ..s2.enemies[j] },
                        ),
                        ..s2
                    }
                }
            },
            NetworkMessage::NewGame(g) => SimState {
                tick: Some((g.server_tick + cfg.tick_lead) as u64),
                pause: s.pause,
                local: fresh_player(g.id),
                enemies: Seq::empty(),
                rain: Seq::empty(),
                bolt: Seq::empty(),
                seed: Some(g.rng_seed),
                high_scores: g.high_scores@,
            },
            NetworkMessage::PlayerConnected(pc) => {
                if pc.id == s.local.id {
                    s
                } else {
                    let j = find_enemy(s.enemies, pc.id);
                    if j >= 0 {
                        // A reconnection clears the dead flag and unfreezes
                        // the player.
                        SimState {
                            enemies: s.enemies.update(
                                j,
                                EnemyModel { dead: false, ..s.enemies[j] },
                            ),
                            ..s
                        }
                    } else {
                        SimState {
                            enemies: s.enemies.push(
                                fresh_enemy(pc.id, pc.name@, cfg.history_window as nat),
                            ),
                            ..s
                        }
                    }
                }
            },
            NetworkMessage::PlayerDisconnected(pd) => {
                let j = find_enemy(s.enemies, pd.id);
                if j < 0 {
                    s
                } else {
                    SimState { enemies: s.enemies.remove(j), ..s }
                }
            },
            NetworkMessage::DamagePlayer(d) => {
                let s1 = SimState {
                    rain: if d.tick.is_some() {
                        remove_first(s.rain, d.tick.unwrap())
                    } else {
                        s.rain
                    },
                    high_scores: if d.high_scores.is_some() {
                        d.high_scores.unwrap()@
                    } else {
                        s.high_scores
                    },
                    ..s
                };
                let s2 = if d.id == s1.local.id {
                    SimState {
                        local: PlayerModel {
                            position: Vec2Fixed { x: 0, y: 0 },
                            target: Vec2Fixed { x: 0, y: 0 },
                            death_time: Some(d.secs_alive),
                            ..s1.local
                        },
                        ..s1
                    }
                } else {
                    s1
                };
                let j = find_enemy(s2.enemies, d.id);
                if j < 0 {
                    s2
                } else {
                    SimState {
                        enemies: s2.enemies.update(
                            j,
                            EnemyModel { dead: true, ..s2.enemies[j] },
                        ),
                        ..s2
                    }
                }
            },
            NetworkMessage::SyncClient(sm) => handle_sync_spec(s, cfg, sm),
            NetworkMessage::Ping => s,
        }
    }
}

/// The machine limits a caller must respect before dispatching: tick
/// arithmetic must not overflow `u64`.
pub open spec fn msg_requires(s: SimState, cfg: SimConfig, m: NetworkMessage) -> bool {
    match m {
        NetworkMessage::GameUpdate(_) => s.tick matches Some(t) ==> t < u64::MAX,
        NetworkMessage::NewGame(g) => g.server_tick + cfg.tick_lead <= u64::MAX,
        NetworkMessage::SyncClient(sm) => sm.tick_adjustment > i64::MIN && (s.tick matches Some(t)
            ==> t + catch_up_len(sm.tick_adjustment, cfg.sync_margin) <= u64::MAX),
        _ => true,
    }
}

impl SimulationContext {
    /// Demultiplexes one decoded message into the matching component, exactly
    /// as `step_spec` describes. Malformed messages, unknown ids, and stale
    /// sync iterations are dropped silently; nothing here fails.
    pub fn handle_message(&mut self, msg: NetworkMessage)
        requires
            old(self).wf(),
            msg_requires(old(self)@, old(self).cfg, msg),
        ensures
            final(self).wf(),
            final(self).cfg == old(self).cfg,
            final(self)@ == step_spec(old(self)@, old(self).cfg, msg),
    {
        if !message_valid(&msg) {
            return;
        }
        match msg {
            NetworkMessage::GameUpdate(us) => {
                let ghost s0 = self@;
                let ghost cfg0 = self.cfg;
                proof {
                    assert(us@.take(0) =~= Seq::<NewPos>::empty());
                }
                let mut k: usize = 0;
                while k < us.len()
                    invariant
                        0 <= k <= us@.len(),
                        self.wf(),
                        self.cfg == cfg0,
                        cfg0.wf(),
                        forall|i: int|
                            0 <= i < us@.len() ==> (#[trigger] us@[i]).pos.in_range()
                                && us@[i].input.in_range(),
                        self@ == apply_updates(s0, cfg0, us@.take(k as int)),
                        self.clock.tick == s0.tick,
                        self.clock.pause == s0.pause,
                        s0.tick matches Some(t) ==> t < u64::MAX,
                    decreases us@.len() - k,
                {
                    let ghost sk = apply_updates(s0, cfg0, us@.take(k as int));
                    proof {
                        assert(us@.take(k + 1).drop_last() =~= us@.take(k as int));
                        assert(us@.take(k + 1).last() == us@[k as int]);
                    }
                    let u = us[k];
                    if self.clock.tick.is_some() {
                        if u.id == self.local.id {
                            self.local.server_reconciliation(
                                &self.clock,
                                &self.cfg.local_movement,
                                u.pos,
                                u.tick,
                            );
                        } else {
                            let ghost ebefore = self.enemies@;
                            match find_enemy_index(&self.enemies, u.id) {
                                Some(j) => {
                                    let mut e = self.enemies.remove(j);
                                    e.target = u.input;
                                    e.record_past_position(u.tick, u.pos);
                                    e.enemy_reconciliation(
                                        &self.clock,
                                        &self.cfg.enemy_movement,
                                        u.tick,
                                    );
                                    self.enemies.insert(j, e);
                                    proof {
                                        lemma_views_update(ebefore, self.enemies@, j as int, e);
                                        assert forall|i: int|
                                            0 <= i < self.enemies@.len() implies (
                                        #[trigger] self.enemies@[i]).wf() by {
                                            ebefore.remove(j as int).insert_ensures(j as int, e);
                                            if i != j {
                                                assert(self.enemies@[i] == ebefore[i]);
                                            }
                                        }
                                    }
                                },
                                None => {},
                            }
                        }
                    }
                    proof {
                        assert(self@ == apply_new_pos(sk, cfg0, us@[k as int]));
                        assert(self@ == apply_updates(s0, cfg0, us@.take(k + 1)));
                    }
                    k = k + 1;
                }
                proof {
                    assert(us@.take(k as int) =~= us@);
                }
            },
            NetworkMessage::PlayerInput(pi) => {
                let ghost ebefore = self.enemies@;
                match find_enemy_index(&self.enemies, pi.id) {
                    Some(j) => {
                        let mut e = self.enemies.remove(j);
                        e.record_pending_input(pi.tick, pi.target);
                        self.enemies.insert(j, e);
                        proof {
                            lemma_views_update(ebefore, self.enemies@, j as int, e);
                            assert forall|i: int|
                                0 <= i < self.enemies@.len() implies (
                            #[trigger] self.enemies@[i]).wf() by {
                                ebefore.remove(j as int).insert_ensures(j as int, e);
                                if i != j {
                                    assert(self.enemies@[i] == ebefore[i]);
                                }
                            }
                        }
                    },
                    None => {},
                }
            },
            NetworkMessage::ScoreUpdate(su) => {
                remove_claimed(&mut self.bolt, su.tick);
                if self.local.id == su.id {
                    self.local.score = su.score;
                }
                let ghost ebefore = self.enemies@;
                match find_enemy_index(&self.enemies, su.id) {
                    Some(j) => {
                        let mut e = self.enemies.remove(j);
                        e.score = su.score;
                        self.enemies.insert(j, e);
                        proof {
                            lemma_views_update(ebefore, self.enemies@, j as int, e);
                            assert forall|i: int|
                                0 <= i < self.enemies@.len() implies (
                            #[trigger] self.enemies@[i]).wf() by {
                                ebefore.remove(j as int).insert_ensures(j as int, e);
                                if i != j {
                                    assert(self.enemies@[i] == ebefore[i]);
                                }
                            }
                        }
                    },
                    None => {},
                }
            },
            NetworkMessage::NewGame(g) => {
                self.clock.tick = Some(g.server_tick + self.cfg.tick_lead);
                self.seed = Some(g.rng_seed);
                self.high_scores = g.high_scores;
                self.rain = Vec::new();
                self.bolt = Vec::new();
                self.local = Player::new(g.id);
                self.enemies = Vec::new();
                proof {
                    assert(enemy_views(self.enemies@) =~= Seq::<EnemyModel>::empty());
                }
            },
            NetworkMessage::PlayerConnected(pc) => {
                if pc.id == self.local.id {
                    return;
                }
                let ghost ebefore = self.enemies@;
                match find_enemy_index(&self.enemies, pc.id) {
                    Some(j) => {
                        let mut e = self.enemies.remove(j);
                        e.dead = false;
                        self.enemies.insert(j, e);
                        proof {
                            lemma_views_update(ebefore, self.enemies@, j as int, e);
                            assert forall|i: int|
                                0 <= i < self.enemies@.len() implies (
                            #[trigger] self.enemies@[i]).wf() by {
                                ebefore.remove(j as int).insert_ensures(j as int, e);
                                if i != j {
                                    assert(self.enemies@[i] == ebefore[i]);
                                }
                            }
                        }
                    },
                    None => {
                        let e = Enemy::new(pc.id, pc.name, self.cfg.history_window);
                        self.enemies.push(e);
                        proof {
                            lemma_views_push(ebefore, e);
                            assert forall|i: int|
                                0 <= i < self.enemies@.len() implies (
                            #[trigger] self.enemies@[i]).wf() by {
                                if i < ebefore.len() {
                                    assert(self.enemies@[i] == ebefore[i]);
                                } else {
                                    assert(self.enemies@[i] == e);
                                }
                            }
                        }
                    },
                }
            },
            NetworkMessage::PlayerDisconnected(pd) => {
                let ghost ebefore = self.enemies@;
                match find_enemy_index(&self.enemies, pd.id) {
                    Some(j) => {
                        let _ = self.enemies.remove(j);
                        proof {
                            lemma_views_remove(ebefore, j as int);
                            assert forall|i: int|
                                0 <= i < self.enemies@.len() implies (
                            #[trigger] self.enemies@[i]).wf() by {
                                ebefore.remove_ensures(j as int);
                                assert(self.enemies@[i] == if i < j {
                                    ebefore[i]
                                } else {
                                    ebefore[i + 1]
                                });
                            }
                        }
                    },
                    None => {},
                }
            },
            NetworkMessage::DamagePlayer(d) => {
                if let Some(t) = d.tick {
                    remove_claimed(&mut self.rain, t);
                }
                if let Some(hs) = d.high_scores {
                    self.high_scores = hs;
                }
                if d.id == self.local.id {
                    self.local.position = Vec2Fixed { x: 0, y: 0 };
                    self.local.target = Vec2Fixed { x: 0, y: 0 };
                    self.local.death_time = Some(d.secs_alive);
                }
                let ghost ebefore = self.enemies@;
                match find_enemy_index(&self.enemies, d.id) {
                    Some(j) => {
                        let mut e = self.enemies.remove(j);
                        e.dead = true;
                        self.enemies.insert(j, e);
                        proof {
                            lemma_views_update(ebefore, self.enemies@, j as int, e);
                            assert forall|i: int|
                                0 <= i < self.enemies@.len() implies (
                            #[trigger] self.enemies@[i]).wf() by {
                                ebefore.remove(j as int).insert_ensures(j as int, e);
                                if i != j {
                                    assert(self.enemies@[i] == ebefore[i]);
                                }
                            }
                        }
                    },
                    None => {},
                }
            },
            NetworkMessage::SyncClient(sm) => {
                self.handle_sync(&sm);
            },
            NetworkMessage::Ping => {},
        }
    }
}

/// Every remote player after one dead-reckoned movement tick; dead players
/// stay frozen.
pub open spec fn frame_enemies(es: Seq<EnemyModel>, cfg: SimConfig, paused: bool) -> Seq<
    EnemyModel,
> {
    Seq::new(
        es.len(),
        |i: int| EnemyModel {
            position: if es[i].dead {
                es[i].position
            } else {
                apply_tick(es[i].position, es[i].target, cfg.enemy_movement, paused)
            },
            ..es[i]
        },
    )
}

/// One fixed-rate simulation step, in the fixed order: world events for both
/// kinds, one predicted local movement tick, one dead-reckoned tick for each
/// remote player, then the clock (pause countdown or tick increment).
pub open spec fn frame_spec(s: SimState, cfg: SimConfig) -> SimState {
    let live = s.pause == 0 && s.seed.is_some() && s.tick.is_some();
    let paused = s.pause != 0;
    let rain1 = if live {
        world_step_spec(s.rain, cfg.rain_kind, s.seed.unwrap(), s.tick.unwrap())
    } else {
        s.rain
    };
    let bolt1 = if live {
        world_step_spec(s.bolt, cfg.bolt_kind, s.seed.unwrap(), s.tick.unwrap())
    } else {
        s.bolt
    };
    let local1 = PlayerModel {
        position: apply_tick(s.local.position, s.local.target, cfg.local_movement, paused),
        ..s.local
    };
    let enemies1 = frame_enemies(s.enemies, cfg, paused);
    let tick1 = if s.pause > 0 {
        s.tick
    } else {
        match s.tick {
            Some(t) => Some((t + 1) as u64),
            None => None::<u64>,
        }
    };
    let pause1 = if s.pause > 0 {
        s.pause - 1
    } else {
        s.pause as int
    };
    SimState {
        tick: tick1,
        pause: pause1 as i64,
        local: local1,
        enemies: enemies1,
        rain: rain1,
        bolt: bolt1,
        ..s
    }
}

impl SimulationContext {
    /// One fixed-rate simulation step, exactly `frame_spec`.
    pub fn simulation_step(&mut self)
        requires
            old(self).wf(),
            old(self)@.tick matches Some(t) ==> t < u64::MAX,
        ensures
            final(self).wf(),
            final(self).cfg == old(self).cfg,
            final(self)@ == frame_spec(old(self)@, old(self).cfg),
    {
        world_step(
            &mut self.rain,
            &self.cfg.rain_kind,
            self.seed,
            self.clock.tick,
            self.clock.pause,
        );
        world_step(
            &mut self.bolt,
            &self.cfg.bolt_kind,
            self.seed,
            self.clock.tick,
            self.clock.pause,
        );
        self.local.apply_input(&self.clock, &self.cfg.local_movement);
        let ghost ebefore = self.enemies@;
        let ghost mid = self@;
        let ghost clock0 = self.clock;
        let ghost cfg0 = self.cfg;
        let ghost target_models = frame_enemies(
            enemy_views(ebefore),
            self.cfg,
            self.clock.pause != 0,
        );
        let n = self.enemies.len();
        let mut j: usize = 0;
        while j < n
            invariant
                0 <= j <= n,
                self.enemies@.len() == n,
                ebefore.len() == n,
                self.cfg == cfg0,
                self.clock == clock0,
                self.rain@ == mid.rain,
                self.bolt@ == mid.bolt,
                self.local@ == mid.local,
                self.seed == mid.seed,
                self.high_scores@ == mid.high_scores,
                self.local.wf(),
                objects_in_range(self.rain@),
                objects_in_range(self.bolt@),
                self.cfg.wf(),
                self.clock.wf(),
                target_models == frame_enemies(
                    enemy_views(ebefore),
                    self.cfg,
                    self.clock.pause != 0,
                ),
                forall|i: int| 0 <= i < n ==> (#[trigger] ebefore[i]).wf(),
                forall|i: int| 0 <= i < j ==> (#[trigger] self.enemies@[i]).wf()
                    && self.enemies@[i]@ == target_models[i],
                forall|i: int| j <= i < n ==> (#[trigger] self.enemies@[i]) == ebefore[i],
            decreases n - j,
        {
            let ghost evec = self.enemies@;
            let mut e = self.enemies.remove(j);
            e.apply_input(&self.clock, &self.cfg.enemy_movement);
            self.enemies.insert(j, e);
            proof {
                evec.remove(j as int).insert_ensures(j as int, e);
                assert forall|i: int|
                    0 <= i < n && i != j implies (#[trigger] self.enemies@[i]) == evec[i] by {}
                assert(self.enemies@[j as int] == e);
                assert(self.enemies@[j as int]@ == target_models[j as int]);
            }
            j = j + 1;
        }
        proof {
            assert(enemy_views(self.enemies@) =~= target_models);
        }
        self.clock.advance();
    }
}

} // verus!
