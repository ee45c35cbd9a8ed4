//! Remote players: dead reckoning from sparse updates. A bounded history of
//! confirmed positions lets the client snap to a known-good position for the
//! reported tick and replay forward toward the last reported target.

use vstd::prelude::*;
use crate::clock::ClientTick;
use crate::fixed::Vec2Fixed;
use crate::history::{inputs_in_range, replay_count, replay_state, replay_ticks, InputRecord};
use crate::movement::{apply_tick, step_position, MovementConfig};
use crate::pastpos::{past_lookup, PastPositions};

verus! {

/// The mathematical state of a remote player.
pub ghost struct EnemyModel {
    pub id: u128,
    pub position: Vec2Fixed,
    pub target: Vec2Fixed,
    pub score: u64,
    pub name: Seq<char>,
    pub past: Seq<(u64, Vec2Fixed)>,
    pub past_cap: nat,
    pub pending: Seq<InputRecord>,
    pub dead: bool,
}

/// A remote player mirrored from intermittent updates.
pub struct Enemy {
    pub id: u128,
    pub position: Vec2Fixed,
    pub target: Vec2Fixed,
    pub score: u64,
    pub name: String,
    pub past_pos: PastPositions,
    pub pending_inputs: Vec<InputRecord>,
    pub dead: bool,
}

impl View for Enemy {
    type V = EnemyModel;

    open spec fn view(&self) -> EnemyModel {
        EnemyModel {
            id: self.id,
            position: self.position,
            target: self.target,
            score: self.score,
            name: self.name@,
            past: self.past_pos.entries@,
            past_cap: self.past_pos.cap as nat,
            pending: self.pending_inputs@,
            dead: self.dead,
        }
    }
}

/// The state a newly connected remote player starts in.
pub open spec fn fresh_enemy(id: u128, name: Seq<char>, window: nat) -> EnemyModel {
    EnemyModel {
        id,
        position: Vec2Fixed { x: 0, y: 0 },
        target: Vec2Fixed { x: 0, y: 0 },
        score: 0,
        name,
        past: Seq::empty(),
        past_cap: window,
        pending: Seq::empty(),
        dead: false,
    }
}

/// Dead reckoning at the specification level: snap to the recorded position
/// for the reported tick when one exists (otherwise keep the extrapolated
/// position), then replay `reported_tick ..= client_tick` toward the target,
/// adopting pending inputs on their ticks. A dead player is left untouched.
pub open spec fn enemy_reconcile_spec(
    e: EnemyModel,
    cfg: MovementConfig,
    client_tick: u64,
    reported_tick: u64,
    paused: bool,
) -> EnemyModel {
    if e.dead {
        e
    } else {
        let start = match past_lookup(e.past, reported_tick) {
            Some(p) => p,
            None => e.position,
        };
        let r = replay_state(
            start,
            e.target,
            e.pending,
            reported_tick as int,
            replay_count(reported_tick, client_tick),
            cfg,
            paused,
        );
        EnemyModel { position: r.0, target: r.1, ..e }
    }
}

impl Enemy {
    pub open spec fn wf(self) -> bool {
        &&& self.position.in_range()
        &&& self.target.in_range()
        &&& inputs_in_range(self.pending_inputs@)
        &&& self.past_pos.wf()
    }

    pub fn new(id: u128, name: String, window: usize) -> (e: Enemy)
        requires
            window >= 1,
        ensures
            e@ == fresh_enemy(id, name@, window as nat),
            e.wf(),
    {
        let e = Enemy {
            id,
            position: Vec2Fixed { x: 0, y: 0 },
            target: Vec2Fixed { x: 0, y: 0 },
            score: 0,
            name,
            past_pos: PastPositions::new(window),
            pending_inputs: Vec::new(),
            dead: false,
        };
        proof {
            assert(e@ == fresh_enemy(id, e.name@, window as nat));
        }
        e
    }

    /// Stores a confirmed `(tick, position)` pair in the rolling window.
    pub fn record_past_position(&mut self, tick: u64, pos: Vec2Fixed)
        requires
            old(self).wf(),
            pos.in_range(),
        ensures
            final(self).wf(),
            final(self)@ == (EnemyModel {
                past: crate::pastpos::clip_window(
                    crate::pastpos::insert_sorted(old(self)@.past, tick, pos),
                    old(self)@.past_cap,
                ),
                ..old(self)@
            }),
    {
        self.past_pos.insert(tick, pos);
    }

    /// Queues a reported input for adoption during later replays.
    pub fn record_pending_input(&mut self, tick: u64, target: Vec2Fixed)
        requires
            old(self).wf(),
            target.in_range(),
        ensures
            final(self).wf(),
            final(self)@ == (EnemyModel {
                pending: old(self)@.pending.push(InputRecord { tick, target }),
                ..old(self)@
            }),
    {
        let ghost before = self.pending_inputs@;
        self.pending_inputs.push(InputRecord { tick, target });
        proof {
            assert forall|i: int|
                0 <= i < self.pending_inputs@.len() implies (#[trigger] self.pending_inputs@[i])
                    .target.in_range() by {
                if i < before.len() {
                    assert(self.pending_inputs@[i] == before[i]);
                } else {
                    assert(self.pending_inputs@[i] == (InputRecord { tick, target }));
                }
            }
        }
    }

    /// The movement vector this tick would produce.
    pub fn calculate_movement(&self, cfg: &MovementConfig) -> (mv: Vec2Fixed)
        requires
            self.wf(),
            cfg.wf(),
        ensures
            mv == crate::movement::step_vector(self.position, self.target, *cfg),
    {
        crate::movement::calculate_step(self.position, self.target, cfg)
    }

    /// One dead-reckoned movement tick toward the last reported target; a
    /// dead player's position stays frozen.
    pub fn apply_input(&mut self, clock: &ClientTick, cfg: &MovementConfig)
        requires
            old(self).wf(),
            cfg.wf(),
        ensures
            final(self).wf(),
            final(self)@ == (EnemyModel {
                position: if old(self).dead {
                    old(self).position
                } else {
                    apply_tick(old(self).position, old(self).target, *cfg, clock.pause != 0)
                },
                ..old(self)@
            }),
            cfg.in_bounds(old(self).position) ==> cfg.in_bounds(final(self).position),
    {
        if self.dead {
            return;
        }
        let p = step_position(self.position, self.target, cfg, clock.pause != 0);
        self.position = p;
    }

    /// Reconciliation against a reported tick: exactly `enemy_reconcile_spec`.
    pub fn enemy_reconciliation(&mut self, clock: &ClientTick, cfg: &MovementConfig, reported_tick: u64)
        requires
            old(self).wf(),
            cfg.wf(),
            clock.tick matches Some(t) && t < u64::MAX,
        ensures
            final(self).wf(),
            final(self)@ == enemy_reconcile_spec(
                old(self)@,
                *cfg,
                clock.tick.unwrap(),
                reported_tick,
                clock.pause != 0,
            ),
    {
        if self.dead {
            return;
        }
        let start = match self.past_pos.lookup(reported_tick) {
            Some(p) => p,
            None => self.position,
        };
        let ct = clock.tick.unwrap();
        let r = replay_ticks(
            start,
            self.target,
            &self.pending_inputs,
            reported_tick,
            ct,
            cfg,
            clock.pause != 0,
        );
        self.position = r.0;
        self.target = r.1;
    }
}

} // verus!
