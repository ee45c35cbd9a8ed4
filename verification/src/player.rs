//! The local player: client-side prediction of its own movement and server
//! reconciliation — snap to the authoritative position, then replay every
//! input the server has not yet confirmed.

use vstd::prelude::*;
use crate::clock::ClientTick;
use crate::fixed::Vec2Fixed;
use crate::history::{
    find_target, inputs_in_range, keep_from, lemma_keep_from_idempotent, lemma_keep_from_in_range,
    lemma_replay_target_independent, replay_count, replay_state, replay_ticks, retain_from,
    InputRecord,
};
use crate::movement::{apply_tick, calculate_step, step_position, step_vector, MovementConfig};

verus! {

/// The mathematical state of the local player.
pub ghost struct PlayerModel {
    pub id: u128,
    pub position: Vec2Fixed,
    pub target: Vec2Fixed,
    pub score: u64,
    pub pending: Seq<InputRecord>,
    pub adjust_iter: u64,
    pub death_time: Option<u64>,
}

/// The local player: position, the target it is moving toward, and the log
/// of inputs awaiting server confirmation. `adjust_iter` is the epoch of the
/// last applied catch-up, guarding against re-applying a stale one.
pub struct Player {
    pub id: u128,
    pub position: Vec2Fixed,
    pub target: Vec2Fixed,
    pub score: u64,
    pub pending_inputs: Vec<InputRecord>,
    pub adjust_iter: u64,
    pub death_time: Option<u64>,
}

impl View for Player {
    type V = PlayerModel;

    open spec fn view(&self) -> PlayerModel {
        PlayerModel {
            id: self.id,
            position: self.position,
            target: self.target,
            score: self.score,
            pending: self.pending_inputs@,
            adjust_iter: self.adjust_iter,
            death_time: self.death_time,
        }
    }
}

/// The state a player starts a session in.
pub open spec fn fresh_player(id: u128) -> PlayerModel {
    PlayerModel {
        id,
        position: Vec2Fixed { x: 0, y: 0 },
        target: Vec2Fixed { x: 0, y: 0 },
        score: 0,
        pending: Seq::empty(),
        adjust_iter: 0,
        death_time: None,
    }
}

/// Server reconciliation at the specification level: discard inputs the
/// server has already seen, snap to the authoritative position, and replay
/// the ticks from `server_tick` through `client_tick`, adopting each kept
/// input on its tick.
pub open spec fn reconcile_spec(
    p: PlayerModel,
    cfg: MovementConfig,
    client_tick: u64,
    server_pos: Vec2Fixed,
    server_tick: u64,
    paused: bool,
) -> PlayerModel {
    let kept = keep_from(p.pending, server_tick as int);
    let r = replay_state(
        server_pos,
        p.target,
        kept,
        server_tick as int,
        replay_count(server_tick, client_tick),
        cfg,
        paused,
    );
    PlayerModel { position: r.0, target: r.1, pending: kept, ..p }
}

impl Player {
    pub open spec fn wf(self) -> bool {
        &&& self.position.in_range()
        &&& self.target.in_range()
        &&& inputs_in_range(self.pending_inputs@)
    }

    pub fn new(id: u128) -> (p: Player)
        ensures
            p@ == fresh_player(id),
            p.wf(),
    {
        let p = Player {
            id,
            position: Vec2Fixed { x: 0, y: 0 },
            target: Vec2Fixed { x: 0, y: 0 },
            score: 0,
            pending_inputs: Vec::new(),
            adjust_iter: 0,
            death_time: None,
        };
        proof {
            assert(p@ == fresh_player(id));
        }
        p
    }

    /// Records a movement command: the record joins the pending log and the
    /// target takes effect immediately, before any server confirmation.
    pub fn record_input(&mut self, tick: u64, target: Vec2Fixed)
        requires
            old(self).wf(),
            target.in_range(),
        ensures
            final(self).wf(),
            final(self)@ == (PlayerModel {
                target,
                pending: old(self)@.pending.push(InputRecord { tick, target }),
                ..old(self)@
            }),
    {
        let ghost before = self.pending_inputs@;
        self.pending_inputs.push(InputRecord { tick, target });
        self.target = target;
        proof {
            assert forall|i: int|
                0 <= i < self.pending_inputs@.len() implies (#[trigger] self.pending_inputs@[i])
                    .target.in_range() by {
                if i < before.len() {
                    assert(self.pending_inputs@[i] == before[i]);
                } else {
                    assert(self.pending_inputs@[i] == (InputRecord { tick, target }));
                }
            }
        }
    }

    /// The movement vector this tick would produce.
    pub fn calculate_movement(&self, cfg: &MovementConfig) -> (mv: Vec2Fixed)
        requires
            self.wf(),
            cfg.wf(),
        ensures
            mv == step_vector(self.position, self.target, *cfg),
    {
        calculate_step(self.position, self.target, cfg)
    }

    /// One predicted movement tick toward the current target; no motion while
    /// the clock is paused or when the step would leave the world bounds.
    pub fn apply_input(&mut self, clock: &ClientTick, cfg: &MovementConfig)
        requires
            old(self).wf(),
            cfg.wf(),
        ensures
            final(self).wf(),
            final(self)@ == (PlayerModel {
                position: apply_tick(
                    old(self).position,
                    old(self).target,
                    *cfg,
                    clock.pause != 0,
                ),
                ..old(self)@
            }),
            cfg.in_bounds(old(self).position) ==> cfg.in_bounds(final(self).position),
    {
        let p = step_position(self.position, self.target, cfg, clock.pause != 0);
        self.position = p;
    }

    /// Server reconciliation: exactly `reconcile_spec`. After the call the
    /// position equals the result of starting at the server's authoritative
    /// position and deterministically replaying, in tick order, precisely
    /// the pending inputs whose tick lies in `server_tick ..= client_tick`.
    pub fn server_reconciliation(
        &mut self,
        clock: &ClientTick,
        cfg: &MovementConfig,
        server_pos: Vec2Fixed,
        server_tick: u64,
    )
        requires
            old(self).wf(),
            cfg.wf(),
            server_pos.in_range(),
            clock.tick matches Some(t) && t < u64::MAX,
        ensures
            final(self).wf(),
            final(self)@ == reconcile_spec(
                old(self)@,
                *cfg,
                clock.tick.unwrap(),
                server_pos,
                server_tick,
                clock.pause != 0,
            ),
    {
        proof {
            lemma_keep_from_in_range(self.pending_inputs@, server_tick as int);
        }
        retain_from(&mut self.pending_inputs, server_tick);
        let ct = clock.tick.unwrap();
        let r = replay_ticks(
            server_pos,
            self.target,
            &self.pending_inputs,
            server_tick,
            ct,
            cfg,
            clock.pause != 0,
        );
        self.position = r.0;
        self.target = r.1;
    }
}

/// Reconciliation is idempotent: run twice with the same authoritative data
/// and the same inputs, the second run changes nothing. When any tick is
/// replayed, this needs a pending input recorded exactly at `server_tick`,
/// so that the replay's first tick adopts it and the outcome cannot depend
/// on the target held before the call.
pub proof fn lemma_reconciliation_idempotent(
    p: PlayerModel,
    cfg: MovementConfig,
    client_tick: u64,
    server_pos: Vec2Fixed,
    server_tick: u64,
    paused: bool,
)
    requires
        replay_count(server_tick, client_tick) > 0 ==> find_target(
            keep_from(p.pending, server_tick as int),
            server_tick as int,
        ).is_some(),
    ensures
        reconcile_spec(
            reconcile_spec(p, cfg, client_tick, server_pos, server_tick, paused),
            cfg,
            client_tick,
            server_pos,
            server_tick,
            paused,
        ) == reconcile_spec(p, cfg, client_tick, server_pos, server_tick, paused),
{
    let p1 = reconcile_spec(p, cfg, client_tick, server_pos, server_tick, paused);
    let kept = keep_from(p.pending, server_tick as int);
    let cnt = replay_count(server_tick, client_tick);
    lemma_keep_from_idempotent(p.pending, server_tick as int);
    if cnt == 0 {
    } else {
        lemma_replay_target_independent(
            server_pos,
            p.target,
            p1.target,
            kept,
            server_tick as int,
            cnt,
            cfg,
            paused,
        );
    }
}

} // verus!
