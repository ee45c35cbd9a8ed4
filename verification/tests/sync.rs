use rainrun_core::clock::ClientTick;
use rainrun_core::context::{SimConfig, SimulationContext};
use rainrun_core::messages::{NetworkMessage, NewGame, SyncMessage};

fn started_context(server_tick: u64, seed: u64) -> SimulationContext {
    let mut ctx = SimulationContext::new(SimConfig::standard());
    ctx.handle_message(NetworkMessage::NewGame(NewGame {
        id: 1,
        server_tick,
        rng_seed: seed,
        high_scores: Vec::new(),
    }));
    ctx
}

#[test]
fn clock_pause_counts_down_before_tick_moves() {
    // A pause of 6: six advances leave the tick unchanged, the seventh
    // increments it.
    let mut c = ClientTick::new();
    c.tick = Some(100);
    c.schedule_pause(6);
    for _ in 0..6 {
        c.advance();
        assert_eq!(c.tick, Some(100));
    }
    c.advance();
    assert_eq!(c.tick, Some(101));
}

#[test]
fn schedule_pause_never_shortens() {
    let mut c = ClientTick::new();
    c.schedule_pause(5);
    c.schedule_pause(2);
    assert_eq!(c.pause, 5);
    c.schedule_pause(9);
    assert_eq!(c.pause, 9);
}

#[test]
fn positive_adjustment_schedules_pause_minus_margin() {
    // Adjustment +10 with margin 4 schedules a pause of 6.
    let mut ctx = started_context(100, 7);
    ctx.handle_message(NetworkMessage::SyncClient(SyncMessage {
        tick_adjustment: 10,
        server_tick: 100,
        adjustment_iteration: 1,
    }));
    assert_eq!(ctx.clock.pause, 6);
}

#[test]
fn catch_up_runs_exactly_deficit_minus_margin() {
    // Adjustment -10 with margin 4 and a newer iteration runs exactly 6
    // catch-up ticks; the same iteration again is ignored.
    let mut ctx = started_context(100, 7);
    ctx.local.adjust_iter = 4;
    let before = ctx.clock.tick.unwrap();
    let msg = SyncMessage { tick_adjustment: -10, server_tick: 200, adjustment_iteration: 5 };
    ctx.handle_message(NetworkMessage::SyncClient(msg));
    assert_eq!(ctx.clock.tick, Some(before + 6));
    assert_eq!(ctx.local.adjust_iter, 5);
    ctx.handle_message(NetworkMessage::SyncClient(msg));
    assert_eq!(ctx.clock.tick, Some(before + 6));
    assert_eq!(ctx.local.adjust_iter, 5);
}

#[test]
fn catch_up_regenerates_world_events() {
    // The catch-up burst replays world-event ticks: the same ticks walked
    // one frame at a time produce the same objects.
    let mut fast = started_context(100, 42);
    fast.handle_message(NetworkMessage::SyncClient(SyncMessage {
        tick_adjustment: -14,
        server_tick: 200,
        adjustment_iteration: 1,
    }));
    let mut slow = started_context(100, 42);
    for _ in 0..10 {
        slow.simulation_step();
    }
    assert_eq!(fast.clock.tick, slow.clock.tick);
    assert_eq!(fast.bolt.len(), slow.bolt.len());
    for i in 0..fast.bolt.len() {
        assert_eq!(fast.bolt[i].tick, slow.bolt[i].tick);
        assert_eq!(fast.bolt[i].pos, slow.bolt[i].pos);
    }
}

#[test]
fn small_deficit_within_margin_is_noop() {
    let mut ctx = started_context(100, 7);
    let before = ctx.clock.tick.unwrap();
    ctx.handle_message(NetworkMessage::SyncClient(SyncMessage {
        tick_adjustment: -3,
        server_tick: 200,
        adjustment_iteration: 1,
    }));
    assert_eq!(ctx.clock.tick, Some(before));
    // The iteration is still recorded as applied.
    assert_eq!(ctx.local.adjust_iter, 1);
}

#[test]
fn zero_adjustment_is_noop() {
    let mut ctx = started_context(100, 7);
    let before = ctx.clock.tick.unwrap();
    ctx.handle_message(NetworkMessage::SyncClient(SyncMessage {
        tick_adjustment: 0,
        server_tick: 100,
        adjustment_iteration: 9,
    }));
    assert_eq!(ctx.clock.tick, Some(before));
    assert_eq!(ctx.clock.pause, 0);
    assert_eq!(ctx.local.adjust_iter, 0);
}
