use rainrun_core::context::{SimConfig, SimulationContext};
use rainrun_core::fixed::Vec2Fixed;
use rainrun_core::messages::{
    Damage, NetworkMessage, NewGame, NewPos, PlayerConnected, PlayerDisconnected, PlayerInput,
    ScoreUpdate,
};

fn started_context(server_tick: u64, seed: u64) -> SimulationContext {
    let mut ctx = SimulationContext::new(SimConfig::standard());
    ctx.handle_message(NetworkMessage::NewGame(NewGame {
        id: 1,
        server_tick,
        rng_seed: seed,
        high_scores: vec![(String::from("ada"), 90)],
    }));
    ctx
}

fn connect(ctx: &mut SimulationContext, id: u128, name: &str) {
    ctx.handle_message(NetworkMessage::PlayerConnected(PlayerConnected {
        id,
        name: String::from(name),
    }));
}

#[test]
fn new_game_starts_ahead_of_the_server() {
    // The clock starts at the server tick plus the configured lead.
    let ctx = started_context(100, 42);
    assert_eq!(ctx.clock.tick, Some(104));
    assert_eq!(ctx.seed, Some(42));
    assert_eq!(ctx.local.id, 1);
    assert_eq!(ctx.enemies.len(), 0);
    assert_eq!(ctx.high_scores.len(), 1);
}

#[test]
fn player_connected_creates_one_enemy() {
    let mut ctx = started_context(100, 42);
    connect(&mut ctx, 2, "bob");
    connect(&mut ctx, 2, "bob");
    assert_eq!(ctx.enemies.len(), 1);
    assert_eq!(ctx.enemies[0].id, 2);
    assert_eq!(ctx.enemies[0].name, "bob");
    // The local id never becomes an enemy.
    connect(&mut ctx, 1, "self");
    assert_eq!(ctx.enemies.len(), 1);
}

#[test]
fn player_disconnected_removes_the_enemy() {
    let mut ctx = started_context(100, 42);
    connect(&mut ctx, 2, "bob");
    connect(&mut ctx, 3, "eve");
    ctx.handle_message(NetworkMessage::PlayerDisconnected(PlayerDisconnected { id: 2 }));
    assert_eq!(ctx.enemies.len(), 1);
    assert_eq!(ctx.enemies[0].id, 3);
}

#[test]
fn player_input_queues_on_the_matching_enemy() {
    let mut ctx = started_context(100, 42);
    connect(&mut ctx, 2, "bob");
    ctx.handle_message(NetworkMessage::PlayerInput(PlayerInput {
        target: Vec2Fixed::new(5000, 0),
        id: 2,
        tick: 105,
    }));
    assert_eq!(ctx.enemies[0].pending_inputs.len(), 1);
    assert_eq!(ctx.enemies[0].pending_inputs[0].tick, 105);
    // An unknown id is a no-op.
    ctx.handle_message(NetworkMessage::PlayerInput(PlayerInput {
        target: Vec2Fixed::new(5000, 0),
        id: 99,
        tick: 105,
    }));
    assert_eq!(ctx.enemies[0].pending_inputs.len(), 1);
}

#[test]
fn malformed_message_is_dropped() {
    let mut ctx = started_context(100, 42);
    connect(&mut ctx, 2, "bob");
    ctx.handle_message(NetworkMessage::PlayerInput(PlayerInput {
        target: Vec2Fixed::new(2_000_000_000, 0),
        id: 2,
        tick: 105,
    }));
    assert_eq!(ctx.enemies[0].pending_inputs.len(), 0);
}

#[test]
fn game_update_reconciles_the_local_player() {
    let mut ctx = started_context(100, 42);
    ctx.local.record_input(104, Vec2Fixed::new(10_000, 0));
    ctx.handle_message(NetworkMessage::GameUpdate(vec![NewPos {
        input: Vec2Fixed::new(0, 0),
        tick: 104,
        id: 1,
        pos: Vec2Fixed::new(0, 0),
    }]));
    // One replayed tick (104) at speed 2.5 toward (10, 0).
    assert_eq!(ctx.local.position, Vec2Fixed::new(2500, 0));
}

#[test]
fn game_update_dead_reckons_a_remote_player() {
    let mut ctx = started_context(100, 42);
    connect(&mut ctx, 2, "bob");
    ctx.handle_message(NetworkMessage::GameUpdate(vec![NewPos {
        input: Vec2Fixed::new(10_000, 0),
        tick: 104,
        id: 2,
        pos: Vec2Fixed::new(0, 0),
    }]));
    // Snap to the reported (0, 0) at tick 104, then one tick toward (10, 0)
    // at enemy speed 2.5 with tolerance 6: distance 10 > 6, move 2.5.
    assert_eq!(ctx.enemies[0].target, Vec2Fixed::new(10_000, 0));
    assert_eq!(ctx.enemies[0].position, Vec2Fixed::new(2500, 0));
    assert_eq!(ctx.enemies[0].past_pos.lookup(104), Some(Vec2Fixed::new(0, 0)));
}

#[test]
fn score_update_sets_scores_and_claims_the_bolt() {
    let mut ctx = started_context(100, 42);
    connect(&mut ctx, 2, "bob");
    // Walk one frame past tick 105 so a bolt with identity 105 exists.
    ctx.simulation_step();
    ctx.simulation_step();
    assert!(ctx.bolt.iter().any(|o| o.tick == 105));
    ctx.handle_message(NetworkMessage::ScoreUpdate(ScoreUpdate { id: 2, score: 3, tick: 105 }));
    assert!(ctx.bolt.iter().all(|o| o.tick != 105));
    assert_eq!(ctx.enemies[0].score, 3);
    ctx.handle_message(NetworkMessage::ScoreUpdate(ScoreUpdate { id: 1, score: 7, tick: 9999 }));
    assert_eq!(ctx.local.score, 7);
}

#[test]
fn damage_resets_the_local_player() {
    let mut ctx = started_context(100, 42);
    ctx.local.position = Vec2Fixed::new(4000, 4000);
    ctx.handle_message(NetworkMessage::DamagePlayer(Damage {
        id: 1,
        tick: None,
        secs_alive: 77,
        win: false,
        high_scores: Some(vec![(String::from("zed"), 120)]),
        pos: Vec2Fixed::new(4000, 4000),
    }));
    assert_eq!(ctx.local.position, Vec2Fixed::new(0, 0));
    assert_eq!(ctx.local.target, Vec2Fixed::new(0, 0));
    assert_eq!(ctx.local.death_time, Some(77));
    assert_eq!(ctx.high_scores.len(), 1);
    assert_eq!(ctx.high_scores[0].0, "zed");
}

#[test]
fn damage_marks_a_remote_player_dead() {
    let mut ctx = started_context(100, 42);
    connect(&mut ctx, 2, "bob");
    ctx.handle_message(NetworkMessage::DamagePlayer(Damage {
        id: 2,
        tick: None,
        secs_alive: 10,
        win: false,
        high_scores: None,
        pos: Vec2Fixed::new(0, 0),
    }));
    assert!(ctx.enemies[0].dead);
}

#[test]
fn reconnection_clears_the_dead_flag() {
    let mut ctx = started_context(100, 42);
    connect(&mut ctx, 2, "bob");
    ctx.handle_message(NetworkMessage::DamagePlayer(Damage {
        id: 2,
        tick: None,
        secs_alive: 10,
        win: false,
        high_scores: None,
        pos: Vec2Fixed::new(0, 0),
    }));
    assert!(ctx.enemies[0].dead);
    connect(&mut ctx, 2, "bob");
    assert_eq!(ctx.enemies.len(), 1);
    assert!(!ctx.enemies[0].dead);
}

#[test]
fn ping_changes_nothing() {
    let mut ctx = started_context(100, 42);
    let tick = ctx.clock.tick;
    ctx.handle_message(NetworkMessage::Ping);
    assert_eq!(ctx.clock.tick, tick);
    assert_eq!(ctx.enemies.len(), 0);
}

#[test]
fn unknown_entity_update_is_a_noop() {
    let mut ctx = started_context(100, 42);
    let pos = ctx.local.position;
    ctx.handle_message(NetworkMessage::GameUpdate(vec![NewPos {
        input: Vec2Fixed::new(0, 0),
        tick: 104,
        id: 555,
        pos: Vec2Fixed::new(9000, 9000),
    }]));
    assert_eq!(ctx.local.position, pos);
    assert_eq!(ctx.enemies.len(), 0);
}

#[test]
fn messages_before_a_game_are_harmless() {
    let mut ctx = SimulationContext::new(SimConfig::standard());
    ctx.handle_message(NetworkMessage::GameUpdate(vec![NewPos {
        input: Vec2Fixed::new(0, 0),
        tick: 1,
        id: 1,
        pos: Vec2Fixed::new(1, 1),
    }]));
    assert_eq!(ctx.clock.tick, None);
    assert_eq!(ctx.local.position, Vec2Fixed::new(0, 0));
}

#[test]
fn two_clients_stay_in_lockstep() {
    // Determinism end to end: two contexts fed the same messages and stepped
    // the same number of frames hold identical world state.
    let mut a = started_context(100, 42);
    let mut b = started_context(100, 42);
    for _ in 0..25 {
        a.simulation_step();
        b.simulation_step();
    }
    assert_eq!(a.clock.tick, b.clock.tick);
    assert_eq!(a.rain.len(), b.rain.len());
    assert_eq!(a.bolt.len(), b.bolt.len());
    for i in 0..a.rain.len() {
        assert_eq!(a.rain[i].tick, b.rain[i].tick);
        assert_eq!(a.rain[i].pos, b.rain[i].pos);
    }
    for i in 0..a.bolt.len() {
        assert_eq!(a.bolt[i].tick, b.bolt[i].tick);
        assert_eq!(a.bolt[i].pos, b.bolt[i].pos);
    }
}
