use rainrun_core::clock::ClientTick;
use rainrun_core::fixed::Vec2Fixed;
use rainrun_core::movement::MovementConfig;
use rainrun_core::player::Player;

fn test_cfg() -> MovementConfig {
    MovementConfig { speed: 2500, tolerance: 0, bound_x: 1_000_000, bound_y: 1_000_000 }
}

fn running_clock(tick: u64) -> ClientTick {
    let mut c = ClientTick::new();
    c.tick = Some(tick);
    c
}

#[test]
fn movement_scales_direction_to_speed() {
    // Direction (3, 4) has length 5; at speed 2.5 the step is (1.5, 2.0).
    let mut p = Player::new(1);
    p.record_input(1, Vec2Fixed::new(3000, 4000));
    let clock = running_clock(1);
    let cfg = test_cfg();
    p.apply_input(&clock, &cfg);
    assert_eq!(p.position, Vec2Fixed::new(1500, 2000));
}

#[test]
fn movement_takes_direction_when_within_one_step() {
    let mut p = Player::new(1);
    p.record_input(1, Vec2Fixed::new(2000, 0));
    let clock = running_clock(1);
    let cfg = test_cfg();
    p.apply_input(&clock, &cfg);
    assert_eq!(p.position, Vec2Fixed::new(2000, 0));
}

#[test]
fn movement_stops_within_tolerance() {
    let mut p = Player::new(1);
    p.record_input(1, Vec2Fixed::new(5000, 0));
    let clock = running_clock(1);
    let cfg = MovementConfig { speed: 2500, tolerance: 6000, bound_x: 1_000_000, bound_y: 1_000_000 };
    p.apply_input(&clock, &cfg);
    assert_eq!(p.position, Vec2Fixed::new(0, 0));
}

#[test]
fn movement_blocked_at_world_bounds() {
    let mut p = Player::new(1);
    p.position = Vec2Fixed::new(999_500, 0);
    p.record_input(1, Vec2Fixed::new(2_000_000, 0));
    let clock = running_clock(1);
    let cfg = test_cfg();
    p.apply_input(&clock, &cfg);
    assert_eq!(p.position, Vec2Fixed::new(999_500, 0));
}

#[test]
fn movement_frozen_while_paused() {
    let mut p = Player::new(1);
    p.record_input(1, Vec2Fixed::new(10_000, 0));
    let mut clock = running_clock(1);
    clock.pause = 3;
    let cfg = test_cfg();
    p.apply_input(&clock, &cfg);
    assert_eq!(p.position, Vec2Fixed::new(0, 0));
}

#[test]
fn reconciliation_replays_to_target() {
    // Inputs at ticks 1..=4 all aim at (10, 0); replaying from the server
    // snapshot at (0, 0), tick 1, through client tick 4 at speed 2.5 lands
    // exactly on the target and stays there.
    let mut p = Player::new(1);
    for t in 1..=4u64 {
        p.record_input(t, Vec2Fixed::new(10_000, 0));
    }
    let clock = running_clock(4);
    let cfg = test_cfg();
    p.server_reconciliation(&clock, &cfg, Vec2Fixed::new(0, 0), 1);
    assert_eq!(p.position, Vec2Fixed::new(10_000, 0));
    assert_eq!(p.target, Vec2Fixed::new(10_000, 0));
}

#[test]
fn reconciliation_discards_confirmed_inputs() {
    let mut p = Player::new(1);
    p.record_input(0, Vec2Fixed::new(1000, 0));
    p.record_input(3, Vec2Fixed::new(2000, 0));
    let clock = running_clock(4);
    let cfg = test_cfg();
    p.server_reconciliation(&clock, &cfg, Vec2Fixed::new(0, 0), 2);
    assert_eq!(p.pending_inputs.len(), 1);
    assert_eq!(p.pending_inputs[0].tick, 3);
}

#[test]
fn reconciliation_server_ahead_adopts_position_only() {
    let mut p = Player::new(1);
    p.position = Vec2Fixed::new(7000, 7000);
    p.record_input(4, Vec2Fixed::new(10_000, 0));
    let clock = running_clock(4);
    let cfg = test_cfg();
    p.server_reconciliation(&clock, &cfg, Vec2Fixed::new(123, 456), 10);
    assert_eq!(p.position, Vec2Fixed::new(123, 456));
}

#[test]
fn reconciliation_is_idempotent() {
    let mut p = Player::new(1);
    for t in 1..=4u64 {
        p.record_input(t, Vec2Fixed::new(9000, -3000));
    }
    let clock = running_clock(4);
    let cfg = test_cfg();
    p.server_reconciliation(&clock, &cfg, Vec2Fixed::new(500, 500), 1);
    let once = p.position;
    p.server_reconciliation(&clock, &cfg, Vec2Fixed::new(500, 500), 1);
    assert_eq!(p.position, once);
}

#[test]
fn record_input_predicts_immediately() {
    let mut p = Player::new(1);
    p.record_input(7, Vec2Fixed::new(4000, -2000));
    assert_eq!(p.target, Vec2Fixed::new(4000, -2000));
    assert_eq!(p.pending_inputs.len(), 1);
    assert_eq!(p.pending_inputs[0].tick, 7);
}
