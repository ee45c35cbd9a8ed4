use rainrun_core::clock::ClientTick;
use rainrun_core::enemy::Enemy;
use rainrun_core::fixed::Vec2Fixed;
use rainrun_core::movement::MovementConfig;
use rainrun_core::pastpos::PastPositions;

fn test_cfg() -> MovementConfig {
    MovementConfig { speed: 2500, tolerance: 0, bound_x: 1_000_000, bound_y: 1_000_000 }
}

fn running_clock(tick: u64) -> ClientTick {
    let mut c = ClientTick::new();
    c.tick = Some(tick);
    c
}

#[test]
fn reconcile_without_history_keeps_position() {
    // No recorded position for the reported tick: the current extrapolated
    // position stands, and the replay runs from it toward the target.
    let mut e = Enemy::new(7, String::from("rival"), 8);
    e.position = Vec2Fixed::new(5000, 0);
    e.target = Vec2Fixed::new(10_000, 0);
    let clock = running_clock(52);
    let cfg = test_cfg();
    e.enemy_reconciliation(&clock, &cfg, 50);
    // Three replayed ticks (50, 51, 52): 5000 -> 7500 -> 10000 -> stays.
    assert_eq!(e.position, Vec2Fixed::new(10_000, 0));
}

#[test]
fn reconcile_snaps_to_recorded_position() {
    let mut e = Enemy::new(7, String::from("rival"), 8);
    e.position = Vec2Fixed::new(5000, 0);
    e.target = Vec2Fixed::new(10_000, 0);
    e.record_past_position(50, Vec2Fixed::new(0, 0));
    let clock = running_clock(52);
    let cfg = test_cfg();
    e.enemy_reconciliation(&clock, &cfg, 50);
    // Snapped to (0, 0), then three ticks toward (10, 0): 2500 each.
    assert_eq!(e.position, Vec2Fixed::new(7500, 0));
}

#[test]
fn reconcile_adopts_pending_input() {
    let mut e = Enemy::new(7, String::from("rival"), 8);
    e.record_past_position(50, Vec2Fixed::new(0, 0));
    e.record_pending_input(51, Vec2Fixed::new(0, 10_000));
    let clock = running_clock(52);
    let cfg = test_cfg();
    e.enemy_reconciliation(&clock, &cfg, 50);
    // Tick 50: no input, target (0,0), no move. Ticks 51, 52: toward (0, 10).
    assert_eq!(e.position, Vec2Fixed::new(0, 5000));
    assert_eq!(e.target, Vec2Fixed::new(0, 10_000));
}

#[test]
fn dead_enemy_is_frozen() {
    let mut e = Enemy::new(7, String::from("rival"), 8);
    e.position = Vec2Fixed::new(5000, 5000);
    e.target = Vec2Fixed::new(0, 0);
    e.dead = true;
    let clock = running_clock(52);
    let cfg = test_cfg();
    e.enemy_reconciliation(&clock, &cfg, 50);
    assert_eq!(e.position, Vec2Fixed::new(5000, 5000));
    e.apply_input(&clock, &cfg);
    assert_eq!(e.position, Vec2Fixed::new(5000, 5000));
}

#[test]
fn past_window_evicts_oldest() {
    let mut w = PastPositions::new(3);
    for t in 1..=4u64 {
        w.insert(t, Vec2Fixed::new(t as i64, 0));
    }
    assert_eq!(w.entries.len(), 3);
    assert_eq!(w.lookup(1), None);
    assert_eq!(w.lookup(2), Some(Vec2Fixed::new(2, 0)));
    assert_eq!(w.lookup(4), Some(Vec2Fixed::new(4, 0)));
}

#[test]
fn past_window_overwrites_same_tick() {
    let mut w = PastPositions::new(3);
    w.insert(5, Vec2Fixed::new(1, 1));
    w.insert(5, Vec2Fixed::new(2, 2));
    assert_eq!(w.entries.len(), 1);
    assert_eq!(w.lookup(5), Some(Vec2Fixed::new(2, 2)));
}

#[test]
fn past_window_keeps_order_on_out_of_order_insert() {
    let mut w = PastPositions::new(4);
    w.insert(10, Vec2Fixed::new(10, 0));
    w.insert(8, Vec2Fixed::new(8, 0));
    w.insert(9, Vec2Fixed::new(9, 0));
    assert_eq!(w.entries[0].0, 8);
    assert_eq!(w.entries[1].0, 9);
    assert_eq!(w.entries[2].0, 10);
}
