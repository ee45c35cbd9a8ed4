use rainrun_core::fixed::Vec2Fixed;
use rainrun_core::pool::VisualSlotPool;

fn visible_count(p: &VisualSlotPool) -> usize {
    p.slots.iter().filter(|s| s.visible).count()
}

#[test]
fn pool_shows_min_of_live_and_capacity() {
    // Capacity 3, five live objects: exactly 3 slots visible, 2 objects
    // silently unrendered; shrinking to 2 live objects hides the third slot.
    let mut pool = VisualSlotPool::new(3);
    let five: Vec<Vec2Fixed> = (0..5).map(|i| Vec2Fixed::new(i * 100, 0)).collect();
    pool.assign(&five);
    assert_eq!(visible_count(&pool), 3);
    let two: Vec<Vec2Fixed> = (0..2).map(|i| Vec2Fixed::new(i * 100, 0)).collect();
    pool.assign(&two);
    assert_eq!(visible_count(&pool), 2);
    assert!(!pool.slots[2].visible);
}

#[test]
fn pool_assigns_positions_in_lockstep() {
    let mut pool = VisualSlotPool::new(4);
    let live = vec![Vec2Fixed::new(1, 2), Vec2Fixed::new(3, 4)];
    pool.assign(&live);
    assert!(pool.slots[0].visible);
    assert_eq!(pool.slots[0].pos, Vec2Fixed::new(1, 2));
    assert!(pool.slots[1].visible);
    assert_eq!(pool.slots[1].pos, Vec2Fixed::new(3, 4));
    assert!(!pool.slots[2].visible);
    assert!(!pool.slots[3].visible);
}

#[test]
fn new_pool_is_fully_hidden() {
    let pool = VisualSlotPool::new(5);
    assert_eq!(pool.slots.len(), 5);
    assert_eq!(visible_count(&pool), 0);
}
