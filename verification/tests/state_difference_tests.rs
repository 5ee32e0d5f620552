use state_overlay::grid::{Position, Ship};
use state_overlay::state_difference::{OverlayPool, StateDifference};

fn sample_ship(pos: Position) -> Ship {
    Ship { id: 1, position: pos, halite: 0 }
}

#[test]
fn ships_set_get() {
    let mut diff = StateDifference::new();
    let pos_1 = Position { x: 4, y: 8 };
    let ship = sample_ship(pos_1);
    diff.set_ship(ship.clone(), None);
}

#[test]
fn set_ship_then_lookup() {
    let mut diff = StateDifference::new();
    let pos = Position { x: 4, y: 8 };
    let ship = sample_ship(pos);
    diff.set_ship(ship, None);
    assert_eq!(diff.ship(1), Some(ship));
    assert_eq!(diff.ship_at(pos), Some(1));
    assert_eq!(diff.ship(2), None);
    assert_eq!(diff.ship_at(Position { x: 0, y: 0 }), None);
}

#[test]
fn moving_a_ship_retracts_the_old_index_entry() {
    let mut diff = StateDifference::new();
    let s1_before = Ship { id: 7, position: Position { x: 2, y: 3 }, halite: 0 };
    diff.set_ship(s1_before, None);
    assert_eq!(diff.ship_at(Position { x: 2, y: 3 }), Some(7));

    let s1_after = Ship { id: 7, position: Position { x: 2, y: 4 }, halite: 0 };
    diff.set_ship(s1_after, Some(&s1_before));
    assert_eq!(diff.ship_at(Position { x: 2, y: 3 }), None);
    assert_eq!(diff.ship_at(Position { x: 2, y: 4 }), Some(7));
    assert_eq!(diff.ship(7), Some(s1_after));
}

#[test]
fn halite_set_get() {
    let mut diff = StateDifference::new();
    let pos = Position { x: -3, y: 11 };
    assert_eq!(diff.halite(&pos), None);
    diff.set_halite(pos, 950);
    assert_eq!(diff.halite(&pos), Some(950));
    diff.set_halite(pos, 10);
    assert_eq!(diff.halite(&pos), Some(10));
}

#[test]
fn negative_coordinates_stay_distinct() {
    let mut diff = StateDifference::new();
    diff.set_halite(Position { x: -1, y: 0 }, 1);
    diff.set_halite(Position { x: 0, y: -1 }, 2);
    diff.set_halite(Position { x: 1, y: 0 }, 3);
    assert_eq!(diff.halite(&Position { x: -1, y: 0 }), Some(1));
    assert_eq!(diff.halite(&Position { x: 0, y: -1 }), Some(2));
    assert_eq!(diff.halite(&Position { x: 1, y: 0 }), Some(3));
}

#[test]
fn clear_forgets_every_entry() {
    let mut diff = StateDifference::new();
    let pos = Position { x: 4, y: 8 };
    diff.set_ship(sample_ship(pos), None);
    diff.set_halite(Position { x: 9, y: 9 }, 77);
    diff.clear();
    assert_eq!(diff.ship(1), None);
    assert_eq!(diff.ship_at(pos), None);
    assert_eq!(diff.halite(&Position { x: 9, y: 9 }), None);
}

#[test]
fn merge_prefers_the_merged_overlay() {
    let mut a = StateDifference::new();
    let mut b = StateDifference::new();

    // Key in both: b's value must win.
    let a_ship = Ship { id: 1, position: Position { x: 0, y: 0 }, halite: 5 };
    let b_ship = Ship { id: 1, position: Position { x: 3, y: 3 }, halite: 9 };
    a.set_ship(a_ship, None);
    b.set_ship(b_ship, None);
    a.set_halite(Position { x: 1, y: 1 }, 100);
    b.set_halite(Position { x: 1, y: 1 }, 200);

    // Key only in a: untouched.
    a.set_halite(Position { x: 2, y: 2 }, 40);
    // Key only in b: newly readable from a.
    let b_only = Ship { id: 8, position: Position { x: 6, y: 6 }, halite: 0 };
    b.set_ship(b_only, None);

    a.extend(&mut b);

    assert_eq!(a.ship(1), Some(b_ship));
    assert_eq!(a.halite(&Position { x: 1, y: 1 }), Some(200));
    assert_eq!(a.halite(&Position { x: 2, y: 2 }), Some(40));
    assert_eq!(a.ship(8), Some(b_only));
    assert_eq!(a.ship_at(Position { x: 6, y: 6 }), Some(8));

    // The merged-from overlay is drained empty.
    assert_eq!(b.ship(1), None);
    assert_eq!(b.ship(8), None);
    assert_eq!(b.halite(&Position { x: 1, y: 1 }), None);
    assert_eq!(b.ship_at(Position { x: 3, y: 3 }), None);
}

#[test]
fn pooled_overlay_reads_as_fresh() {
    let mut pool = OverlayPool::new();
    let mut x = pool.acquire();
    let pos = Position { x: 4, y: 8 };
    x.set_ship(sample_ship(pos), None);
    x.set_halite(pos, 123);
    pool.release(x);

    let y = pool.acquire();
    assert_eq!(y.ship(1), None);
    assert_eq!(y.ship_at(pos), None);
    assert_eq!(y.halite(&pos), None);
}

#[test]
fn pool_allocates_when_empty() {
    let mut pool = OverlayPool::new();
    let a = pool.acquire();
    assert_eq!(a.ship(42), None);
}
