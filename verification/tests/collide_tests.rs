use asteroids_core::collide::{detect_collisions, CircleCollider, Collidable};
use asteroids_core::motion::Vec2i;

fn body(entity: u64, x: i64, y: i64, radius: i64) -> Collidable {
    Collidable {
        entity,
        position: Vec2i { x, y },
        collider: CircleCollider { radius },
    }
}

#[test]
fn distant_entities_produce_no_pairs() {
    // 300 units apart, radii 50 and 50
    let physical = vec![
        body(1, 0, 0, 50_000_000),
        body(2, 300_000_000, 0, 50_000_000),
    ];
    let events = detect_collisions(&physical);
    assert_eq!(events.len(), 0);
}

#[test]
fn overlapping_entities_produce_exactly_one_pair() {
    // 40 units apart, both radii 50: both perspectives overlap, one report
    let physical = vec![
        body(1, 0, 0, 50_000_000),
        body(2, 40_000_000, 0, 50_000_000),
    ];
    let events = detect_collisions(&physical);
    assert_eq!(events.len(), 1);
    assert_eq!(events[0].0, 1);
    assert_eq!(events[0].1, 2);
}

#[test]
fn no_pair_with_itself_and_no_reversed_duplicate() {
    let physical = vec![
        body(7, 0, 0, 50_000_000),
        body(8, 10_000_000, 0, 50_000_000),
        body(9, 500_000_000, 0, 50_000_000),
    ];
    let events = detect_collisions(&physical);
    for ev in events.iter() {
        assert_ne!(ev.0, ev.1);
    }
    for a in events.iter() {
        for b in events.iter() {
            assert!(!(a.0 == b.1 && a.1 == b.0));
        }
    }
    for (k1, a) in events.iter().enumerate() {
        for (k2, b) in events.iter().enumerate() {
            assert!(k1 == k2 || (a.0, a.1) != (b.0, b.1));
        }
    }
    assert_eq!(events.len(), 1);
}

#[test]
fn threshold_is_the_first_entitys_radius_alone() {
    // 60 units apart: inside entity 1's radius (80) but outside entity 2's (10)
    let big_first = vec![
        body(1, 0, 0, 80_000_000),
        body(2, 60_000_000, 0, 10_000_000),
    ];
    let events = detect_collisions(&big_first);
    assert_eq!(events.len(), 1);
    assert_eq!((events[0].0, events[0].1), (1, 2));

    // same bodies visited in the other order: the small entity registers
    // nothing, the big one still reports from its own perspective
    let small_first = vec![
        body(2, 60_000_000, 0, 10_000_000),
        body(1, 0, 0, 80_000_000),
    ];
    let events = detect_collisions(&small_first);
    assert_eq!(events.len(), 1);
    assert_eq!((events[0].0, events[0].1), (1, 2));
}

#[test]
fn touching_at_exactly_the_radius_is_no_overlap() {
    // distance exactly equal to the first radius: strict comparison, no pair
    let physical = vec![
        body(1, 0, 0, 50_000_000),
        body(2, 50_000_000, 0, 1_000_000),
    ];
    let events = detect_collisions(&physical);
    assert_eq!(events.len(), 0);
}

#[test]
fn every_overlapping_pair_is_reported() {
    // three entities stacked on one spot: three unordered pairs
    let physical = vec![
        body(1, 0, 0, 50_000_000),
        body(2, 1_000_000, 0, 50_000_000),
        body(3, 0, 1_000_000, 50_000_000),
    ];
    let events = detect_collisions(&physical);
    assert_eq!(events.len(), 3);
    let mut pairs: Vec<(u64, u64)> = events.iter().map(|e| (e.0, e.1)).collect();
    pairs.sort();
    assert_eq!(pairs, vec![(1, 2), (1, 3), (2, 3)]);
}
