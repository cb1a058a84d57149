use grid_game::coord::{Coordinate, Direction};
use grid_game::edge::{ClaimedEdgeSet, EdgeKey};
use grid_game::layout::edge_midpoint;

#[test]
fn edge_key_puts_the_smaller_cell_first() {
    let a = Coordinate::new(10, -3);
    let b = Coordinate::new(11, -4);
    let key = EdgeKey::new(a, b);
    assert_eq!(key.lo, a);
    assert_eq!(key.hi, b);
    assert_eq!(EdgeKey::new(b, a), key);
    let c = Coordinate::new(10, -4);
    assert_eq!(EdgeKey::new(a, c).lo, c);
    assert_eq!(EdgeKey::new(a, c).hi, a);
    assert_eq!(EdgeKey::new(a, a), EdgeKey { lo: a, hi: a });
}

#[test]
fn edge_key_agrees_with_min_and_max() {
    for x in -2..=2 {
        for y in -2..=2 {
            let a = Coordinate::new(x, y);
            for d in Direction::all() {
                let b = a.step(d);
                let key = EdgeKey::new(a, b);
                assert_eq!((key.lo, key.hi), (a.min(b), a.max(b)));
            }
        }
    }
}

#[test]
fn different_boundaries_have_different_keys() {
    let a = Coordinate::new(0, 0);
    let dirs = Direction::all();
    for i in 0..6 {
        for j in 0..6 {
            let same = EdgeKey::new(a, a.step(dirs[i])) == EdgeKey::new(a, a.step(dirs[j]));
            assert_eq!(same, i == j);
        }
    }
    assert_ne!(
        EdgeKey::new(a, a.step(Direction::XY)),
        EdgeKey::new(a.step(Direction::XY), a.step(Direction::XY).step(Direction::XY))
    );
}

#[test]
fn edge_key_midpoint_is_the_midpoint_of_the_shared_edge() {
    let a = Coordinate::new(10, -3);
    for d in Direction::all() {
        let key = EdgeKey::new(a, a.step(d));
        assert_eq!(key.midpoint(), edge_midpoint(a, d));
    }
}

#[test]
fn claimed_set_starts_empty() {
    let set = ClaimedEdgeSet::new();
    assert_eq!(set.len(), 0);
    let a = Coordinate::new(0, 0);
    assert!(!set.contains(EdgeKey::new(a, a.step(Direction::XY))));
}

#[test]
fn claimed_set_takes_each_boundary_once() {
    let mut set = ClaimedEdgeSet::new();
    let a = Coordinate::new(0, 0);
    let b = a.step(Direction::XY);
    let c = a.step(Direction::YZ);
    assert!(set.insert(EdgeKey::new(a, b)));
    assert_eq!(set.len(), 1);
    assert!(set.contains(EdgeKey::new(b, a)));
    assert!(!set.insert(EdgeKey::new(b, a)));
    assert_eq!(set.len(), 1);
    assert!(set.insert(EdgeKey::new(a, c)));
    assert_eq!(set.len(), 2);
    assert!(!set.contains(EdgeKey::new(b, c)));
}

#[test]
fn claimed_set_forgets_on_clear() {
    let mut set = ClaimedEdgeSet::new();
    let a = Coordinate::new(0, 0);
    let key = EdgeKey::new(a, a.step(Direction::ZX));
    assert!(set.insert(key));
    set.clear();
    assert_eq!(set.len(), 0);
    assert!(!set.contains(key));
    assert!(set.insert(key));
}
