use grid_game::coord::Coordinate;
use grid_game::game::board_size;
use grid_game::ring::{ring, ring_cell_at};

fn pairs(cells: &[Coordinate]) -> Vec<(i32, i32)> {
    cells.iter().map(|c| (c.x, c.y)).collect()
}

#[test]
fn ring_of_radius_zero_is_the_origin_alone() {
    let cells = ring(Coordinate::new(0, 0), 0);
    assert_eq!(pairs(&cells), vec![(0, 0)]);
    let cells = ring(Coordinate::new(7, -2), 0);
    assert_eq!(pairs(&cells), vec![(7, -2)]);
}

#[test]
fn ring_of_radius_one_is_the_six_neighbors_clockwise() {
    let origin = Coordinate::new(0, 0);
    let cells = ring(origin, 1);
    assert_eq!(pairs(&cells), vec![(1, -1), (0, -1), (-1, 0), (-1, 1), (0, 1), (1, 0)]);
    for (i, c) in cells.iter().enumerate() {
        assert_eq!(origin.distance(*c), 1);
        let next = cells[(i + 1) % 6];
        assert_eq!(c.distance(next), 1);
    }
}

#[test]
fn ring_of_radius_two_in_order() {
    let cells = ring(Coordinate::new(0, 0), 2);
    assert_eq!(
        pairs(&cells),
        vec![
            (2, -2),
            (1, -2),
            (0, -2),
            (-1, -1),
            (-2, 0),
            (-2, 1),
            (-2, 2),
            (-1, 2),
            (0, 2),
            (1, 1),
            (2, 0),
            (2, -1)
        ]
    );
}

#[test]
fn ring_has_six_cells_per_unit_of_radius() {
    let origin = Coordinate::new(0, 0);
    for r in 0..=40 {
        let expected = if r == 0 { 1 } else { 6 * r as usize };
        assert_eq!(ring(origin, r).len(), expected);
    }
}

#[test]
fn rings_of_different_radii_share_no_cell() {
    let origin = Coordinate::new(3, -4);
    for r1 in 0..=8 {
        for r2 in (r1 + 1)..=9 {
            let a = ring(origin, r1);
            let b = ring(origin, r2);
            for c in &a {
                assert!(!b.contains(c));
            }
        }
    }
}

#[test]
fn ring_cells_are_distinct_and_at_the_radius() {
    let origin = Coordinate::new(-2, 9);
    for r in 0..=12 {
        let cells = ring(origin, r);
        for (i, c) in cells.iter().enumerate() {
            assert_eq!(origin.distance(*c), r);
            for d in &cells[i + 1..] {
                assert_ne!(c, d);
            }
        }
    }
}

#[test]
fn ring_neighbors_follow_each_other_around() {
    let origin = Coordinate::new(0, 0);
    for r in 1..=40 {
        let cells = ring(origin, r);
        let n = cells.len();
        for i in 0..n {
            assert_eq!(cells[i].distance(cells[(i + 1) % n]), 1);
        }
    }
}

#[test]
fn ring_cell_at_agrees_with_the_walked_ring() {
    let origin = Coordinate::new(5, -1);
    for r in 0..=40 {
        let cells = ring(origin, r);
        for (i, c) in cells.iter().enumerate() {
            assert_eq!(ring_cell_at(origin, r, i as i32), *c);
        }
    }
}

#[test]
fn ring_agrees_with_hex2d() {
    for &(x, y) in &[(0, 0), (10, -3), (-7, 7)] {
        for r in 0..=20 {
            let expected: Vec<(i32, i32)> = hex2d::Coordinate::new(x, y)
                .ring_iter(r, hex2d::Spin::CW(hex2d::Direction::XY))
                .map(|c| (c.x, c.y))
                .collect();
            assert_eq!(pairs(&ring(Coordinate::new(x, y), r)), expected);
        }
    }
}

#[test]
fn ring_at_the_edge_of_the_integer_range() {
    let origin = Coordinate::new(i32::MAX - 2, i32::MIN + 2);
    let cells = ring(origin, 2);
    assert_eq!(cells.len(), 12);
    assert_eq!(cells[0], Coordinate::new(i32::MAX, i32::MIN));
}

#[test]
fn rings_of_the_board_add_up() {
    let origin = Coordinate::new(0, 0);
    let mut total: u64 = 0;
    for r in 0..=40 {
        total += ring(origin, r).len() as u64;
        assert_eq!(total, board_size(r as u32));
    }
    assert_eq!(total, 4921);
}
