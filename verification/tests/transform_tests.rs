use grid_game::fraction::Fraction;
use grid_game::transforms::{Point, Transform, TransformError};

fn frac(num: i128, den: i128) -> Fraction {
    Fraction { num, den }
}

fn same(a: Fraction, b: Fraction) -> bool {
    a.num * b.den == b.num * a.den
}

fn is_whole(a: Fraction, v: i128) -> bool {
    a.num == v * a.den
}

fn at(p: Point, x: i128, y: i128) -> bool {
    is_whole(p.x, x) && is_whole(p.y, y)
}

fn to_f64(a: Fraction) -> f64 {
    a.num as f64 / a.den as f64
}

/// The same fit in floating point, for comparison.
fn float_fit(s1: (f64, f64), s2: (f64, f64), d1: (f64, f64), d2: (f64, f64)) -> [f64; 4] {
    fn padded(s1: (f64, f64), s2: (f64, f64), d1: (f64, f64), d2: (f64, f64)) -> [f64; 4] {
        let scale_y = (d1.1 - d2.1) / (s1.1 - s2.1);
        let offset_y = d1.1 - s1.1 * scale_y;
        let scale_x = if (s2.0 - s1.0) * (d2.0 - d1.0) < 0.0 {
            -scale_y.abs()
        } else {
            scale_y.abs()
        };
        let offset_x = (d1.0 + d2.0) / 2.0 - (s1.0 + s2.0) / 2.0 * scale_x;
        [scale_x, scale_y, offset_x, offset_y]
    }
    let tr = |p: (f64, f64)| (p.1, p.0);
    let sw = (s1.0 - s2.0).abs();
    let sh = (s1.1 - s2.1).abs();
    let dw = (d1.0 - d2.0).abs();
    let dh = (d1.1 - d2.1).abs();
    if sh * dw > dh * sw {
        padded(s1, s2, d1, d2)
    } else {
        let t = padded(tr(s1), tr(s2), tr(d1), tr(d2));
        [t[1], t[0], t[3], t[2]]
    }
}

#[test]
fn square_into_a_wide_rectangle() {
    let t = Transform::new_letterboxed(
        Point::from_ints(-1, -1),
        Point::from_ints(1, 1),
        Point::from_ints(0, 0),
        Point::from_ints(200, 100),
    )
    .unwrap();
    assert!(is_whole(t.scale_x, 50));
    assert!(is_whole(t.scale_y, 50));
    assert!(is_whole(t.offset_x, 100));
    assert!(is_whole(t.offset_y, 50));
    let center = t.map_point(Point::from_ints(0, 0)).unwrap();
    assert!(at(center, 100, 50));
    assert!(at(t.map_point(Point::from_ints(-1, -1)).unwrap(), 50, 0));
    assert!(at(t.map_point(Point::from_ints(1, 1)).unwrap(), 150, 100));
}

#[test]
fn square_into_a_tall_rectangle() {
    let t = Transform::new_letterboxed(
        Point::from_ints(-1, -1),
        Point::from_ints(1, 1),
        Point::from_ints(0, 0),
        Point::from_ints(100, 200),
    )
    .unwrap();
    assert!(is_whole(t.scale_x, 50));
    assert!(is_whole(t.scale_y, 50));
    assert!(at(t.map_point(Point::from_ints(0, 0)).unwrap(), 50, 100));
    assert!(at(t.map_point(Point::from_ints(-1, -1)).unwrap(), 0, 50));
    assert!(at(t.map_point(Point::from_ints(1, 1)).unwrap(), 100, 150));
}

#[test]
fn letterboxed_numbers_are_not_reduced() {
    let t = Transform::new_letterboxed(
        Point::from_ints(-1, -1),
        Point::from_ints(1, 1),
        Point::from_ints(0, 0),
        Point::from_ints(200, 100),
    )
    .unwrap();
    assert_eq!(t.scale_y, frac(100, 2));
    assert_eq!(t.scale_x, frac(100, 2));
    assert_eq!(t.offset_y, frac(100, 2));
    assert_eq!(t.offset_x, frac(800, 8));
}

#[test]
fn flipped_source_keeps_the_flip() {
    // The source runs upwards, the destination downwards, as on a screen.
    let t = Transform::new_letterboxed(
        Point::from_ints(-10, 5),
        Point::from_ints(10, -5),
        Point::from_ints(0, 0),
        Point::from_ints(400, 400),
    )
    .unwrap();
    assert!(is_whole(t.scale_x, 20));
    assert!(is_whole(t.scale_y, -20));
    assert!(at(t.map_point(Point::from_ints(-10, 5)).unwrap(), 0, 100));
    assert!(at(t.map_point(Point::from_ints(10, -5)).unwrap(), 400, 300));
    assert!(at(t.map_point(Point::from_ints(0, 0)).unwrap(), 200, 200));
}

#[test]
fn mirrored_axis_stays_mirrored_on_the_padded_axis() {
    let t = Transform::new_letterboxed(
        Point::from_ints(1, -1),
        Point::from_ints(-1, 1),
        Point::from_ints(0, 0),
        Point::from_ints(200, 100),
    )
    .unwrap();
    assert!(is_whole(t.scale_x, -50));
    assert!(is_whole(t.scale_y, 50));
    assert!(at(t.map_point(Point::from_ints(1, -1)).unwrap(), 50, 0));
    assert!(at(t.map_point(Point::from_ints(-1, 1)).unwrap(), 150, 100));
}

#[test]
fn equal_aspect_ratios_fill_the_destination() {
    let t = Transform::new_letterboxed(
        Point::from_ints(0, 0),
        Point::from_ints(4, 2),
        Point::from_ints(10, 10),
        Point::from_ints(30, 20),
    )
    .unwrap();
    assert!(at(t.map_point(Point::from_ints(0, 0)).unwrap(), 10, 10));
    assert!(at(t.map_point(Point::from_ints(4, 2)).unwrap(), 30, 20));
}

#[test]
fn letterboxing_centers_on_the_padded_axis() {
    let cases = [
        ((-3, -7), (5, 9), (10, 20), (650, 500)),
        ((-3, -7), (5, 9), (10, 20), (50, 500)),
        ((2, 9), (11, -4), (0, 0), (1920, 1080)),
        ((2, 9), (11, -4), (1080, 1920), (0, 0)),
    ];
    for (s1, s2, d1, d2) in cases {
        let t = Transform::new_letterboxed(
            Point::from_ints(s1.0, s1.1),
            Point::from_ints(s2.0, s2.1),
            Point::from_ints(d1.0, d1.1),
            Point::from_ints(d2.0, d2.1),
        )
        .unwrap();
        let a = t.map_point(Point::from_ints(s1.0, s1.1)).unwrap();
        let b = t.map_point(Point::from_ints(s2.0, s2.1)).unwrap();
        // Twice the midpoint on each axis.
        let mx = a.x.plus(b.x).unwrap();
        let my = a.y.plus(b.y).unwrap();
        assert!(is_whole(mx, (d1.0 + d2.0) as i128));
        assert!(is_whole(my, (d1.1 + d2.1) as i128));
        // Same magnitude of scale on both axes.
        assert!(same(t.scale_x.magnitude(), t.scale_y.magnitude()));
        // One axis is mapped corner to corner.
        let across = is_whole(a.x, d1.0 as i128) && is_whole(b.x, d2.0 as i128);
        let along = is_whole(a.y, d1.1 as i128) && is_whole(b.y, d2.1 as i128);
        assert!(across || along);
    }
}

#[test]
fn letterboxing_agrees_with_floating_point() {
    let cases = [
        ((-3, -7), (5, 9), (10, 20), (650, 500)),
        ((-71, 62), (71, -62), (0, 0), (1280, 720)),
        ((-71, 62), (71, -62), (0, 0), (600, 900)),
        ((5, 5), (-5, -6), (300, 10), (20, 700)),
    ];
    for (s1, s2, d1, d2) in cases {
        let t = Transform::new_letterboxed(
            Point::from_ints(s1.0, s1.1),
            Point::from_ints(s2.0, s2.1),
            Point::from_ints(d1.0, d1.1),
            Point::from_ints(d2.0, d2.1),
        )
        .unwrap();
        let f = |p: (i64, i64)| (p.0 as f64, p.1 as f64);
        let expected = float_fit(f(s1), f(s2), f(d1), f(d2));
        let got = [
            to_f64(t.scale_x),
            to_f64(t.scale_y),
            to_f64(t.offset_x),
            to_f64(t.offset_y),
        ];
        for i in 0..4 {
            assert!((got[i] - expected[i]).abs() < 1e-9);
        }
    }
}

#[test]
fn rectangles_without_extent_are_refused() {
    let p = Point::from_ints;
    let degenerate = Err(TransformError::Degenerate);
    assert_eq!(Transform::new_letterboxed(p(1, 0), p(1, 5), p(0, 0), p(9, 9)), degenerate);
    assert_eq!(Transform::new_letterboxed(p(0, 5), p(1, 5), p(0, 0), p(9, 9)), degenerate);
    assert_eq!(Transform::new_letterboxed(p(0, 0), p(1, 5), p(3, 0), p(3, 9)), degenerate);
    assert_eq!(Transform::new_letterboxed(p(0, 0), p(1, 5), p(0, 9), p(3, 9)), degenerate);
    assert_eq!(Transform::new_letterboxed(p(0, 0), p(0, 0), p(0, 0), p(0, 0)), degenerate);
    let halves = Point::new(frac(1, 2), frac(3, 1));
    let again = Point::new(frac(2, 4), frac(5, 1));
    assert_eq!(
        Transform::new_letterboxed(halves, again, p(0, 0), p(9, 9)),
        degenerate
    );
}

#[test]
fn numbers_out_of_range_are_reported() {
    let big = Point::new(frac(i128::MAX, 1), frac(i128::MAX, 1));
    let small = Point::new(frac(-i128::MAX, 1), frac(-i128::MAX, 1));
    assert_eq!(
        Transform::new_letterboxed(big, small, Point::from_ints(0, 0), Point::from_ints(9, 9)),
        Err(TransformError::Overflow)
    );
    let wide = Point::new(frac(1 << 100, 1), frac(1, 1));
    let tall = Point::new(frac(1, 1), frac(1 << 100, 1));
    assert_eq!(
        Transform::new_letterboxed(Point::from_ints(0, 0), wide, Point::from_ints(0, 0), tall),
        Err(TransformError::Overflow)
    );
    assert!(Transform::new_letterboxed(
        Point::from_ints(0, 0),
        wide,
        Point::from_ints(0, 0),
        Point::new(frac(1 << 100, 1), frac(3, 1))
    )
    .is_ok());
}

#[test]
fn whole_rectangles_far_out_still_fit() {
    let far = 1i64 << 60;
    let t = Transform::new_letterboxed(
        Point::from_ints(-far, -far),
        Point::from_ints(far, far),
        Point::from_ints(-far, far),
        Point::from_ints(far, -far),
    )
    .unwrap();
    assert!(is_whole(t.scale_x, 1));
    assert!(is_whole(t.scale_y, -1));
}

#[test]
fn horizontal_padding_fits_the_height() {
    let t = Transform::new_horizontal_padded(
        Point::from_ints(0, 0),
        Point::from_ints(2, 10),
        Point::from_ints(0, 0),
        Point::from_ints(100, 50),
    )
    .unwrap();
    assert_eq!(t.scale_y, frac(50, 10));
    assert_eq!(t.scale_x, frac(50, 10));
    assert!(is_whole(t.offset_y, 0));
    assert!(is_whole(t.offset_x, 45));
    assert_eq!(
        Transform::new_horizontal_padded(
            Point::from_ints(0, 3),
            Point::from_ints(2, 3),
            Point::from_ints(0, 0),
            Point::from_ints(100, 50),
        ),
        None
    );
}

#[test]
fn transpose_swaps_the_axes() {
    let t = Transform {
        scale_x: frac(1, 2),
        scale_y: frac(3, 4),
        offset_x: frac(5, 6),
        offset_y: frac(7, 8),
    };
    let swapped = t.transpose();
    assert_eq!(swapped.scale_x, frac(3, 4));
    assert_eq!(swapped.scale_y, frac(1, 2));
    assert_eq!(swapped.offset_x, frac(7, 8));
    assert_eq!(swapped.offset_y, frac(5, 6));
    assert_ne!(swapped, t);
}

#[test]
fn transpose_twice_is_the_same_transform() {
    let t = Transform {
        scale_x: frac(1, 2),
        scale_y: frac(-3, 4),
        offset_x: frac(5, 6),
        offset_y: frac(-7, 8),
    };
    assert_eq!(t.transpose().transpose(), t);
    let fit = Transform::new_letterboxed(
        Point::from_ints(-3, -7),
        Point::from_ints(5, 9),
        Point::from_ints(10, 20),
        Point::from_ints(650, 500),
    )
    .unwrap();
    assert_eq!(fit.transpose().transpose(), fit);
}

#[test]
fn map_point_scales_and_shifts() {
    let t = Transform {
        scale_x: frac(3, 2),
        scale_y: frac(-2, 1),
        offset_x: frac(1, 4),
        offset_y: frac(5, 1),
    };
    let q = t.map_point(Point::new(frac(2, 3), frac(7, 2))).unwrap();
    assert_eq!(q.x, frac(6 * 4 + 6, 24));
    assert_eq!(q.y, frac(-14 + 10, 2));
    assert!(same(q.x, frac(5, 4)));
    assert!(is_whole(q.y, -2));
    let huge = Transform { scale_x: frac(1 << 100, 1), ..t };
    assert_eq!(huge.map_point(Point::new(frac(1 << 30, 1), frac(0, 1))), None);
}

#[test]
fn inverse_is_reciprocal_scale_and_negated_offset() {
    let t = Transform {
        scale_x: frac(3, 2),
        scale_y: frac(-2, 1),
        offset_x: frac(1, 4),
        offset_y: frac(5, 1),
    };
    let inv = t.inverse().unwrap();
    assert_eq!(inv.scale_x, frac(2, 3));
    assert_eq!(inv.scale_y, frac(-1, 2));
    assert_eq!(inv.offset_x, frac(-2, 12));
    assert_eq!(inv.offset_y, frac(5, 2));
    let big = Transform { offset_x: frac(1 << 100, 1), scale_x: frac(1, 1 << 100), ..t };
    assert_eq!(big.inverse(), None);
}

#[test]
fn inverse_undoes_the_transform() {
    let t = Transform::new_letterboxed(
        Point::from_ints(-71, 62),
        Point::from_ints(71, -62),
        Point::from_ints(0, 0),
        Point::from_ints(1280, 720),
    )
    .unwrap();
    let inv = t.inverse().unwrap();
    for x in [-71i64, -10, 0, 3, 71] {
        for y in [-62i64, -1, 0, 17, 62] {
            let p = Point::from_ints(x, y);
            let there = t.map_point(p).unwrap();
            let back = inv.map_point(there).unwrap();
            assert!(at(back, x as i128, y as i128));
            let out = inv.map_point(p).unwrap();
            let home = t.map_point(out).unwrap();
            assert!(at(home, x as i128, y as i128));
        }
    }
    let p = Point::new(frac(22, 7), frac(-5, 3));
    let back = inv.map_point(t.map_point(p).unwrap()).unwrap();
    assert!(same(back.x, p.x) && same(back.y, p.y));
}

#[test]
fn map_dist_scales_by_the_magnitude_and_keeps_the_sign() {
    let t = Transform {
        scale_x: frac(-3, 2),
        scale_y: frac(7, 1),
        offset_x: frac(1, 4),
        offset_y: frac(5, 1),
    };
    assert_eq!(t.map_dist(frac(1, 1)), Some(frac(3, 2)));
    assert_eq!(t.map_dist(frac(-1, 4)), Some(frac(-3, 8)));
    assert_eq!(t.map_dist(frac(0, 1)), Some(frac(0, 2)));
    assert_eq!(t.map_dist(frac(1 << 126, 1)), None);
    let fit = Transform::new_letterboxed(
        Point::from_ints(-1, -1),
        Point::from_ints(1, 1),
        Point::from_ints(0, 0),
        Point::from_ints(200, 100),
    )
    .unwrap();
    assert!(is_whole(fit.map_dist(Fraction::from_int(1)).unwrap(), 50));
}

#[test]
fn points_swap_their_components() {
    let p = Point::new(frac(1, 2), frac(3, 4));
    assert_eq!(p.swapped(), Point::new(frac(3, 4), frac(1, 2)));
    assert_eq!(Point::from_ints(3, -4), Point::new(frac(3, 1), frac(-4, 1)));
}
