//! The calls this library makes into the `hex2d` and `rand` crates. Each
//! function here is believed, not proved: its contract restates what the
//! crate's source does for the arguments that `requires` admits.

use crate::coord::{abs, heading, Coordinate, Direction};
use crate::ring::{ring_cell, ring_len};
use rand::seq::SliceRandom;
use vstd::prelude::*;

verus! {

/// `hex2d::Coordinate::neighbors`: the six cells one step away, in the order
/// `YZ, XZ, XY, ZY, ZX, YX`. The crate adds with plain `i32` arithmetic, so
/// both components must be one away from the ends of the `i32` range.
#[verifier::external_body]
pub(crate) fn hex_neighbors(c: Coordinate) -> (cells: [Coordinate; 6])
    requires
        i32::MIN < c.x < i32::MAX,
        i32::MIN < c.y < i32::MAX,
    ensures
        forall|i: int| 0 <= i < 6 ==> (#[trigger] cells@[i])@ == c@.step(Direction::spec_all()[i]),
{
    hex2d::Coordinate::new(c.x, c.y).neighbors().map(|n| Coordinate { x: n.x, y: n.y })
}

/// `hex2d::Coordinate::distance`: half the sum of the absolute differences of
/// the three cube components. The crate computes both `z` components, the
/// three differences and their sum in `i32`; `requires` keeps each in range.
#[verifier::external_body]
pub(crate) fn hex_distance(a: Coordinate, b: Coordinate) -> (d: i32)
    requires
        a.x != i32::MIN,
        b.x != i32::MIN,
        i32::MIN <= a@.z() <= i32::MAX,
        i32::MIN <= b@.z() <= i32::MAX,
        abs(a.x - b.x) + abs(a.y - b.y) + abs(a@.z() - b@.z()) <= i32::MAX,
    ensures
        d == a@.distance(b@),
{
    hex2d::Coordinate::new(a.x, a.y).distance(hex2d::Coordinate::new(b.x, b.y))
}

/// `hex2d::Coordinate::direction_to_cw`: the direction of the sextant that
/// holds `to - from`, a diagonal going to the direction clockwise of it, and
/// `None` when the two cells are equal. The crate subtracts in `i32` and
/// takes the `z` of the difference; `requires` keeps those in range. Its
/// panic is for three comparisons that hold together, which they do for no
/// cell (`lemma_heading_none`).
#[verifier::external_body]
pub(crate) fn hex_direction_to(from: Coordinate, to: Coordinate) -> (d: Option<Direction>)
    requires
        i32::MIN < to.x - from.x <= i32::MAX,
        i32::MIN <= to.y - from.y <= i32::MAX,
        i32::MIN <= to@.minus(from@).z() <= i32::MAX,
    ensures
        d == heading(to@.minus(from@)),
{
    let here = hex2d::Coordinate::new(from.x, from.y);
    match here.direction_to_cw(hex2d::Coordinate::new(to.x, to.y)) {
        None => None,
        Some(hex2d::Direction::YZ) => Some(Direction::YZ),
        Some(hex2d::Direction::XZ) => Some(Direction::XZ),
        Some(hex2d::Direction::XY) => Some(Direction::XY),
        Some(hex2d::Direction::ZY) => Some(Direction::ZY),
        Some(hex2d::Direction::ZX) => Some(Direction::ZX),
        Some(hex2d::Direction::YX) => Some(Direction::YX),
    }
}

/// `hex2d::Coordinate::ring_iter` with `Spin::CW(Direction::XY)`, collected:
/// the origin alone for radius 0, else `6 * radius` cells that start at
/// `origin + radius * XY` and run along the six sides in the directions
/// `ZX, YX, YZ, XZ, XY, ZY`. The iterator adds in `i32` and its size hint
/// computes `6 * radius` in `i32`; `requires` keeps both in range.
#[verifier::external_body]
pub(crate) fn hex_ring(origin: Coordinate, radius: i32) -> (cells: Vec<Coordinate>)
    requires
        0 <= radius,
        6 * radius <= i32::MAX,
        i32::MIN <= origin.x - radius,
        origin.x + radius <= i32::MAX,
        i32::MIN <= origin.y - radius,
        origin.y + radius <= i32::MAX,
    ensures
        cells@.len() == ring_len(radius as int),
        forall|i: int|
            0 <= i < cells@.len() ==> (#[trigger] cells@[i])@ == ring_cell(
                origin@,
                radius as int,
                i,
            ),
{
    hex2d::Coordinate::new(origin.x, origin.y)
        .ring_iter(radius, hex2d::Spin::CW(hex2d::Direction::XY))
        .map(|c| Coordinate { x: c.x, y: c.y })
        .collect()
}

/// `rand::seq::SliceRandom::choose` with `rand::thread_rng()`: one of the
/// six cells, picked at random. Nothing is claimed of which one. The
/// generator is seeded by the operating system.
#[verifier::external_body]
pub(crate) fn pick_one(cells: &[Coordinate; 6]) -> (picked: Coordinate)
    ensures
        cells@.contains(picked),
{
    *cells.choose(&mut rand::thread_rng()).unwrap()
}

} // verus!
