//! The exact layout of pointy-top hexagons with side length 1.
//!
//! Every point that the layout needs (cell centers, hexagon corners, edge
//! midpoints) lies on a lattice whose horizontal unit is `sqrt(3) / 4` and
//! whose vertical unit is `1 / 4`, so the layout is computed in integers and
//! turned into screen coordinates by the caller.

use crate::coord::{Axial, Coordinate, Direction};
use vstd::prelude::*;

verus! {

/// A point of the plane, in lattice units, as mathematical integers.
pub struct PlanePoint {
    pub u: int,
    pub v: int,
}

impl PlanePoint {
    /// Component-wise sum.
    pub open spec fn plus(self, other: PlanePoint) -> PlanePoint {
        PlanePoint { u: self.u + other.u, v: self.v + other.v }
    }
}

/// The point `(u * sqrt(3) / 4, v / 4)` of the plane, y pointing up.
#[derive(Clone, Copy, Debug, PartialEq, Eq, Structural, Hash)]
pub struct LatticePoint {
    pub u: i64,
    pub v: i64,
}

impl View for LatticePoint {
    type V = PlanePoint;

    open spec fn view(&self) -> PlanePoint {
        PlanePoint { u: self.u as int, v: self.v as int }
    }
}

/// The center of cell `c`: `sqrt(3) * (x + z / 2)` across and `3 / 2 * z` up.
pub open spec fn center_of(c: Axial) -> PlanePoint {
    PlanePoint { u: 2 * (c.x - c.y), v: 6 * c.z() }
}

/// Corner `i` of a hexagon, relative to its center. Corner 0 is the top one,
/// the others follow clockwise, and corner 6 is corner 0 again.
pub open spec fn corner_offset(i: int) -> PlanePoint {
    if i == 0 || i == 6 {
        PlanePoint { u: 0, v: 4 }
    } else if i == 1 {
        PlanePoint { u: 2, v: 2 }
    } else if i == 2 {
        PlanePoint { u: 2, v: -2 }
    } else if i == 3 {
        PlanePoint { u: 0, v: -4 }
    } else if i == 4 {
        PlanePoint { u: -2, v: -2 }
    } else {
        PlanePoint { u: -2, v: 2 }
    }
}

/// The number of the hexagon edge that faces the neighbor in direction `d`.
/// Edge `i` runs from corner `i` to corner `i + 1`.
pub open spec fn edge_index(d: Direction) -> int {
    match d {
        Direction::ZY => 0,
        Direction::XY => 1,
        Direction::XZ => 2,
        Direction::YZ => 3,
        Direction::YX => 4,
        Direction::ZX => 5,
    }
}

/// The midpoint of the edge of cell `c` that faces direction `d`.
pub open spec fn edge_midpoint_of(c: Axial, d: Direction) -> PlanePoint {
    PlanePoint {
        u: center_of(c).u + (corner_offset(edge_index(d)).u + corner_offset(edge_index(d) + 1).u)
            / 2,
        v: center_of(c).v + (corner_offset(edge_index(d)).v + corner_offset(edge_index(d) + 1).v)
            / 2,
    }
}

/// The center of a cell.
pub fn cell_center(c: Coordinate) -> (p: LatticePoint)
    ensures
        p@ == center_of(c@),
{
    let x: i64 = c.x as i64;
    let y: i64 = c.y as i64;
    LatticePoint { u: 2 * (x - y), v: 6 * (-x - y) }
}

/// Corner `i` of a hexagon, relative to its center.
pub fn hexagon_corner(i: usize) -> (p: LatticePoint)
    requires
        i <= 6,
    ensures
        p@ == corner_offset(i as int),
{
    if i == 0 || i == 6 {
        LatticePoint { u: 0, v: 4 }
    } else if i == 1 {
        LatticePoint { u: 2, v: 2 }
    } else if i == 2 {
        LatticePoint { u: 2, v: -2 }
    } else if i == 3 {
        LatticePoint { u: 0, v: -4 }
    } else if i == 4 {
        LatticePoint { u: -2, v: -2 }
    } else {
        LatticePoint { u: -2, v: 2 }
    }
}

/// The outline of a cell as a closed polygon: its six corners, clockwise from
/// the top, and the first corner once more.
pub fn hexagon_outline(c: Coordinate) -> (corners: [LatticePoint; 7])
    ensures
        forall|i: int|
            0 <= i <= 6 ==> (#[trigger] corners@[i])@ == center_of(c@).plus(corner_offset(i)),
{
    let m = cell_center(c);
    [
        LatticePoint { u: m.u, v: m.v + 4 },
        LatticePoint { u: m.u + 2, v: m.v + 2 },
        LatticePoint { u: m.u + 2, v: m.v - 2 },
        LatticePoint { u: m.u, v: m.v - 4 },
        LatticePoint { u: m.u - 2, v: m.v - 2 },
        LatticePoint { u: m.u - 2, v: m.v + 2 },
        LatticePoint { u: m.u, v: m.v + 4 },
    ]
}

/// The number of the hexagon edge that faces the neighbor in direction `d`.
pub fn edge_index_for(d: Direction) -> (i: usize)
    ensures
        i == edge_index(d),
        i < 6,
{
    match d {
        Direction::ZY => 0,
        Direction::XY => 1,
        Direction::XZ => 2,
        Direction::YZ => 3,
        Direction::YX => 4,
        Direction::ZX => 5,
    }
}

/// The two ends of the edge of cell `c` that faces direction `d`, in
/// clockwise order around `c`.
pub fn edge_endpoints(c: Coordinate, d: Direction) -> (ends: (LatticePoint, LatticePoint))
    ensures
        ends.0@ == center_of(c@).plus(corner_offset(edge_index(d))),
        ends.1@ == center_of(c@).plus(corner_offset(edge_index(d) + 1)),
{
    let m = cell_center(c);
    let i = edge_index_for(d);
    let a = hexagon_corner(i);
    let b = hexagon_corner(i + 1);
    (LatticePoint { u: m.u + a.u, v: m.v + a.v }, LatticePoint { u: m.u + b.u, v: m.v + b.v })
}

/// The midpoint of the edge of cell `c` that faces direction `d`.
pub fn edge_midpoint(c: Coordinate, d: Direction) -> (p: LatticePoint)
    ensures
        p@ == edge_midpoint_of(c@, d),
{
    let (a, b) = edge_endpoints(c, d);
    LatticePoint { u: (a.u + b.u) / 2, v: (a.v + b.v) / 2 }
}

/// Sixteen times the square of the length of the offset `(du, dv)`, which is
/// `du * sqrt(3) / 4` across and `dv / 4` up.
pub open spec fn length_squared_16(du: int, dv: int) -> int {
    3 * du * du + dv * dv
}

/// Every corner of a hexagon lies at distance 1 from its center.
pub proof fn lemma_corners_at_unit_distance(i: int)
    requires
        0 <= i <= 6,
    ensures
        length_squared_16(corner_offset(i).u, corner_offset(i).v) == 16,
{
    let (u, v) = (corner_offset(i).u, corner_offset(i).v);
    assert(3 * u * u + v * v == 16) by (nonlinear_arith)
        requires
            (u == 0 && (v == 4 || v == -4)) || ((u == 2 || u == -2) && (v == 2 || v == -2)),
    ;
}

/// The centers of two neighbors lie `sqrt(3)` apart, and every edge of a
/// hexagon has length 1.
pub proof fn lemma_regular_hexagons(c: Axial, d: Direction)
    ensures
        length_squared_16(
            center_of(c.step(d)).u - center_of(c).u,
            center_of(c.step(d)).v - center_of(c).v,
        ) == 48,
        length_squared_16(
            corner_offset(edge_index(d) + 1).u - corner_offset(edge_index(d)).u,
            corner_offset(edge_index(d) + 1).v - corner_offset(edge_index(d)).v,
        ) == 16,
{
    let u = center_of(c.step(d)).u - center_of(c).u;
    let v = center_of(c.step(d)).v - center_of(c).v;
    assert(3 * u * u + v * v == 48) by (nonlinear_arith)
        requires
            ((u == 4 || u == -4) && v == 0) || ((u == 2 || u == -2) && (v == 6 || v == -6)),
    ;
    let i = edge_index(d);
    let eu = corner_offset(i + 1).u - corner_offset(i).u;
    let ev = corner_offset(i + 1).v - corner_offset(i).v;
    assert(3 * eu * eu + ev * ev == 16) by (nonlinear_arith)
        requires
            (eu == 0 && (ev == 4 || ev == -4)) || ((eu == 2 || eu == -2) && (ev == 2 || ev
                == -2)),
    ;
}

/// Different cells have different centers.
pub proof fn lemma_center_injective(a: Axial, b: Axial)
    requires
        center_of(a) == center_of(b),
    ensures
        a == b,
{
}

/// The edge of `c` that faces direction `d` lies halfway between the center
/// of `c` and the center of its neighbor in that direction.
pub proof fn lemma_edge_between_centers(c: Axial, d: Direction)
    ensures
        2 * edge_midpoint_of(c, d).u == center_of(c).u + center_of(c.step(d)).u,
        2 * edge_midpoint_of(c, d).v == center_of(c).v + center_of(c.step(d)).v,
{
}

/// The edge of `c` that faces direction `d` is the edge of the neighbor in
/// that direction that faces back: same two ends, in the other order.
pub proof fn lemma_edge_shared(c: Axial, d: Direction)
    ensures
        center_of(c).plus(corner_offset(edge_index(d))) == center_of(c.step(d)).plus(
            corner_offset(edge_index(d.spec_opposite()) + 1),
        ),
        center_of(c).plus(corner_offset(edge_index(d) + 1)) == center_of(c.step(d)).plus(
            corner_offset(edge_index(d.spec_opposite())),
        ),
        edge_midpoint_of(c, d) == edge_midpoint_of(c.step(d), d.spec_opposite()),
{
}

/// An edge midpoint belongs to one boundary only: two edges with the same
/// midpoint are the same edge of one cell, or the two sides of the boundary
/// between two neighbors.
pub proof fn lemma_midpoint_identifies_edge(a: Axial, da: Direction, b: Axial, db: Direction)
    requires
        edge_midpoint_of(a, da) == edge_midpoint_of(b, db),
    ensures
        (a == b && da == db) || (b == a.step(da) && db == da.spec_opposite()),
{
}

} // verus!
