//! Axial coordinates on the hexagonal lattice and the six unit directions.

use crate::bridge::{hex_direction_to, hex_distance, hex_neighbors};
use vstd::prelude::*;

verus! {

/// A cell of the infinite hexagonal lattice, as a pair of mathematical
/// integers. The third cube component is `z = -x - y`.
pub struct Axial {
    pub x: int,
    pub y: int,
}

impl Axial {
    /// The implicit third cube component.
    pub open spec fn z(self) -> int {
        -self.x - self.y
    }

    /// Component-wise sum.
    pub open spec fn plus(self, other: Axial) -> Axial {
        Axial { x: self.x + other.x, y: self.y + other.y }
    }

    /// Component-wise difference.
    pub open spec fn minus(self, other: Axial) -> Axial {
        Axial { x: self.x - other.x, y: self.y - other.y }
    }

    /// Component-wise multiple.
    pub open spec fn times(self, k: int) -> Axial {
        Axial { x: self.x * k, y: self.y * k }
    }

    /// The cell one step away in direction `d`.
    pub open spec fn step(self, d: Direction) -> Axial {
        self.plus(d.offset())
    }

    /// Hex distance: half the sum of the absolute cube differences.
    pub open spec fn distance(self, other: Axial) -> int {
        (abs(self.x - other.x) + abs(self.y - other.y) + abs(self.z() - other.z())) / 2
    }

    /// Two cells are neighbors when they differ by one of the six unit steps.
    pub open spec fn is_neighbor(self, other: Axial) -> bool {
        exists|d: Direction| other == #[trigger] self.step(d)
    }

    /// Lexicographic order on `(x, y)`.
    pub open spec fn precedes(self, other: Axial) -> bool {
        self.x < other.x || (self.x == other.x && self.y < other.y)
    }
}

/// Whether `v` lies on the x side of the line where x and y are equal; the
/// line itself counts where z is negative.
pub open spec fn leans_xy(v: Axial) -> bool {
    if v.z() < 0 {
        v.x >= v.y
    } else {
        v.x > v.y
    }
}

/// Whether `v` lies on the y side of the line where y and z are equal; the
/// line itself counts where x is negative.
pub open spec fn leans_yz(v: Axial) -> bool {
    if v.x < 0 {
        v.y >= v.z()
    } else {
        v.y > v.z()
    }
}

/// Whether `v` lies on the z side of the line where z and x are equal; the
/// line itself counts where y is negative.
pub open spec fn leans_zx(v: Axial) -> bool {
    if v.y < 0 {
        v.z() >= v.x
    } else {
        v.z() > v.x
    }
}

/// The direction of the sextant that holds `v`, seen from the lattice origin;
/// a cell on the diagonal between two sextants goes to the one clockwise of
/// it. `None` for the origin itself.
pub open spec fn heading(v: Axial) -> Option<Direction> {
    let (xy, yz, zx) = (leans_xy(v), leans_yz(v), leans_zx(v));
    if xy && yz && !zx {
        Some(Direction::XZ)
    } else if xy && !yz && !zx {
        Some(Direction::XY)
    } else if xy && !yz && zx {
        Some(Direction::ZY)
    } else if !xy && !yz && zx {
        Some(Direction::ZX)
    } else if !xy && yz && zx {
        Some(Direction::YX)
    } else if !xy && yz && !zx {
        Some(Direction::YZ)
    } else {
        None
    }
}

/// Absolute value of a mathematical integer.
pub open spec fn abs(v: int) -> int {
    if v < 0 {
        -v
    } else {
        v
    }
}

/// One of the six unit steps on the lattice. The first letter names the cube
/// component that grows, the second the one that shrinks.
#[derive(Clone, Copy, Debug, PartialEq, Eq, Structural, Hash)]
pub enum Direction {
    /// +y -z
    YZ,
    /// +x -z
    XZ,
    /// +x -y
    XY,
    /// +z -y
    ZY,
    /// +z -x
    ZX,
    /// +y -x
    YX,
}

impl Direction {
    /// The axial offset of one step in this direction.
    pub open spec fn offset(self) -> Axial {
        match self {
            Direction::YZ => Axial { x: 0, y: 1 },
            Direction::XZ => Axial { x: 1, y: 0 },
            Direction::XY => Axial { x: 1, y: -1 },
            Direction::ZY => Axial { x: 0, y: -1 },
            Direction::ZX => Axial { x: -1, y: 0 },
            Direction::YX => Axial { x: -1, y: 1 },
        }
    }

    /// The direction pointing the other way.
    pub open spec fn spec_opposite(self) -> Direction {
        match self {
            Direction::YZ => Direction::ZY,
            Direction::XZ => Direction::ZX,
            Direction::XY => Direction::YX,
            Direction::ZY => Direction::YZ,
            Direction::ZX => Direction::XZ,
            Direction::YX => Direction::XY,
        }
    }

    /// The six directions in clockwise order, starting with `YZ`.
    pub open spec fn spec_all() -> Seq<Direction> {
        seq![
            Direction::YZ,
            Direction::XZ,
            Direction::XY,
            Direction::ZY,
            Direction::ZX,
            Direction::YX,
        ]
    }

    /// The six directions in clockwise order, starting with `YZ`.
    pub fn all() -> (dirs: [Direction; 6])
        ensures
            dirs@ == Direction::spec_all(),
    {
        let dirs = [
            Direction::YZ,
            Direction::XZ,
            Direction::XY,
            Direction::ZY,
            Direction::ZX,
            Direction::YX,
        ];
        assert(dirs@ =~= Direction::spec_all());
        dirs
    }

    /// The direction pointing the other way.
    #[verifier::when_used_as_spec(spec_opposite)]
    pub fn opposite(self) -> (d: Direction)
        ensures
            d == self.spec_opposite(),
    {
        match self {
            Direction::YZ => Direction::ZY,
            Direction::XZ => Direction::ZX,
            Direction::XY => Direction::YX,
            Direction::ZY => Direction::YZ,
            Direction::ZX => Direction::XZ,
            Direction::YX => Direction::XY,
        }
    }
}

/// A cell of the lattice with machine-sized components.
#[derive(Clone, Copy, Debug, PartialEq, Eq, Structural, PartialOrd, Ord, Hash)]
pub struct Coordinate {
    pub x: i32,
    pub y: i32,
}

impl View for Coordinate {
    type V = Axial;

    open spec fn view(&self) -> Axial {
        Axial { x: self.x as int, y: self.y as int }
    }
}

impl Coordinate {
    /// Whether the third cube component can be computed in `i32`.
    pub open spec fn z_fits(self) -> bool {
        self.x != i32::MIN && i32::MIN <= self@.z() <= i32::MAX
    }

    /// Whether all six neighbors have components in the `i32` range.
    pub open spec fn has_neighbors(self) -> bool {
        i32::MIN < self.x < i32::MAX && i32::MIN < self.y < i32::MAX
    }

    /// Whether the hex distance to `other` can be computed in `i32`: both
    /// third components fit, and so does the sum of the three absolute
    /// differences, which is twice the distance.
    pub open spec fn distance_fits(self, other: Coordinate) -> bool {
        &&& self.z_fits()
        &&& other.z_fits()
        &&& 2 * self@.distance(other@) <= i32::MAX
    }

    /// Whether the offset from `self` to `other` and its third component
    /// can be computed in `i32`.
    pub open spec fn offset_fits(self, other: Coordinate) -> bool {
        &&& i32::MIN < other.x - self.x <= i32::MAX
        &&& i32::MIN <= other.y - self.y <= i32::MAX
        &&& i32::MIN <= other@.minus(self@).z() <= i32::MAX
    }

    /// The cell `(x, y)`.
    pub fn new(x: i32, y: i32) -> (c: Coordinate)
        ensures
            c.x == x,
            c.y == y,
    {
        Coordinate { x, y }
    }

    /// The third cube component, `-x - y`.
    pub fn z(&self) -> (z: i32)
        requires
            self.z_fits(),
        ensures
            z == self@.z(),
    {
        -self.x - self.y
    }

    /// The third cube component, or `None` where it cannot be computed in
    /// `i32`.
    pub fn checked_z(&self) -> (z: Option<i32>)
        ensures
            z.is_some() == self.z_fits(),
            z.is_some() ==> z.unwrap() == self@.z(),
    {
        let z: i64 = -(self.x as i64) - (self.y as i64);
        if self.x != i32::MIN && i32::MIN as i64 <= z && z <= i32::MAX as i64 {
            Some(self.z())
        } else {
            None
        }
    }

    /// Whether `self` comes before `other` in the lexicographic order on
    /// `(x, y)`.
    pub fn precedes(&self, other: &Coordinate) -> (b: bool)
        ensures
            b == self@.precedes(other@),
    {
        self.x < other.x || (self.x == other.x && self.y < other.y)
    }

    /// Whether all six neighbors have components in the `i32` range.
    pub fn can_step(&self) -> (b: bool)
        ensures
            b == self.has_neighbors(),
    {
        i32::MIN < self.x && self.x < i32::MAX && i32::MIN < self.y && self.y < i32::MAX
    }

    /// The cell one step away in direction `d`.
    pub fn step(&self, d: Direction) -> (c: Coordinate)
        requires
            self.has_neighbors(),
        ensures
            c@ == self@.step(d),
    {
        match d {
            Direction::YZ => Coordinate { x: self.x, y: self.y + 1 },
            Direction::XZ => Coordinate { x: self.x + 1, y: self.y },
            Direction::XY => Coordinate { x: self.x + 1, y: self.y - 1 },
            Direction::ZY => Coordinate { x: self.x, y: self.y - 1 },
            Direction::ZX => Coordinate { x: self.x - 1, y: self.y },
            Direction::YX => Coordinate { x: self.x - 1, y: self.y + 1 },
        }
    }

    /// The six neighbors, in the order of `Direction::all()`.
    pub fn neighbors(&self) -> (cells: [Coordinate; 6])
        requires
            self.has_neighbors(),
        ensures
            forall|i: int|
                0 <= i < 6 ==> (#[trigger] cells@[i])@ == self@.step(Direction::spec_all()[i]),
            forall|i: int| 0 <= i < 6 ==> self@.is_neighbor((#[trigger] cells@[i])@),
            forall|i: int, j: int| 0 <= i < j < 6 ==> cells@[i] != cells@[j],
    {
        let cells = hex_neighbors(*self);
        proof {
            assert forall|i: int| 0 <= i < 6 implies self@.is_neighbor((#[trigger] cells@[i])@) by {
                assert(cells@[i]@ == self@.step(Direction::spec_all()[i]));
            }
            assert forall|i: int, j: int| 0 <= i < j < 6 implies cells@[i] != cells@[j] by {
                assert(cells@[i]@ == self@.step(Direction::spec_all()[i]));
                assert(cells@[j]@ == self@.step(Direction::spec_all()[j]));
            }
        }
        cells
    }

    /// Hex distance to `other`.
    pub fn distance(&self, other: Coordinate) -> (d: i32)
        requires
            self.distance_fits(other),
        ensures
            d == self@.distance(other@),
            d >= 0,
            d == 0 <==> *self == other,
            d == 1 <==> self@.is_neighbor(other@),
    {
        proof {
            lemma_distance_facts(self@, other@);
        }
        hex_distance(*self, other)
    }

    /// Hex distance to `other`, or `None` where it cannot be computed in
    /// `i32`.
    pub fn checked_distance(&self, other: Coordinate) -> (d: Option<i32>)
        ensures
            d.is_some() == self.distance_fits(other),
            d.is_some() ==> d.unwrap() == self@.distance(other@),
    {
        let z1: i64 = -(self.x as i64) - (self.y as i64);
        let z2: i64 = -(other.x as i64) - (other.y as i64);
        let dx: i64 = self.x as i64 - other.x as i64;
        let dy: i64 = self.y as i64 - other.y as i64;
        let dz: i64 = z1 - z2;
        let ax: i64 = if dx < 0 { -dx } else { dx };
        let ay: i64 = if dy < 0 { -dy } else { dy };
        let az: i64 = if dz < 0 { -dz } else { dz };
        proof {
            lemma_distance_facts(self@, other@);
        }
        if self.x != i32::MIN && other.x != i32::MIN && i32::MIN as i64 <= z1 && z1
            <= i32::MAX as i64 && i32::MIN as i64 <= z2 && z2 <= i32::MAX as i64 && ax + ay + az
            <= i32::MAX as i64 {
            Some(hex_distance(*self, other))
        } else {
            None
        }
    }

    /// The direction of the sextant around `self` that holds `other`; a cell
    /// on the diagonal between two sextants goes to the one clockwise of it.
    /// `None` when the two cells are equal.
    pub fn direction_to(&self, other: Coordinate) -> (d: Option<Direction>)
        requires
            self.offset_fits(other),
        ensures
            d == heading(other@.minus(self@)),
            d.is_none() <==> *self == other,
            forall|dir: Direction| other@ == self@.step(dir) ==> d == Some(dir),
    {
        proof {
            lemma_heading_none(other@.minus(self@));
            assert forall|dir: Direction| other@ == self@.step(dir) implies heading(
                other@.minus(self@),
            ) == Some(dir) by {
                lemma_heading_unit(dir);
                assert(other@.minus(self@) == dir.offset());
            }
        }
        hex_direction_to(*self, other)
    }
}

/// The sum of the three absolute cube differences is even, so halving it
/// loses nothing; the distance is 0 only between equal cells and 1 exactly
/// between neighbors.
pub proof fn lemma_distance_facts(a: Axial, b: Axial)
    ensures
        abs(a.x - b.x) + abs(a.y - b.y) + abs(a.z() - b.z()) == 2 * a.distance(b),
        a.distance(b) >= 0,
        a.distance(b) == b.distance(a),
        a.distance(b) == 0 <==> a == b,
        a.distance(b) == 1 <==> a.is_neighbor(b),
{
    let dx = a.x - b.x;
    let dy = a.y - b.y;
    let sum = abs(dx) + abs(dy) + abs(a.z() - b.z());
    assert(sum % 2 == 0);
    if a.is_neighbor(b) {
        let d = choose|d: Direction| b == #[trigger] a.step(d);
        assert(b == a.step(d));
    }
    if a.distance(b) == 1 {
        assert(sum == 2);
        if dx == 0 && dy == 1 {
            assert(b == a.step(Direction::ZY));
        } else if dx == 0 && dy == -1 {
            assert(b == a.step(Direction::YZ));
        } else if dx == 1 && dy == 0 {
            assert(b == a.step(Direction::ZX));
        } else if dx == -1 && dy == 0 {
            assert(b == a.step(Direction::XZ));
        } else if dx == 1 && dy == -1 {
            assert(b == a.step(Direction::YX));
        } else {
            assert(dx == -1 && dy == 1);
            assert(b == a.step(Direction::XY));
        }
    }
}

/// The lexicographic order is a strict total order: of two cells, one comes
/// first or they are equal, and the order carries over a cell in between.
pub proof fn lemma_order_total(a: Axial, b: Axial, c: Axial)
    ensures
        a.precedes(b) || b.precedes(a) || a == b,
        !(a.precedes(b) && b.precedes(a)),
        !a.precedes(a),
        a.precedes(b) && b.precedes(c) ==> a.precedes(c),
{
}

/// Seen from the origin, the cell one step away in direction `d` lies in
/// direction `d`.
pub proof fn lemma_heading_unit(d: Direction)
    ensures
        heading(d.offset()) == Some(d),
{
}

/// Only the origin has no heading: there none of the three comparisons
/// holds, and nowhere do all three hold.
pub proof fn lemma_heading_none(v: Axial)
    ensures
        !(leans_xy(v) && leans_yz(v) && leans_zx(v)),
        heading(v).is_none() <==> v == (Axial { x: 0, y: 0 }),
        heading(v).is_none() <==> !leans_xy(v) && !leans_yz(v) && !leans_zx(v),
{
}

} // verus!
