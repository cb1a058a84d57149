//! Rings of cells at a fixed hex distance around an origin.

use crate::bridge::hex_ring;
use crate::coord::{Axial, Coordinate, Direction};
use vstd::prelude::*;

verus! {

/// The number of cells in the ring of radius `r`.
pub open spec fn ring_len(r: int) -> int {
    if r == 0 {
        1
    } else {
        6 * r
    }
}

/// The first cell of side `side` of the ring of radius `r` around the
/// lattice origin.
pub open spec fn ring_corner(r: int, side: int) -> Axial {
    if side == 0 {
        Axial { x: r, y: -r }
    } else if side == 1 {
        Axial { x: 0, y: -r }
    } else if side == 2 {
        Axial { x: -r, y: 0 }
    } else if side == 3 {
        Axial { x: -r, y: r }
    } else if side == 4 {
        Axial { x: 0, y: r }
    } else {
        Axial { x: r, y: 0 }
    }
}

/// The direction in which side `side` of a ring is walked.
pub open spec fn ring_heading(side: int) -> Direction {
    if side == 0 {
        Direction::ZX
    } else if side == 1 {
        Direction::YX
    } else if side == 2 {
        Direction::YZ
    } else if side == 3 {
        Direction::XZ
    } else if side == 4 {
        Direction::XY
    } else {
        Direction::ZY
    }
}

/// The `i`-th cell of the ring of radius `r` around `origin`: cell `i % r`
/// of side `i / r`.
pub open spec fn ring_cell(origin: Axial, r: int, i: int) -> Axial {
    if r == 0 {
        origin
    } else {
        origin.plus(ring_corner(r, i / r)).plus(ring_heading(i / r).offset().times(i % r))
    }
}

/// The ring of radius `r` around `origin`, in walking order.
pub open spec fn ring_cells(origin: Axial, r: int) -> Seq<Axial> {
    Seq::new(ring_len(r) as nat, |i: int| ring_cell(origin, r, i))
}

/// The mathematical cells that a sequence of coordinates stands for.
pub open spec fn cells_view(cells: Seq<Coordinate>) -> Seq<Axial> {
    Seq::new(cells.len(), |i: int| cells[i]@)
}

/// Whether every cell of the ring of radius `radius` around `origin` has
/// components in the `i32` range and the ring's length fits in `i32`.
pub open spec fn ring_fits(origin: Coordinate, radius: int) -> bool {
    &&& 0 <= radius
    &&& 6 * radius <= i32::MAX
    &&& i32::MIN <= origin.x - radius
    &&& origin.x + radius <= i32::MAX
    &&& i32::MIN <= origin.y - radius
    &&& origin.y + radius <= i32::MAX
}

/// Whether the ring of radius `radius` around `origin` can be walked: see
/// `ring_fits`.
pub fn ring_in_range(origin: Coordinate, radius: i32) -> (b: bool)
    ensures
        b == ring_fits(origin, radius as int),
{
    let r: i64 = radius as i64;
    let x: i64 = origin.x as i64;
    let y: i64 = origin.y as i64;
    0 <= r && 6 * r <= i32::MAX as i64 && i32::MIN as i64 <= x - r && x + r <= i32::MAX as i64
        && i32::MIN as i64 <= y - r && y + r <= i32::MAX as i64
}

/// Index `i` of a ring of radius `r > 0` lies on side `i / r`, at place
/// `i % r` of that side.
pub proof fn lemma_ring_index_split(r: int, i: int)
    requires
        r > 0,
        0 <= i < 6 * r,
    ensures
        0 <= i / r < 6,
        0 <= i % r < r,
        i == (i / r) * r + i % r,
{
    assert(0 <= i / r < 6 && 0 <= i % r < r && i == (i / r) * r + i % r) by (nonlinear_arith)
        requires
            r > 0,
            0 <= i < 6 * r,
    ;
}

/// Place `k` of side `side` has index `side * r + k`.
pub proof fn lemma_ring_index_join(r: int, side: int, k: int)
    requires
        r > 0,
        0 <= side < 6,
        0 <= k < r,
    ensures
        0 <= side * r + k < 6 * r,
        (side * r + k) / r == side,
        (side * r + k) % r == k,
{
    assert(0 <= side * r + k < 6 * r && (side * r + k) / r == side && (side * r + k) % r == k)
        by (nonlinear_arith)
        requires
            r > 0,
            0 <= side < 6,
            0 <= k < r,
    ;
}

/// Place `k` of side `side` of the ring of radius `r` around `origin`,
/// written out component by component.
pub open spec fn ring_side_cell(origin: Axial, r: int, side: int, k: int) -> Axial {
    if side == 0 {
        Axial { x: origin.x + r - k, y: origin.y - r }
    } else if side == 1 {
        Axial { x: origin.x - k, y: origin.y - r + k }
    } else if side == 2 {
        Axial { x: origin.x - r, y: origin.y + k }
    } else if side == 3 {
        Axial { x: origin.x - r + k, y: origin.y + r }
    } else if side == 4 {
        Axial { x: origin.x + k, y: origin.y + r - k }
    } else {
        Axial { x: origin.x + r, y: origin.y - k }
    }
}

/// The `i`-th cell of a ring is place `i % r` of side `i / r`.
pub proof fn lemma_ring_cell_by_side(origin: Axial, r: int, i: int)
    requires
        r > 0,
        0 <= i < 6 * r,
    ensures
        0 <= i / r < 6,
        0 <= i % r < r,
        i == (i / r) * r + i % r,
        ring_cell(origin, r, i) == ring_side_cell(origin, r, i / r, i % r),
{
    lemma_ring_index_split(r, i);
    let step = ring_heading(i / r).offset().times(i % r);
    assert(step.x == ring_heading(i / r).offset().x * (i % r));
    assert(step.y == ring_heading(i / r).offset().y * (i % r));
}

/// Every cell of a ring lies at hex distance `r` from the origin of the ring.
pub proof fn lemma_ring_distance(origin: Axial, r: int, i: int)
    requires
        0 <= r,
        0 <= i < ring_len(r),
    ensures
        origin.distance(ring_cell(origin, r, i)) == r,
{
    if r > 0 {
        lemma_ring_cell_by_side(origin, r, i);
    }
}

/// A ring holds one cell for radius 0 and `6 * r` cells otherwise.
pub proof fn lemma_ring_cardinality(origin: Axial, r: int)
    requires
        0 <= r,
    ensures
        ring_cells(origin, r).len() == (if r == 0 {
            1int
        } else {
            6 * r
        }),
{
}

/// Rings of different radii around one origin share no cell.
pub proof fn lemma_rings_disjoint(origin: Axial, r1: int, r2: int)
    requires
        0 <= r1,
        0 <= r2,
        r1 != r2,
    ensures
        forall|i: int, j: int|
            0 <= i < ring_len(r1) && 0 <= j < ring_len(r2) ==> #[trigger] ring_cells(origin, r1)[i]
                != #[trigger] ring_cells(origin, r2)[j],
        ring_cells(origin, r1).to_set().disjoint(ring_cells(origin, r2).to_set()),
{
    assert forall|i: int, j: int| 0 <= i < ring_len(r1) && 0 <= j < ring_len(r2) implies 
        #[trigger] ring_cells(origin, r1)[i] != #[trigger] ring_cells(origin, r2)[j] by {
        lemma_ring_distance(origin, r1, i);
        lemma_ring_distance(origin, r2, j);
    }
    assert forall|c: Axial|
        !(ring_cells(origin, r1).to_set().contains(c) && ring_cells(origin, r2).to_set().contains(
            c,
        )) by {
        if ring_cells(origin, r1).to_set().contains(c) && ring_cells(origin, r2).to_set().contains(
            c,
        ) {
            let i = choose|i: int|
                0 <= i < ring_cells(origin, r1).len() && ring_cells(origin, r1)[i] == c;
            let j = choose|j: int|
                0 <= j < ring_cells(origin, r2).len() && ring_cells(origin, r2)[j] == c;
            assert(ring_cells(origin, r1)[i] != ring_cells(origin, r2)[j]);
        }
    }
}

/// Along a ring of radius `r > 0`, each cell and the next one are neighbors;
/// the cell after the last is the first.
pub proof fn lemma_ring_adjacent(origin: Axial, r: int, i: int)
    requires
        0 < r,
        0 <= i < 6 * r,
    ensures
        0 <= (i + 1) % (6 * r) < 6 * r,
        ring_cell(origin, r, i).is_neighbor(ring_cell(origin, r, (i + 1) % (6 * r))),
        ring_cell(origin, r, (i + 1) % (6 * r)) == ring_cell(origin, r, i).step(
            ring_heading(i / r),
        ),
{
    lemma_ring_cell_by_side(origin, r, i);
    let side = i / r;
    let k = i % r;
    let next = (i + 1) % (6 * r);
    if i + 1 == 6 * r {
        assert(next == 0) by (nonlinear_arith)
            requires
                next == (i + 1) % (6 * r),
                i + 1 == 6 * r,
                r > 0,
        ;
        assert(side == 5 && k == r - 1) by (nonlinear_arith)
            requires
                i + 1 == 6 * r,
                i == side * r + k,
                0 <= side < 6,
                0 <= k < r,
        ;
        lemma_ring_index_join(r, 0, 0);
        assert(0int * r + 0 == 0);
        lemma_ring_cell_by_side(origin, r, 0);
    } else {
        assert(next == i + 1) by (nonlinear_arith)
            requires
                next == (i + 1) % (6 * r),
                0 <= i + 1 < 6 * r,
        ;
        lemma_ring_cell_by_side(origin, r, i + 1);
        if k + 1 < r {
            lemma_ring_index_join(r, side, k + 1);
        } else {
            assert(side < 5 && (side + 1) * r + 0 == i + 1) by (nonlinear_arith)
                requires
                    i == side * r + k,
                    k + 1 == r,
                    i + 1 < 6 * r,
                    0 <= side < 6,
            ;
            lemma_ring_index_join(r, side + 1, 0);
        }
    }
    assert(ring_cell(origin, r, next) == ring_cell(origin, r, i).step(ring_heading(side)));
}

/// No cell occurs twice in one ring.
pub proof fn lemma_ring_no_duplicates(origin: Axial, r: int)
    requires
        0 <= r,
    ensures
        ring_cells(origin, r).no_duplicates(),
{
    assert forall|i: int, j: int|
        0 <= i < ring_cells(origin, r).len() && 0 <= j < ring_cells(origin, r).len() && i
            != j implies ring_cells(origin, r)[i] != ring_cells(origin, r)[j] by {
        if r > 0 {
            lemma_ring_cell_by_side(origin, r, i);
            lemma_ring_cell_by_side(origin, r, j);
            if i / r == j / r {
                assert(i % r != j % r);
            }
        }
    }
}

/// The `i`-th cell of the ring of radius `radius` around `origin`, computed
/// without walking the ring.
pub fn ring_cell_at(origin: Coordinate, radius: i32, i: i32) -> (cell: Coordinate)
    requires
        ring_fits(origin, radius as int),
        0 <= i < ring_len(radius as int),
    ensures
        cell@ == ring_cell(origin@, radius as int, i as int),
{
    if radius == 0 {
        return origin;
    }
    let side: i32 = i / radius;
    let k: i32 = i % radius;
    proof {
        lemma_ring_cell_by_side(origin@, radius as int, i as int);
    }
    if side == 0 {
        Coordinate { x: origin.x + radius - k, y: origin.y - radius }
    } else if side == 1 {
        Coordinate { x: origin.x - k, y: origin.y - radius + k }
    } else if side == 2 {
        Coordinate { x: origin.x - radius, y: origin.y + k }
    } else if side == 3 {
        Coordinate { x: origin.x - radius + k, y: origin.y + radius }
    } else if side == 4 {
        Coordinate { x: origin.x + k, y: origin.y + radius - k }
    } else {
        Coordinate { x: origin.x + radius, y: origin.y - k }
    }
}

/// The cells at hex distance `radius` from `origin`: the origin alone for
/// radius 0, else `6 * radius` cells, starting at `origin + radius * XY` and
/// going around clockwise. Each call starts the ring afresh.
pub fn ring(origin: Coordinate, radius: i32) -> (cells: Vec<Coordinate>)
    requires
        ring_fits(origin, radius as int),
    ensures
        cells_view(cells@) == ring_cells(origin@, radius as int),
        cells@.len() == (if radius == 0 {
            1int
        } else {
            6 * radius
        }),
        cells@.no_duplicates(),
        forall|i: int| 0 <= i < cells@.len() ==> origin@.distance(#[trigger] cells@[i]@) == radius,
        forall|i: int|
            0 <= i < cells@.len() && radius > 0 ==> (#[trigger] cells@[i])@.is_neighbor(
                cells@[(i + 1) % (6 * radius)]@,
            ),
{
    let cells = hex_ring(origin, radius);
    proof {
        let r = radius as int;
        assert(cells_view(cells@) =~= ring_cells(origin@, r));
        lemma_ring_no_duplicates(origin@, r);
        assert forall|i: int, j: int| 0 <= i < cells@.len() && 0 <= j < cells@.len() && i != j 
            implies cells@[i] != cells@[j] by {
            assert(ring_cells(origin@, r)[i] != ring_cells(origin@, r)[j]);
            assert(cells@[i]@ == ring_cells(origin@, r)[i]);
            assert(cells@[j]@ == ring_cells(origin@, r)[j]);
        }
        assert forall|i: int| 0 <= i < cells@.len() implies origin@.distance(
            #[trigger] cells@[i]@,
        ) == radius by {
            lemma_ring_distance(origin@, r, i);
        }
        assert forall|i: int| 0 <= i < cells@.len() && radius > 0 implies (#[trigger] cells@[i])@.is_neighbor(
            cells@[(i + 1) % (6 * radius)]@,
        ) by {
            lemma_ring_adjacent(origin@, r, i);
        }
    }
    cells
}

} // verus!
