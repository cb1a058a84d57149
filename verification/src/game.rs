//! The board: its size, the kinds of its tiles, and the game state.

use crate::ring::ring_len;
use vstd::prelude::*;

verus! {

/// The number of tiles from the center tile to a tile on the edge of the board
/// (not including the center tile itself).
pub const GRID_RADIUS: u32 = 40;

/// The state of one game.
pub struct GameState {}

/// What a tile is to the board, by the ring it lies on.
#[derive(Clone, Copy, Debug, PartialEq, Eq, Structural)]
pub enum TileKind {
    /// The tile in the middle of the board.
    Center,
    /// A tile on the outermost ring.
    Rim,
    /// Any other tile.
    Inner,
}

/// The kind of the tiles on ring `ring` of a board of radius `grid_radius`.
/// The center counts as center also where the board has no other tile.
pub fn tile_kind(ring: u32, grid_radius: u32) -> (kind: TileKind)
    ensures
        kind == (if ring == 0 {
            TileKind::Center
        } else if ring == grid_radius {
            TileKind::Rim
        } else {
            TileKind::Inner
        }),
{
    if ring == 0 {
        TileKind::Center
    } else if ring == grid_radius {
        TileKind::Rim
    } else {
        TileKind::Inner
    }
}

/// The number of cells on the rings of radius 0 to `r` together.
pub open spec fn cells_within(r: int) -> int
    decreases r,
{
    if r <= 0 {
        1
    } else {
        cells_within(r - 1) + ring_len(r)
    }
}

/// The rings up to radius `r` hold `1 + 3 * r * (r + 1)` cells.
pub proof fn lemma_cells_within(r: int)
    requires
        0 <= r,
    ensures
        cells_within(r) == 1 + 3 * r * (r + 1),
    decreases r,
{
    if r > 0 {
        lemma_cells_within(r - 1);
        let inner = cells_within(r - 1);
        assert(inner + 6 * r == 1 + 3 * r * (r + 1)) by (nonlinear_arith)
            requires
                inner == 1 + 3 * (r - 1) * ((r - 1) + 1),
        ;
    } else {
        assert(3 * r * (r + 1) == 0) by (nonlinear_arith)
            requires
                r == 0,
        ;
    }
}

/// The number of tiles of a board of radius `radius`.
pub fn board_size(radius: u32) -> (n: u64)
    requires
        radius <= i32::MAX,
    ensures
        n == cells_within(radius as int),
        n == 1 + 3 * radius * (radius + 1),
{
    let r: u64 = radius as u64;
    proof {
        lemma_cells_within(radius as int);
        assert(r * (r + 1) <= 0x7fff_ffff * 0x8000_0000) by (nonlinear_arith)
            requires
                0 <= r <= 0x7fff_ffff,
        ;
        assert(3 * radius * (radius + 1) == 3 * (r * (r + 1))) by (nonlinear_arith)
            requires
                r == radius,
        ;
    }
    let half: u64 = r * (r + 1);
    1 + 3 * half
}

} // verus!
