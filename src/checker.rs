//! The checkerboard pattern of the ground plane.
//!
//! The plane is cut into cells two units wide; a hit point at `(x, z)` lies in
//! cell `(floor(x / 2 + 1000), floor(z / 2))`, and the cell's parity picks its
//! tile.
use vstd::prelude::*;

verus! {

/// The two tiles of the checkerboard: light ones are white, dark ones tan.
#[derive(Debug, Clone, Copy, PartialEq, Eq, Structural)]
pub enum Tile {
    Light,
    Dark,
}

/// A cell is light exactly when the sum of its coordinates is odd.
pub open spec fn tile_spec(cx: int, cz: int) -> Tile {
    if (cx + cz) % 2 == 1 {
        Tile::Light
    } else {
        Tile::Dark
    }
}

/// The tile of the cell at `(cx, cz)`.
pub fn checker_tile(cx: i64, cz: i64) -> (r: Tile)
    ensures
        r == tile_spec(cx as int, cz as int),
{
    let rx = cx % 2;
    let rz = cz % 2;
    let odd = (rx == 0) != (rz == 0);
    if odd {
        Tile::Light
    } else {
        Tile::Dark
    }
}

/// The pattern alternates: stepping one cell along either axis changes the
/// tile, and stepping one cell along both keeps it.
pub proof fn lemma_tiles_alternate(cx: int, cz: int)
    ensures
        tile_spec(cx + 1, cz) != tile_spec(cx, cz),
        tile_spec(cx, cz + 1) != tile_spec(cx, cz),
        tile_spec(cx + 1, cz + 1) == tile_spec(cx, cz),
{
}

} // verus!
