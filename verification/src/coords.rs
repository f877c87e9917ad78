//! Tile addresses and the integer side of the EPSG:4326 / EPSG:3857 tile grids.

use vstd::prelude::*;
use vstd::arithmetic::power2::{pow2, lemma_pow2_pos, lemma2_to64};
use vstd::bits::{lemma_u32_shl_is_mul, lemma_u32_pow2_no_overflow};

verus! {

/// Default tile width/height in pixels; used by both grids.
pub const DEFAULT_TILE_SIZE: u32 = 256;

/// XYZ (slippy-map) tile address. `y = 0` is north; use [`flip_y`] for TMS ordering.
#[derive(Debug, Clone, Copy, PartialEq, Eq, Hash, Structural)]
pub struct Tile {
    pub x: u32,
    pub y: u32,
    pub z: u8,
}

impl Tile {
    pub fn new(x: u32, y: u32, z: u8) -> (t: Self)
        ensures
            t == (Tile { x, y, z }),
    {
        Tile { x, y, z }
    }
}

/// Number of tile rows at zoom `z`: `2^z`.
pub open spec fn rows_at(z: u8) -> int {
    pow2(z as nat) as int
}

/// The XYZ <-> TMS row flip, saturating at zero for rows outside the grid.
pub open spec fn flipped_row(y: u32, z: u8) -> int {
    if (y as int) < rows_at(z) {
        rows_at(z) - 1 - y
    } else {
        0
    }
}

proof fn lemma_shl_one(z: u8)
    requires
        z < 32,
    ensures
        (1u32 << z) as int == rows_at(z),
        rows_at(z) >= 1,
{
    lemma_pow2_pos(z as nat);
    lemma_u32_pow2_no_overflow(z as nat);
    lemma_u32_shl_is_mul(1u32, z as u32);
    assert((1u32 << z) == (1u32 << (z as u32))) by (bit_vector);
}

/// Flip Y between XYZ (y = 0 north) and TMS (y = 0 south) conventions.
/// The transform is its own inverse on the rows of the grid.
pub fn flip_y(y: u32, z: u8) -> (r: u32)
    requires
        z < 32,
    ensures
        r == flipped_row(y, z),
{
    proof {
        lemma_shl_one(z);
    }
    (1u32 << z).saturating_sub(1).saturating_sub(y)
}

/// Flipping a row of the grid twice gives it back, and a row of the grid flips to a row
/// of the grid.
pub proof fn lemma_flip_y_involution(y: u32, z: u8)
    requires
        z < 32,
        (y as int) < rows_at(z),
    ensures
        0 <= flipped_row(y, z) < rows_at(z),
        flipped_row(flipped_row(y, z) as u32, z) == y,
{
    lemma_shl_one(z);
    lemma_u32_pow2_no_overflow(z as nat);
}

/// Tile grid for EPSG:4326 (geodetic profile): zoom `z` has `2^(z+1)` columns and `2^z`
/// rows.
#[derive(Debug, Clone, Copy, PartialEq, Eq, Structural)]
pub struct Geographic {
    pub tile_size: u32,
}

impl Geographic {
    pub fn new(tile_size: u32) -> (g: Self)
        ensures
            g.tile_size == tile_size,
    {
        Geographic { tile_size }
    }

    /// Number of tile columns at zoom `z` (= `2^(z+1)`).
    pub fn x_count(&self, z: u8) -> (n: u32)
        requires
            z < 31,
        ensures
            n as int == 2 * rows_at(z),
    {
        proof {
            lemma_shl_one((z + 1) as u8);
            vstd::arithmetic::power2::lemma_pow2_unfold((z + 1) as nat);
        }
        1u32 << (z + 1)
    }

    /// Number of tile rows at zoom `z` (= `2^z`).
    pub fn y_count(&self, z: u8) -> (n: u32)
        requires
            z < 32,
        ensures
            n as int == rows_at(z),
    {
        proof {
            lemma_shl_one(z);
        }
        1u32 << z
    }
}

impl Geographic {
    /// The tile at column `x`, row `y` of zoom `z`, each clamped to the last column or row
    /// of the grid.
    pub fn clamped(&self, x: u32, y: u32, z: u8) -> (t: Tile)
        requires
            z < 31,
        ensures
            t.z == z,
            t.x == if (x as int) < 2 * rows_at(z) - 1 { x as int } else { 2 * rows_at(z) - 1 },
            t.y == if (y as int) < rows_at(z) - 1 { y as int } else { rows_at(z) - 1 },
            (t.x as int) < 2 * rows_at(z),
            (t.y as int) < rows_at(z),
    {
        proof {
            lemma_pow2_pos(z as nat);
        }
        let last_x = self.x_count(z) - 1;
        let last_y = self.y_count(z) - 1;
        Tile::new(
            if x < last_x {
                x
            } else {
                last_x
            },
            if y < last_y {
                y
            } else {
                last_y
            },
            z,
        )
    }
}

impl Default for Geographic {
    /// The standard grid of 256-pixel tiles.
    fn default() -> (g: Self)
        ensures
            g.tile_size == DEFAULT_TILE_SIZE,
    {
        Geographic { tile_size: DEFAULT_TILE_SIZE }
    }
}

/// Tile grid for EPSG:3857 (the square slippy-map grid): zoom `z` has `2^z` columns and
/// `2^z` rows.
#[derive(Debug, Clone, Copy, PartialEq, Eq, Structural)]
pub struct WebMercator {
    pub tile_size: u32,
}

impl WebMercator {
    pub fn new(tile_size: u32) -> (g: Self)
        ensures
            g.tile_size == tile_size,
    {
        WebMercator { tile_size }
    }

    /// Tile count on each axis at zoom `z` (= `2^z`).
    pub fn count(&self, z: u8) -> (n: u32)
        requires
            z < 32,
        ensures
            n as int == rows_at(z),
    {
        proof {
            lemma_shl_one(z);
        }
        1u32 << z
    }
}

impl WebMercator {
    /// The tile at column `x`, row `y` of zoom `z`, each clamped to the last column or row
    /// of the grid.
    pub fn clamped(&self, x: u32, y: u32, z: u8) -> (t: Tile)
        requires
            z < 32,
        ensures
            t.z == z,
            t.x == if (x as int) < rows_at(z) - 1 { x as int } else { rows_at(z) - 1 },
            t.y == if (y as int) < rows_at(z) - 1 { y as int } else { rows_at(z) - 1 },
            (t.x as int) < rows_at(z),
            (t.y as int) < rows_at(z),
    {
        proof {
            lemma_pow2_pos(z as nat);
        }
        let last = self.count(z) - 1;
        Tile::new(
            if x < last {
                x
            } else {
                last
            },
            if y < last {
                y
            } else {
                last
            },
            z,
        )
    }
}

impl Default for WebMercator {
    /// The standard grid of 256-pixel tiles.
    fn default() -> (g: Self)
        ensures
            g.tile_size == DEFAULT_TILE_SIZE,
    {
        WebMercator { tile_size: DEFAULT_TILE_SIZE }
    }
}

/// At every zoom the geodetic grid is twice as wide as it is tall, and as tall as the
/// Web Mercator grid.
pub proof fn lemma_grid_shapes(z: u8)
    requires
        z < 31,
    ensures
        rows_at((z + 1) as u8) == 2 * rows_at(z),
        rows_at(z) >= 1,
{
    lemma_pow2_pos(z as nat);
    vstd::arithmetic::power2::lemma_pow2_unfold((z + 1) as nat);
}

} // verus!
