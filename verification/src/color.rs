//! The colour of a tile, chosen by how close the tile's home cell lies to
//! the top or left edge of the board.

use vstd::prelude::*;

verus! {

/// A colour as four bytes: red, green, blue, alpha.
#[derive(Clone, Copy, Debug, PartialEq, Eq, Structural)]
pub struct BlockColor {
    pub r: u8,
    pub g: u8,
    pub b: u8,
    pub a: u8,
}

/// The number of colour bands.
pub const BAND_COUNT: usize = 4;

/// The band of tile `val` on a board of side `n`: the smaller of the column
/// and the row of the cell where the tile rests when the board is solved.
pub open spec fn color_band(val: int, n: int) -> int {
    let x = (val - 1) % n;
    let y = (val - 1) / n;
    if x <= y { x } else { y }
}

/// The colour of each band, from the outermost band inwards.
pub open spec fn band_color(band: int) -> BlockColor {
    if band == 0 {
        BlockColor { r: 183, g: 18, b: 52, a: 255 }
    } else if band == 1 {
        BlockColor { r: 255, g: 88, b: 0, a: 255 }
    } else if band == 2 {
        BlockColor { r: 255, g: 213, b: 0, a: 255 }
    } else {
        BlockColor { r: 255, g: 255, b: 255, a: 255 }
    }
}

/// The band of tile `val` on a board of side `n`.
pub fn block_band(val: i32, n: usize) -> (band: i32)
    requires
        1 <= val,
        1 <= n <= i32::MAX,
    ensures
        band == color_band(val as int, n as int),
        0 <= band,
{
    let side: i32 = n as i32;
    let x: i32 = (val - 1) % side;
    let y: i32 = (val - 1) / side;
    if x <= y {
        x
    } else {
        y
    }
}

/// The colour in which tile `val` is drawn on a board of side `n`.
///
/// There are four bands; a tile whose band would be a fifth has no colour,
/// so the caller keeps to tiles with a band below `BAND_COUNT`.
pub fn get_block_color(val: i32, n: usize) -> (color: BlockColor)
    requires
        1 <= val,
        1 <= n <= i32::MAX,
        color_band(val as int, n as int) < BAND_COUNT,
    ensures
        color == band_color(color_band(val as int, n as int)),
{
    let smallest_coord: i32 = block_band(val, n);
    if smallest_coord == 0 {
        BlockColor { r: 183, g: 18, b: 52, a: 255 }
    } else if smallest_coord == 1 {
        BlockColor { r: 255, g: 88, b: 0, a: 255 }
    } else if smallest_coord == 2 {
        BlockColor { r: 255, g: 213, b: 0, a: 255 }
    } else {
        BlockColor { r: 255, g: 255, b: 255, a: 255 }
    }
}

} // verus!
