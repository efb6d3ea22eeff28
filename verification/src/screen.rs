use crate::cell::{Cell, CellState};
use vstd::prelude::*;

verus! {

/// The side of a cell on the screen and of a tile on the sprite sheet, in pixels.
pub const CELL_SIZE: i32 = 32;

/// Where the left edge of the grid stands on the screen.
pub const ORIGIN_X: i32 = 6;

/// Where the top edge of the grid stands on the screen.
pub const ORIGIN_Y: i32 = 50;

/// A rectangle of pixels, on the screen or on the sprite sheet.
#[derive(Clone, Copy, Debug, PartialEq, Eq, Structural)]
pub struct Region {
    pub x: i32,
    pub y: i32,
    pub width: u32,
    pub height: u32,
}

/// The quotient of `a` by a positive `d`, rounded toward zero.
pub open spec fn quotient_toward_zero(a: int, d: int) -> int {
    if a >= 0 {
        a / d
    } else {
        -((-a) / d)
    }
}

/// The grid coordinate under the pointer coordinate `pointer`, along an axis on which the
/// grid begins at `origin`. Rounding toward zero makes the last pixels before the grid
/// count as its first row or column.
pub open spec fn cell_coordinate(pointer: int, origin: int) -> int {
    quotient_toward_zero(pointer - origin, CELL_SIZE as int)
}

/// The place on the sprite sheet of the tile with the given number.
pub open spec fn tile_region(tile: int) -> Region {
    Region { x: (CELL_SIZE * tile) as i32, y: 0, width: 32, height: 32 }
}

/// The tile that shows a cell, below whatever is drawn over it: the covered tile for a
/// hidden cell, the open one for a revealed cell.
pub open spec fn base_tile(c: CellState) -> int {
    if c.hidden {
        0
    } else {
        1
    }
}

/// The tile drawn over the base tile, if any: the flag on a hidden, flagged cell; on a
/// revealed cell the trap, or else the number of traps around it unless that is zero.
pub open spec fn overlay_tile(c: CellState) -> Option<int> {
    if c.hidden {
        if c.flagged {
            Some(11int)
        } else {
            None
        }
    } else if c.trap {
        Some(2int)
    } else if c.adjacent_traps > 0 {
        Some(2 + c.adjacent_traps as int)
    } else {
        None
    }
}

/// One grid coordinate for one pointer coordinate.
fn to_cell_coordinate(pointer: i32, origin: i32) -> (r: i32)
    requires
        0 <= origin <= 1000,
    ensures
        r == cell_coordinate(pointer as int, origin as int),
{
    let distance: i64 = pointer as i64 - origin as i64;
    if distance >= 0 {
        (distance / 32) as i32
    } else {
        let back: i64 = -distance;
        (-(back / 32)) as i32
    }
}

/// The grid coordinates of the cell under the pointer at `(x, y)`. They may lie outside
/// the grid.
pub fn pointer_to_cell(x: i32, y: i32) -> (cell: (i32, i32))
    ensures
        cell.0 == cell_coordinate(x as int, ORIGIN_X as int),
        cell.1 == cell_coordinate(y as int, ORIGIN_Y as int),
{
    (to_cell_coordinate(x, ORIGIN_X), to_cell_coordinate(y, ORIGIN_Y))
}

/// Where the cell at `(x, y)` is drawn on the screen, or nothing where that is further
/// out than a pixel coordinate can say.
pub fn cell_region(x: usize, y: usize) -> (r: Option<Region>)
    ensures
        r is Some <==> CELL_SIZE * x + ORIGIN_X <= i32::MAX && CELL_SIZE * y + ORIGIN_Y
            <= i32::MAX,
        r matches Some(region) ==> region.x == CELL_SIZE * x + ORIGIN_X && region.y == CELL_SIZE
            * y + ORIGIN_Y && region.width == 32 && region.height == 32,
{
    if x <= 67108863 && y <= 67108862 {
        Some(
            Region {
                x: x as i32 * CELL_SIZE + ORIGIN_X,
                y: y as i32 * CELL_SIZE + ORIGIN_Y,
                width: 32,
                height: 32,
            },
        )
    } else {
        None
    }
}

/// The place of a tile on the sprite sheet.
fn tile_at(tile: u16) -> (r: Region)
    requires
        tile <= 257,
    ensures
        r == tile_region(tile as int),
{
    Region { x: CELL_SIZE * tile as i32, y: 0, width: 32, height: 32 }
}

/// What to draw for a cell: its base tile and, over it, its overlay tile if it has one.
pub fn cell_sprites(cell: &Cell) -> (r: (Region, Option<Region>))
    ensures
        r.0 == tile_region(base_tile(cell@)),
        r.1 == match overlay_tile(cell@) {
            Some(tile) => Some(tile_region(tile)),
            None => None,
        },
{
    if cell.is_hidden() {
        let overlay = if cell.is_flagged() {
            Some(tile_at(11))
        } else {
            None
        };
        (tile_at(0), overlay)
    } else {
        let count = cell.get_adjacent_trap_count();
        let overlay = if cell.is_trap() {
            Some(tile_at(2))
        } else if count > 0 {
            Some(tile_at(2 + count as u16))
        } else {
            None
        };
        (tile_at(1), overlay)
    }
}

} // verus!
