//! World geometry: the bounded plane the agents move on and the food grid
//! they forage, with the spec-level index arithmetic shared by the
//! evaluation semantics and the executable code.

use vstd::prelude::*;
use crate::fx::{SCALE, DEPLETION_DIVISOR, clamp_spec, tdiv};

verus! {

/// Number of food columns (indexed by the x coordinate).
pub const FOOD_COLS: usize = 100;

/// Number of food rows (indexed by the y coordinate).
pub const FOOD_ROWS: usize = 65;

/// Total number of food cells in the flat grid.
pub const FOOD_CELLS: usize = 6_500;

/// World width in whole units: agents are clamped to `[0, 25]` on x.
pub const WORLD_WIDTH: u32 = 25;

/// World height in whole units: agents are clamped to `[0, 25]` on y.
pub const WORLD_HEIGHT: u32 = 25;

/// Upper clamp bound of the x coordinate, in fixed point.
pub const X_LIMIT: i64 = 25 * 1_000_000;

/// Upper clamp bound of the y coordinate, in fixed point.
pub const Y_LIMIT: i64 = 25 * 1_000_000;

/// Food column under a fixed-point x coordinate: the whole-unit part,
/// clamped into the grid.
pub open spec fn cell_x_spec(px: int) -> int {
    clamp_spec(tdiv(px, SCALE as int), 0, FOOD_COLS as int - 1)
}

/// Food row under a fixed-point y coordinate.
pub open spec fn cell_y_spec(py: int) -> int {
    clamp_spec(tdiv(py, SCALE as int), 0, FOOD_ROWS as int - 1)
}

/// Flat index of the food cell under a position: cells are laid out
/// column by column, `FOOD_ROWS` cells per column.
pub open spec fn cell_index_spec(px: int, py: int) -> int {
    cell_x_spec(px) * FOOD_ROWS as int + cell_y_spec(py)
}

/// The flat index always lies inside the grid, whatever the position.
pub proof fn lemma_cell_index_in_range(px: int, py: int)
    ensures
        0 <= cell_index_spec(px, py) < FOOD_CELLS as int,
{
    assert(0 <= cell_x_spec(px) <= 99);
    assert(0 <= cell_y_spec(py) <= 64);
    assert(cell_x_spec(px) * 65 <= 99 * 65) by (nonlinear_arith)
        requires
            0 <= cell_x_spec(px) <= 99,
    ;
    assert(cell_x_spec(px) * 65 >= 0) by (nonlinear_arith)
        requires
            0 <= cell_x_spec(px),
    ;
}

/// Amount of food a forager with the given output takes from its cell:
/// `(output + 1) / 2` of the fixed rate `1/1000`, in fixed point a single
/// truncating division.
pub open spec fn depletion_spec(out: int) -> int {
    tdiv(out + SCALE as int, DEPLETION_DIVISOR as int)
}

/// The food grid after a forager with output `out` feeds on cell `idx`:
/// the cell loses `depletion_spec(out)` but never drops below zero. A
/// grid too small to hold the cell is left alone; the grids of the
/// simulation always hold every cell.
pub open spec fn deplete_cell(food: Seq<int>, idx: int, out: int) -> Seq<int> {
    if 0 <= idx < food.len() {
        let nv = food[idx] - depletion_spec(out);
        food.update(idx, if nv < 0 { 0int } else { nv })
    } else {
        food
    }
}

/// Executable whole-unit coordinate under a fixed-point coordinate,
/// clamped to the last valid index.
pub fn cell_coord(p: i64, last: usize) -> (c: usize)
    requires
        1 <= last <= 1_000,
    ensures
        c as int == clamp_spec(tdiv(p as int, SCALE as int), 0, last as int),
        c <= last,
{
    if p < 0 {
        0
    } else {
        let whole = p / SCALE;
        if whole > last as i64 {
            last
        } else {
            whole as usize
        }
    }
}

} // verus!
