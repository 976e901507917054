//! A cheap detector of dead boards: single-step necessary conditions per
//! empty cell and per digit and row, column or box. It never searches.

use vstd::prelude::*;
use crate::grid::{can_place, cell, in_board, placeable, Grid};

verus! {

/// Some digit from 1 to 9 may legally be placed at `(r, c)`.
pub open spec fn has_candidate(g: Grid, r: int, c: int) -> bool {
    exists|d: u8| 1 <= d <= 9 && #[trigger] placeable(g, r, c, d)
}

/// `(r, c)` is an empty cell that no digit can fill.
pub open spec fn dead_cell(g: Grid, r: int, c: int) -> bool {
    in_board(r, c) && cell(g, r, c) is None && !has_candidate(g, r, c)
}

/// Cell `(r, c)` can account for digit `d`: it holds `d` already, or it is
/// empty and `d` may legally be placed there.
pub open spec fn fits(g: Grid, r: int, c: int, d: u8) -> bool {
    cell(g, r, c) == Some(d) || (cell(g, r, c) is None && placeable(g, r, c, d))
}

/// Row `i` has a cell that can account for digit `d`.
pub open spec fn row_has_home(g: Grid, i: int, d: u8) -> bool {
    exists|j: int| 0 <= j < 9 && #[trigger] fits(g, i, j, d)
}

/// Column `i` has a cell that can account for digit `d`.
pub open spec fn col_has_home(g: Grid, i: int, d: u8) -> bool {
    exists|j: int| 0 <= j < 9 && #[trigger] fits(g, j, i, d)
}

/// The box in box-row `br` and box-column `bc` has a cell that can account
/// for digit `d`.
pub open spec fn box_has_home(g: Grid, br: int, bc: int, d: u8) -> bool {
    exists|r: int, c: int|
        in_board(r, c) && r / 3 == br && c / 3 == bc && #[trigger] fits(g, r, c, d)
}

/// Digit `d` has a home in every row, every column and every box.
pub open spec fn digit_has_homes(g: Grid, d: u8) -> bool {
    &&& forall|i: int| 0 <= i < 9 ==> #[trigger] row_has_home(g, i, d)
    &&& forall|i: int| 0 <= i < 9 ==> #[trigger] col_has_home(g, i, d)
    &&& forall|br: int, bc: int|
        0 <= br < 3 && 0 <= bc < 3 ==> #[trigger] box_has_home(g, br, bc, d)
}

/// The board is provably dead: an empty cell has no candidate, or a digit
/// from 1 to 9 is absent from a row, a column or a box and can be placed in
/// none of its empty cells.
pub open spec fn contradictory(g: Grid) -> bool {
    ||| exists|r: int, c: int| #[trigger] dead_cell(g, r, c)
    ||| exists|d: u8| 1 <= d <= 9 && !#[trigger] digit_has_homes(g, d)
}

/// Tells whether any digit from 1 to 9 may be placed at `(r, c)`.
fn cell_has_candidate(grid: &Grid, r: usize, c: usize) -> (found: bool)
    requires
        r < 9,
        c < 9,
    ensures
        found == has_candidate(*grid, r as int, c as int),
{
    for num in 1..10u8
        invariant
            r < 9,
            c < 9,
            forall|d: u8| 1 <= d < num ==> !#[trigger] placeable(*grid, r as int, c as int, d),
    {
        if can_place(grid, r, c, num) {
            return true;
        }
    }
    false
}

/// Tells whether cell `(r, c)` holds `num`, or is empty and may take it.
fn cell_fits(grid: &Grid, r: usize, c: usize, num: u8) -> (ok: bool)
    requires
        r < 9,
        c < 9,
    ensures
        ok == fits(*grid, r as int, c as int, num),
{
    match grid[r][c] {
        None => can_place(grid, r, c, num),
        Some(v) => v == num,
    }
}

/// Tells whether some cell of row `i` can account for `num`.
fn row_home(grid: &Grid, i: usize, num: u8) -> (found: bool)
    requires
        i < 9,
    ensures
        found == row_has_home(*grid, i as int, num),
{
    for j in 0..9usize
        invariant
            i < 9,
            forall|k: int| 0 <= k < j ==> !#[trigger] fits(*grid, i as int, k, num),
    {
        if cell_fits(grid, i, j, num) {
            return true;
        }
    }
    false
}

/// Tells whether some cell of column `i` can account for `num`.
fn col_home(grid: &Grid, i: usize, num: u8) -> (found: bool)
    requires
        i < 9,
    ensures
        found == col_has_home(*grid, i as int, num),
{
    for j in 0..9usize
        invariant
            i < 9,
            forall|k: int| 0 <= k < j ==> !#[trigger] fits(*grid, k, i as int, num),
    {
        if cell_fits(grid, j, i, num) {
            return true;
        }
    }
    false
}

/// Tells whether some cell of the box `(box_row, box_col)` can account for
/// `num`.
fn box_home(grid: &Grid, box_row: usize, box_col: usize, num: u8) -> (found: bool)
    requires
        box_row < 3,
        box_col < 3,
    ensures
        found == box_has_home(*grid, box_row as int, box_col as int, num),
{
    for i in 0..3usize
        invariant
            box_row < 3,
            box_col < 3,
            forall|a: int, b: int|
                0 <= a < i && 0 <= b < 3 ==> !#[trigger] fits(
                    *grid,
                    box_row * 3 + a,
                    box_col * 3 + b,
                    num,
                ),
    {
        for j in 0..3usize
            invariant
                box_row < 3,
                box_col < 3,
                i < 3,
                forall|a: int, b: int|
                    0 <= a < i && 0 <= b < 3 ==> !#[trigger] fits(
                        *grid,
                        box_row * 3 + a,
                        box_col * 3 + b,
                        num,
                    ),
                forall|b: int|
                    0 <= b < j ==> !#[trigger] fits(
                        *grid,
                        box_row * 3 + i,
                        box_col * 3 + b,
                        num,
                    ),
        {
            let r: usize = box_row * 3 + i;
            let c: usize = box_col * 3 + j;
            if cell_fits(grid, r, c, num) {
                assert(in_board(r as int, c as int) && r as int / 3 == box_row && c as int / 3
                    == box_col);
                return true;
            }
        }
    }
    assert forall|r: int, c: int|
        in_board(r, c) && r / 3 == box_row as int && c / 3 == box_col as int implies !#[trigger] fits(
        *grid,
        r,
        c,
        num,
    ) by {
        let a = r - box_row * 3;
        let b = c - box_col * 3;
        assert(0 <= a < 3 && 0 <= b < 3);
        assert(!fits(*grid, box_row * 3 + a, box_col * 3 + b, num));
    }
    false
}

/// Tells whether the board is provably dead without searching: `true` exactly
/// when some empty cell has no legal digit, or some digit from 1 to 9 is
/// missing from a row, a column or a box and fits in none of its empty cells.
///
/// A `false` result is no promise that the board can be completed.
pub fn is_contradictory(grid: &Grid) -> (dead: bool)
    ensures
        dead == contradictory(*grid),
{
    for i in 0..9usize
        invariant
            forall|r: int, c: int| 0 <= r < i && 0 <= c < 9 ==> !#[trigger] dead_cell(*grid, r, c),
    {
        for j in 0..9usize
            invariant
                i < 9,
                forall|r: int, c: int|
                    0 <= r < i && 0 <= c < 9 ==> !#[trigger] dead_cell(*grid, r, c),
                forall|c: int| 0 <= c < j ==> !#[trigger] dead_cell(*grid, i as int, c),
        {
            if grid[i][j].is_none() {
                if !cell_has_candidate(grid, i, j) {
                    assert(dead_cell(*grid, i as int, j as int));
                    return true;
                }
            }
        }
    }
    assert(forall|r: int, c: int| !#[trigger] dead_cell(*grid, r, c));
    for num in 1..10u8
        invariant
            forall|r: int, c: int| !#[trigger] dead_cell(*grid, r, c),
            forall|d: u8| 1 <= d < num ==> #[trigger] digit_has_homes(*grid, d),
    {
        for i in 0..9usize
            invariant
                1 <= num <= 9,
                forall|k: int| 0 <= k < i ==> #[trigger] row_has_home(*grid, k, num),
                forall|k: int| 0 <= k < i ==> #[trigger] col_has_home(*grid, k, num),
        {
            if !row_home(grid, i, num) {
                assert(!digit_has_homes(*grid, num));
                return true;
            }
            if !col_home(grid, i, num) {
                assert(!digit_has_homes(*grid, num));
                return true;
            }
        }
        for box_row in 0..3usize
            invariant
                1 <= num <= 9,
                forall|k: int| 0 <= k < 9 ==> #[trigger] row_has_home(*grid, k, num),
                forall|k: int| 0 <= k < 9 ==> #[trigger] col_has_home(*grid, k, num),
                forall|x: int, y: int|
                    0 <= x < box_row && 0 <= y < 3 ==> #[trigger] box_has_home(*grid, x, y, num),
        {
            for box_col in 0..3usize
                invariant
                    1 <= num <= 9,
                    box_row < 3,
                    forall|x: int, y: int|
                        0 <= x < box_row && 0 <= y < 3 ==> #[trigger] box_has_home(
                            *grid,
                            x,
                            y,
                            num,
                        ),
                    forall|y: int|
                        0 <= y < box_col ==> #[trigger] box_has_home(
                            *grid,
                            box_row as int,
                            y,
                            num,
                        ),
            {
                if !box_home(grid, box_row, box_col, num) {
                    assert(!digit_has_homes(*grid, num));
                    return true;
                }
            }
        }
    }
    false
}

} // verus!
