//! The board model: cells, the "sees" relation between positions, and the
//! placement-legality predicate on which every other component is built.

use vstd::prelude::*;

verus! {

/// A 9x9 board. `None` is an empty cell, `Some(d)` holds the digit `d`.
pub type Grid = [[Option<u8>; 9]; 9];

/// The content of cell `(r, c)` of `g`.
pub open spec fn cell(g: Grid, r: int, c: int) -> Option<u8> {
    g[r][c]
}

/// `(r, c)` is a position on the board.
pub open spec fn in_board(r: int, c: int) -> bool {
    0 <= r < 9 && 0 <= c < 9
}

/// `(r1, c1)` and `(r2, c2)` lie in the same 3x3 box.
pub open spec fn same_box(r1: int, c1: int, r2: int, c2: int) -> bool {
    r1 / 3 == r2 / 3 && c1 / 3 == c2 / 3
}

/// `(r1, c1)` and `(r2, c2)` share a row, a column or a box.
pub open spec fn sees(r1: int, c1: int, r2: int, c2: int) -> bool {
    r1 == r2 || c1 == c2 || same_box(r1, c1, r2, c2)
}

/// `(r1, c1)` comes strictly before `(r2, c2)` in row-major order.
pub open spec fn before(r1: int, c1: int, r2: int, c2: int) -> bool {
    r1 < r2 || (r1 == r2 && c1 < c2)
}

/// Every present value is a digit from 1 to 9.
pub open spec fn well_formed(g: Grid) -> bool {
    forall|r: int, c: int|
        in_board(r, c) ==> (#[trigger] cell(g, r, c) matches Some(d) ==> 1 <= d <= 9)
}

/// No cell of `g` is empty.
pub open spec fn is_full(g: Grid) -> bool {
    forall|r: int, c: int| in_board(r, c) ==> #[trigger] cell(g, r, c) is Some
}

/// `(r, c)` is the first empty cell of `g` in row-major order.
pub open spec fn is_first_empty(g: Grid, r: int, c: int) -> bool {
    &&& in_board(r, c)
    &&& cell(g, r, c) is None
    &&& forall|r2: int, c2: int|
        in_board(r2, c2) && before(r2, c2, r, c) ==> #[trigger] cell(g, r2, c2) is Some
}

/// `num` occurs nowhere in the row, the column or the box of `(row, col)`,
/// the cell `(row, col)` itself included.
pub open spec fn placeable(g: Grid, row: int, col: int, num: u8) -> bool {
    forall|r: int, c: int|
        in_board(r, c) && sees(row, col, r, c) ==> #[trigger] cell(g, r, c) != Some(num)
}

/// Tells whether `num` may be placed at `(row, col)`: it is legal exactly when
/// no cell in the same row, column or 3x3 box already holds `num`.
pub fn can_place(grid: &Grid, row: usize, col: usize, num: u8) -> (ok: bool)
    requires
        row < 9,
        col < 9,
    ensures
        ok == placeable(*grid, row as int, col as int, num),
{
    for i in 0..9usize
        invariant
            row < 9,
            col < 9,
            forall|k: int|
                0 <= k < i ==> #[trigger] cell(*grid, row as int, k) != Some(num),
            forall|k: int|
                0 <= k < i ==> #[trigger] cell(*grid, k, col as int) != Some(num),
    {
        if grid[row][i] == Some(num) {
            assert(cell(*grid, row as int, i as int) == Some(num));
            return false;
        }
        if grid[i][col] == Some(num) {
            assert(cell(*grid, i as int, col as int) == Some(num));
            return false;
        }
    }
    let box_row: usize = (row / 3) * 3;
    let box_col: usize = (col / 3) * 3;
    for i in 0..3usize
        invariant
            row < 9,
            col < 9,
            box_row == (row / 3) * 3,
            box_col == (col / 3) * 3,
            forall|a: int, b: int|
                0 <= a < i && 0 <= b < 3 ==> #[trigger] cell(*grid, box_row + a, box_col + b)
                    != Some(num),
    {
        for j in 0..3usize
            invariant
                row < 9,
                col < 9,
                i < 3,
                box_row == (row / 3) * 3,
                box_col == (col / 3) * 3,
                forall|a: int, b: int|
                    0 <= a < i && 0 <= b < 3 ==> #[trigger] cell(
                        *grid,
                        box_row + a,
                        box_col + b,
                    ) != Some(num),
                forall|b: int|
                    0 <= b < j ==> #[trigger] cell(*grid, box_row + i, box_col + b) != Some(
                        num,
                    ),
        {
            if grid[box_row + i][box_col + j] == Some(num) {
                assert(cell(*grid, box_row + i, box_col + j) == Some(num));
                assert(same_box(row as int, col as int, box_row + i, box_col + j));
                return false;
            }
        }
    }
    assert forall|r: int, c: int|
        in_board(r, c) && sees(row as int, col as int, r, c) implies #[trigger] cell(*grid, r, c)
        != Some(num) by {
        if r != row && c != col {
            let a = r - box_row;
            let b = c - box_col;
            assert(0 <= a < 3 && 0 <= b < 3);
            assert(cell(*grid, box_row + a, box_col + b) != Some(num));
        }
    }
    true
}

/// Finds the first empty cell in row-major order, or `None` when the board is
/// full.
pub fn find_empty(grid: &Grid) -> (found: Option<(usize, usize)>)
    ensures
        found is None <==> is_full(*grid),
        found matches Some(p) ==> is_first_empty(*grid, p.0 as int, p.1 as int),
{
    for i in 0..9usize
        invariant
            forall|r: int, c: int|
                0 <= r < i && 0 <= c < 9 ==> #[trigger] cell(*grid, r, c) is Some,
    {
        for j in 0..9usize
            invariant
                i < 9,
                forall|r: int, c: int|
                    0 <= r < i && 0 <= c < 9 ==> #[trigger] cell(*grid, r, c) is Some,
                forall|c: int| 0 <= c < j ==> #[trigger] cell(*grid, i as int, c) is Some,
        {
            if grid[i][j].is_none() {
                assert(cell(*grid, i as int, j as int) is None);
                return Some((i, j));
            }
        }
    }
    None
}

} // verus!
