//! The structural check: no digit occurs twice in a row, a column or a box.
//! It says nothing on whether the board can be completed.

use vstd::prelude::*;
use crate::grid::{before, cell, in_board, same_box, sees, Grid};

verus! {

/// Two distinct cells that see each other hold the same digit.
pub open spec fn conflict(g: Grid, r1: int, c1: int, r2: int, c2: int) -> bool {
    &&& in_board(r1, c1)
    &&& in_board(r2, c2)
    &&& (r1 != r2 || c1 != c2)
    &&& sees(r1, c1, r2, c2)
    &&& cell(g, r1, c1) is Some
    &&& cell(g, r1, c1) == cell(g, r2, c2)
}

/// Some row, column or box of `g` holds the same digit twice.
pub open spec fn has_duplicate(g: Grid) -> bool {
    exists|r1: int, c1: int, r2: int, c2: int| #[trigger] conflict(g, r1, c1, r2, c2)
}

/// No row, column or box of `g` holds the same digit twice.
pub open spec fn valid(g: Grid) -> bool {
    !has_duplicate(g)
}

/// The first `n` cells of row `i` hold no digit twice.
spec fn row_distinct(g: Grid, i: int, n: int) -> bool {
    forall|j1: int, j2: int|
        0 <= j1 < j2 < n && cell(g, i, j1) is Some ==> #[trigger] cell(g, i, j1) != #[trigger] cell(
            g,
            i,
            j2,
        )
}

/// The first `n` cells of column `i` hold no digit twice.
spec fn col_distinct(g: Grid, i: int, n: int) -> bool {
    forall|j1: int, j2: int|
        0 <= j1 < j2 < n && cell(g, j1, i) is Some ==> #[trigger] cell(g, j1, i) != #[trigger] cell(
            g,
            j2,
            i,
        )
}

/// `(r, c)` lies in box `(br, bc)` and comes before `(er, ec)` in row-major
/// order.
spec fn in_box_before(r: int, c: int, br: int, bc: int, er: int, ec: int) -> bool {
    in_board(r, c) && r / 3 == br && c / 3 == bc && before(r, c, er, ec)
}

/// The cells of box `(br, bc)` that come before `(er, ec)` hold no digit
/// twice.
spec fn box_distinct(g: Grid, br: int, bc: int, er: int, ec: int) -> bool {
    forall|r1: int, c1: int, r2: int, c2: int|
        in_box_before(r1, c1, br, bc, er, ec) && in_box_before(r2, c2, br, bc, er, ec) && (r1 != r2
            || c1 != c2) && cell(g, r1, c1) is Some ==> #[trigger] cell(g, r1, c1)
            != #[trigger] cell(g, r2, c2)
}

/// `seen` marks exactly the digits held by the first `n` cells of row `i`.
spec fn marks_row(seen: Seq<bool>, g: Grid, i: int, n: int) -> bool {
    &&& seen.len() == 256
    &&& forall|j: int|
        0 <= j < n ==> (#[trigger] cell(g, i, j) matches Some(v) ==> seen[v as int])
    &&& forall|v: int|
        0 <= v < 256 && #[trigger] seen[v] ==> exists|j: int|
            0 <= j < n && #[trigger] cell(g, i, j) == Some(v as u8)
}

/// `seen` marks exactly the digits held by the first `n` cells of column `i`.
spec fn marks_col(seen: Seq<bool>, g: Grid, i: int, n: int) -> bool {
    &&& seen.len() == 256
    &&& forall|j: int|
        0 <= j < n ==> (#[trigger] cell(g, j, i) matches Some(v) ==> seen[v as int])
    &&& forall|v: int|
        0 <= v < 256 && #[trigger] seen[v] ==> exists|j: int|
            0 <= j < n && #[trigger] cell(g, j, i) == Some(v as u8)
}

/// `seen` marks exactly the digits held by the cells of box `(br, bc)` that
/// come before `(er, ec)`.
spec fn marks_box(seen: Seq<bool>, g: Grid, br: int, bc: int, er: int, ec: int) -> bool {
    &&& seen.len() == 256
    &&& forall|r: int, c: int|
        in_box_before(r, c, br, bc, er, ec) ==> (#[trigger] cell(g, r, c) matches Some(v)
            ==> seen[v as int])
    &&& forall|v: int|
        0 <= v < 256 && #[trigger] seen[v] ==> exists|r: int, c: int|
            in_box_before(r, c, br, bc, er, ec) && #[trigger] cell(g, r, c) == Some(v as u8)
}

/// Rows, columns and boxes that are each free of duplicates make a valid
/// board.
proof fn lemma_units_distinct_valid(g: Grid)
    requires
        forall|i: int| 0 <= i < 9 ==> #[trigger] row_distinct(g, i, 9),
        forall|i: int| 0 <= i < 9 ==> #[trigger] col_distinct(g, i, 9),
        forall|br: int, bc: int|
            0 <= br < 3 && 0 <= bc < 3 ==> #[trigger] box_distinct(g, br, bc, 9, 0),
    ensures
        valid(g),
{
    assert forall|r1: int, c1: int, r2: int, c2: int| !#[trigger] conflict(g, r1, c1, r2, c2) by {
        if conflict(g, r1, c1, r2, c2) {
            if r1 == r2 {
                assert(row_distinct(g, r1, 9));
                if c1 < c2 {
                    assert(cell(g, r1, c1) != cell(g, r1, c2));
                } else {
                    assert(cell(g, r1, c2) != cell(g, r1, c1));
                }
            } else if c1 == c2 {
                assert(col_distinct(g, c1, 9));
                if r1 < r2 {
                    assert(cell(g, r1, c1) != cell(g, r2, c1));
                } else {
                    assert(cell(g, r2, c1) != cell(g, r1, c1));
                }
            } else {
                assert(same_box(r1, c1, r2, c2));
                assert(box_distinct(g, r1 / 3, c1 / 3, 9, 0));
                assert(in_box_before(r1, c1, r1 / 3, c1 / 3, 9, 0));
                assert(in_box_before(r2, c2, r1 / 3, c1 / 3, 9, 0));
                assert(cell(g, r1, c1) != cell(g, r2, c2));
            }
        }
    }
}

/// Tells whether the board is free of rule violations: `true` exactly when no
/// row, column or 3x3 box holds the same digit twice. Empty cells never
/// clash. A valid board need not be solvable.
pub fn is_valid_grid(grid: &Grid) -> (ok: bool)
    ensures
        ok == valid(*grid),
{
    for i in 0..9usize
        invariant
            forall|k: int| 0 <= k < i ==> #[trigger] row_distinct(*grid, k, 9),
            forall|k: int| 0 <= k < i ==> #[trigger] col_distinct(*grid, k, 9),
    {
        let mut row = [false;256];
        let mut col = [false;256];
        for j in 0..9usize
            invariant
                i < 9,
                marks_row(row@, *grid, i as int, j as int),
                marks_col(col@, *grid, i as int, j as int),
                row_distinct(*grid, i as int, j as int),
                col_distinct(*grid, i as int, j as int),
        {
            if let Some(val) = grid[i][j] {
                assert(cell(*grid, i as int, j as int) == Some(val));
                if row[val as usize] {
                    let ghost k = choose|k: int|
                        0 <= k < j && #[trigger] cell(*grid, i as int, k) == Some(val);
                    assert(conflict(*grid, i as int, k, i as int, j as int));
                    return false;
                }
                row[val as usize] = true;
            }
            if let Some(val) = grid[j][i] {
                assert(cell(*grid, j as int, i as int) == Some(val));
                if col[val as usize] {
                    let ghost k = choose|k: int|
                        0 <= k < j && #[trigger] cell(*grid, k, i as int) == Some(val);
                    assert(conflict(*grid, k, i as int, j as int, i as int));
                    return false;
                }
                col[val as usize] = true;
            }
        }
    }
    for box_row in 0..3usize
        invariant
            forall|k: int| 0 <= k < 9 ==> #[trigger] row_distinct(*grid, k, 9),
            forall|k: int| 0 <= k < 9 ==> #[trigger] col_distinct(*grid, k, 9),
            forall|x: int, y: int|
                0 <= x < box_row && 0 <= y < 3 ==> #[trigger] box_distinct(*grid, x, y, 9, 0),
    {
        for box_col in 0..3usize
            invariant
                box_row < 3,
                forall|x: int, y: int|
                    0 <= x < box_row && 0 <= y < 3 ==> #[trigger] box_distinct(*grid, x, y, 9, 0),
                forall|y: int|
                    0 <= y < box_col ==> #[trigger] box_distinct(*grid, box_row as int, y, 9, 0),
        {
            let mut seen = [false;256];
            for i in 0..3usize
                invariant
                    box_row < 3,
                    box_col < 3,
                    marks_box(
                        seen@,
                        *grid,
                        box_row as int,
                        box_col as int,
                        box_row * 3 + i,
                        0,
                    ),
                    box_distinct(*grid, box_row as int, box_col as int, box_row * 3 + i, 0),
            {
                for j in 0..3usize
                    invariant
                        box_row < 3,
                        box_col < 3,
                        i < 3,
                        marks_box(
                            seen@,
                            *grid,
                            box_row as int,
                            box_col as int,
                            box_row * 3 + i,
                            box_col * 3 + j,
                        ),
                        box_distinct(
                            *grid,
                            box_row as int,
                            box_col as int,
                            box_row * 3 + i,
                            box_col * 3 + j,
                        ),
                {
                    let r: usize = box_row * 3 + i;
                    let c: usize = box_col * 3 + j;
                    if let Some(val) = grid[r][c] {
                        assert(cell(*grid, r as int, c as int) == Some(val));
                        if seen[val as usize] {
                            let ghost (pr, pc) = choose|pr: int, pc: int|
                                in_box_before(
                                    pr,
                                    pc,
                                    box_row as int,
                                    box_col as int,
                                    r as int,
                                    c as int,
                                ) && #[trigger] cell(*grid, pr, pc) == Some(val);
                            assert(conflict(*grid, pr, pc, r as int, c as int));
                            return false;
                        }
                        seen[val as usize] = true;
                    }
                }
            }
        }
    }
    proof {
        lemma_units_distinct_valid(*grid);
    }
    true
}

} // verus!
