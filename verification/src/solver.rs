//! The backtracking search: fill the first empty cell with the smallest
//! digit that leads to a full board, and undo every choice that does not.

use vstd::prelude::*;
use crate::grid::{
    before, can_place, cell, find_empty, in_board, is_first_empty, is_full, placeable, sees,
    well_formed, Grid,
};
use crate::validate::valid;

verus! {

/// `s` and `t` hold the same content in every cell.
pub open spec fn same_cells(s: Grid, t: Grid) -> bool {
    forall|r: int, c: int| in_board(r, c) ==> #[trigger] cell(s, r, c) == cell(t, r, c)
}

/// `s` keeps every digit that `g` holds.
pub open spec fn extends(g: Grid, s: Grid) -> bool {
    forall|r: int, c: int|
        in_board(r, c) && cell(g, r, c) is Some ==> #[trigger] cell(s, r, c) == cell(g, r, c)
}

/// Cell `(r, c)` of `s` holds a digit from 1 to 9 that no other cell of its
/// row, column or box holds.
pub open spec fn legal_at(s: Grid, r: int, c: int) -> bool {
    &&& cell(s, r, c) matches Some(d)
    &&& 1 <= d <= 9
    &&& forall|r2: int, c2: int|
        in_board(r2, c2) && sees(r, c, r2, c2) && (r2 != r || c2 != c) ==> #[trigger] cell(
            s,
            r2,
            c2,
        ) != Some(d)
}

/// `s` is a completion of `g`: it keeps the digits of `g` and fills every
/// empty cell of `g` legally.
pub open spec fn completes(g: Grid, s: Grid) -> bool {
    &&& extends(g, s)
    &&& forall|r: int, c: int|
        in_board(r, c) && cell(g, r, c) is None ==> #[trigger] legal_at(s, r, c)
}

/// `g` has a completion.
pub open spec fn solvable(g: Grid) -> bool {
    exists|s: Grid| #[trigger] completes(g, s)
}

/// `g` is a finished board: full, free of duplicates, with digits from 1 to 9.
pub open spec fn is_solved(g: Grid) -> bool {
    is_full(g) && valid(g) && well_formed(g)
}

/// `s` is a solution of `g`: a finished board that keeps the digits of `g`.
pub open spec fn is_solution(g: Grid, s: Grid) -> bool {
    extends(g, s) && is_solved(s)
}

/// `s` and `t` agree on every cell that comes before `(r, c)` in row-major
/// order.
pub open spec fn agree_before(s: Grid, t: Grid, r: int, c: int) -> bool {
    forall|r2: int, c2: int|
        in_board(r2, c2) && before(r2, c2, r, c) ==> #[trigger] cell(s, r2, c2) == cell(t, r2, c2)
}

/// `s` and `t` agree up to `(r, c)`, where `s` holds the smaller digit.
pub open spec fn differs_first_at(s: Grid, t: Grid, r: int, c: int) -> bool {
    &&& in_board(r, c)
    &&& agree_before(s, t, r, c)
    &&& cell(s, r, c) is Some
    &&& cell(t, r, c) is Some
    &&& cell(s, r, c)->0 < cell(t, r, c)->0
}

/// `s` comes strictly before `t` when the cells are read in row-major order
/// and compared digit by digit.
pub open spec fn precedes(s: Grid, t: Grid) -> bool {
    exists|r: int, c: int| #[trigger] differs_first_at(s, t, r, c)
}

/// `s` is the completion of `g` that comes before every other one.
pub open spec fn first_completion(g: Grid, s: Grid) -> bool {
    &&& completes(g, s)
    &&& forall|t: Grid| #[trigger] completes(g, t) ==> t == s || precedes(s, t)
}

/// The number of empty cells among the first `k` cells in row-major order.
pub open spec fn empties_upto(g: Grid, k: nat) -> nat
    decreases k,
{
    if k == 0 {
        0
    } else {
        let p = (k - 1) as int;
        empties_upto(g, (k - 1) as nat) + if cell(g, p / 9, p % 9) is None {
            1nat
        } else {
            0nat
        }
    }
}

/// The number of empty cells of `g`.
pub open spec fn empty_count(g: Grid) -> nat {
    empties_upto(g, 81)
}

/// `g2` is `g` with cell `(r, c)` set to `v`.
spec fn is_update(g: Grid, g2: Grid, r: int, c: int, v: Option<u8>) -> bool {
    &&& in_board(r, c)
    &&& cell(g2, r, c) == v
    &&& forall|r2: int, c2: int|
        in_board(r2, c2) && (r2 != r || c2 != c) ==> #[trigger] cell(g2, r2, c2) == cell(
            g,
            r2,
            c2,
        )
}

/// No completion of `g` holds digit `d` at `(r, c)`.
spec fn excluded(g: Grid, r: int, c: int, d: u8) -> bool {
    forall|t: Grid| #[trigger] completes(g, t) ==> cell(t, r, c) != Some(d)
}

/// Boards with the same cells are the same board.
pub proof fn lemma_same_cells_equal(s: Grid, t: Grid)
    requires
        same_cells(s, t),
    ensures
        s == t,
{
    assert forall|r: int| 0 <= r < 9 implies #[trigger] s@[r] == t@[r] by {
        assert forall|c: int| 0 <= c < 9 implies #[trigger] s@[r]@[c] == t@[r]@[c] by {
            assert(cell(s, r, c) == cell(t, r, c));
        }
        assert(s@[r] =~= t@[r]);
    }
    assert(s =~= t);
}

/// A completion has no empty cell.
pub proof fn lemma_completion_is_full(g: Grid, s: Grid)
    requires
        completes(g, s),
    ensures
        is_full(s),
{
    assert forall|r: int, c: int| in_board(r, c) implies #[trigger] cell(s, r, c) is Some by {
        if cell(g, r, c) is None {
            assert(legal_at(s, r, c));
        }
    }
}

/// A full board is its own and only completion.
proof fn lemma_full_board(g: Grid)
    requires
        is_full(g),
    ensures
        first_completion(g, g),
{
    assert(completes(g, g));
    assert forall|t: Grid| #[trigger] completes(g, t) implies t == g || precedes(g, t) by {
        assert(same_cells(t, g));
        lemma_same_cells_equal(t, g);
    }
}

/// Filling an empty cell lowers the number of empty cells among the first
/// `k` by one when the cell is among them, and leaves it unchanged otherwise.
proof fn lemma_fill_empties_upto(g: Grid, g2: Grid, r: int, c: int, v: Option<u8>, k: nat)
    requires
        is_update(g, g2, r, c, v),
        cell(g, r, c) is None,
        v is Some,
        k <= 81,
    ensures
        empties_upto(g, k) == empties_upto(g2, k) + if k > 9 * r + c {
            1nat
        } else {
            0nat
        },
    decreases k,
{
    if k > 0 {
        lemma_fill_empties_upto(g, g2, r, c, v, (k - 1) as nat);
        let p = (k - 1) as int;
        assert(in_board(p / 9, p % 9));
        if p == 9 * r + c {
            assert(p / 9 == r && p % 9 == c);
        } else {
            assert(p / 9 != r || p % 9 != c);
            assert(cell(g2, p / 9, p % 9) == cell(g, p / 9, p % 9));
        }
    }
}

/// Filling an empty cell leaves fewer empty cells.
proof fn lemma_fill_decreases(g: Grid, g2: Grid, r: int, c: int, v: Option<u8>)
    requires
        is_update(g, g2, r, c, v),
        cell(g, r, c) is None,
        v is Some,
    ensures
        empty_count(g2) < empty_count(g),
{
    lemma_fill_empties_upto(g, g2, r, c, v, 81);
}

/// A completion of the board with a legal digit placed is a completion of
/// the board without it.
proof fn lemma_completion_of_placed(g: Grid, g2: Grid, r: int, c: int, d: u8, t: Grid)
    requires
        is_update(g, g2, r, c, Some(d)),
        cell(g, r, c) is None,
        1 <= d <= 9,
        placeable(g, r, c, d),
        completes(g2, t),
    ensures
        completes(g, t),
{
    assert forall|r2: int, c2: int| in_board(r2, c2) && cell(g, r2, c2) is Some implies #[trigger] cell(
        t,
        r2,
        c2,
    ) == cell(g, r2, c2) by {
        assert(cell(g2, r2, c2) == cell(g, r2, c2));
    }
    assert(cell(t, r, c) == cell(g2, r, c));
    assert forall|r2: int, c2: int|
        in_board(r2, c2) && cell(g, r2, c2) is None implies #[trigger] legal_at(t, r2, c2) by {
        if r2 == r && c2 == c {
            assert forall|r3: int, c3: int|
                in_board(r3, c3) && sees(r, c, r3, c3) && (r3 != r || c3 != c) implies #[trigger] cell(
                t,
                r3,
                c3,
            ) != Some(d) by {
                assert(cell(g2, r3, c3) == cell(g, r3, c3));
                if cell(g, r3, c3) is Some {
                    assert(cell(t, r3, c3) == cell(g2, r3, c3));
                    assert(cell(g, r3, c3) != Some(d));
                } else {
                    assert(legal_at(t, r3, c3));
                    assert(sees(r3, c3, r, c));
                    assert(cell(t, r, c) != cell(t, r3, c3));
                }
            }
        } else {
            assert(cell(g2, r2, c2) == cell(g, r2, c2));
            assert(legal_at(t, r2, c2));
        }
    }
}

/// A digit that a completion holds at an empty cell was legal there.
pub proof fn lemma_completion_digit_placeable(g: Grid, r: int, c: int, d: u8, t: Grid)
    requires
        in_board(r, c),
        cell(g, r, c) is None,
        completes(g, t),
        cell(t, r, c) == Some(d),
    ensures
        placeable(g, r, c, d),
{
    assert(legal_at(t, r, c));
    assert forall|r2: int, c2: int| in_board(r2, c2) && sees(r, c, r2, c2) implies #[trigger] cell(
        g,
        r2,
        c2,
    ) != Some(d) by {
        if r2 != r || c2 != c {
            assert(cell(t, r2, c2) != Some(d));
            if cell(g, r2, c2) is Some {
                assert(cell(t, r2, c2) == cell(g, r2, c2));
            }
        }
    }
}

/// A completion that holds `d` at an empty cell is a completion of the board
/// with `d` placed there.
proof fn lemma_completion_through(g: Grid, g2: Grid, r: int, c: int, d: u8, t: Grid)
    requires
        is_update(g, g2, r, c, Some(d)),
        cell(g, r, c) is None,
        completes(g, t),
        cell(t, r, c) == Some(d),
    ensures
        completes(g2, t),
{
    assert forall|r2: int, c2: int| in_board(r2, c2) && cell(g2, r2, c2) is Some implies #[trigger] cell(
        t,
        r2,
        c2,
    ) == cell(g2, r2, c2) by {
        if r2 != r || c2 != c {
            assert(cell(g2, r2, c2) == cell(g, r2, c2));
        }
    }
    assert forall|r2: int, c2: int|
        in_board(r2, c2) && cell(g2, r2, c2) is None implies #[trigger] legal_at(t, r2, c2) by {
        assert(cell(g2, r2, c2) == cell(g, r2, c2));
    }
}

/// A digit that is illegal at an empty cell is held there by no completion.
proof fn lemma_illegal_digit_excluded(g: Grid, r: int, c: int, d: u8)
    requires
        in_board(r, c),
        cell(g, r, c) is None,
        !placeable(g, r, c, d),
    ensures
        excluded(g, r, c, d),
{
    assert forall|t: Grid| #[trigger] completes(g, t) implies cell(t, r, c) != Some(d) by {
        if cell(t, r, c) == Some(d) {
            lemma_completion_digit_placeable(g, r, c, d, t);
        }
    }
}

/// A digit whose placement leaves a board without completion is held at
/// that cell by no completion.
proof fn lemma_failed_digit_excluded(g: Grid, g2: Grid, r: int, c: int, d: u8)
    requires
        is_update(g, g2, r, c, Some(d)),
        cell(g, r, c) is None,
        !solvable(g2),
    ensures
        excluded(g, r, c, d),
{
    assert forall|t: Grid| #[trigger] completes(g, t) implies cell(t, r, c) != Some(d) by {
        if cell(t, r, c) == Some(d) {
            lemma_completion_through(g, g2, r, c, d, t);
        }
    }
}

/// A board with an empty cell at which every digit is excluded has no
/// completion.
proof fn lemma_all_digits_excluded(g: Grid, r: int, c: int)
    requires
        in_board(r, c),
        cell(g, r, c) is None,
        forall|d: u8| 1 <= d <= 9 ==> #[trigger] excluded(g, r, c, d),
    ensures
        !solvable(g),
{
    assert forall|t: Grid| !#[trigger] completes(g, t) by {
        if completes(g, t) {
            assert(legal_at(t, r, c));
            assert(excluded(g, r, c, cell(t, r, c)->0));
        }
    }
}

/// The first completion after placing, at the first empty cell, the smallest
/// digit that is not excluded is the first completion of the board.
proof fn lemma_first_completion_of_placed(g: Grid, g2: Grid, r: int, c: int, d: u8, s: Grid)
    requires
        is_first_empty(g, r, c),
        is_update(g, g2, r, c, Some(d)),
        1 <= d <= 9,
        placeable(g, r, c, d),
        forall|e: u8| 1 <= e < d ==> #[trigger] excluded(g, r, c, e),
        first_completion(g2, s),
    ensures
        first_completion(g, s),
{
    lemma_completion_of_placed(g, g2, r, c, d, s);
    assert forall|t: Grid| #[trigger] completes(g, t) implies t == s || precedes(s, t) by {
        assert(legal_at(t, r, c));
        let e = cell(t, r, c)->0;
        if e < d {
            assert(excluded(g, r, c, e));
        } else if e == d {
            lemma_completion_through(g, g2, r, c, d, t);
        } else {
            assert(cell(s, r, c) == Some(d));
            assert forall|r2: int, c2: int|
                in_board(r2, c2) && before(r2, c2, r, c) implies #[trigger] cell(s, r2, c2)
                == cell(t, r2, c2) by {
                assert(cell(g, r2, c2) is Some);
                assert(cell(s, r2, c2) == cell(g, r2, c2));
                assert(cell(t, r2, c2) == cell(g, r2, c2));
            }
            assert(differs_first_at(s, t, r, c));
        }
    }
}

/// Solves the board in place by backtracking.
///
/// The first empty cell in row-major order is tried with the digits 1 to 9
/// in ascending order; a digit is placed where it is legal, the rest of the
/// board is solved in the same way, and the digit is taken back when that
/// fails. The result is `true` exactly when the board has a completion; the
/// board then holds the completion that comes first when boards are compared
/// cell by cell in row-major order. On `false` the board is left as it was.
///
/// The digits that the board holds at the start are never compared with one
/// another: on a board free of duplicates the completions are the solutions.
pub fn solve(grid: &mut Grid) -> (solved: bool)
    ensures
        solved == solvable(*old(grid)),
        solved ==> first_completion(*old(grid), *final(grid)),
        !solved ==> *final(grid) == *old(grid),
    decreases empty_count(*old(grid)),
{
    let ghost g = *grid;
    if let Some((row, col)) = find_empty(grid) {
        for num in 1..10u8
            invariant
                *grid == g,
                g == *old(grid),
                is_first_empty(g, row as int, col as int),
                forall|d: u8| 1 <= d < num ==> #[trigger] excluded(g, row as int, col as int, d),
        {
            if can_place(grid, row, col, num) {
                grid[row][col] = Some(num);
                let ghost g2 = *grid;
                proof {
                    assert(is_update(g, g2, row as int, col as int, Some(num)));
                    lemma_fill_decreases(g, g2, row as int, col as int, Some(num));
                }
                if solve(grid) {
                    proof {
                        lemma_first_completion_of_placed(
                            g,
                            g2,
                            row as int,
                            col as int,
                            num,
                            *grid,
                        );
                    }
                    return true;
                }
                grid[row][col] = None;
                proof {
                    lemma_failed_digit_excluded(g, g2, row as int, col as int, num);
                    assert(same_cells(*grid, g));
                    lemma_same_cells_equal(*grid, g);
                }
            } else {
                proof {
                    lemma_illegal_digit_excluded(g, row as int, col as int, num);
                }
            }
        }
        proof {
            lemma_all_digits_excluded(g, row as int, col as int);
        }
        false
    } else {
        proof {
            lemma_full_board(g);
        }
        true
    }
}

} // verus!
