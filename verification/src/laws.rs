//! What holds of the engine as a whole: how validation, contradiction
//! detection and search relate to one another.

use vstd::prelude::*;
use vstd::set_lib::{lemma_int_range, lemma_subset_equality, set_int_range};
use crate::contradiction::{
    box_has_home, col_has_home, contradictory, dead_cell, digit_has_homes, fits, has_candidate,
    row_has_home,
};
use crate::grid::{cell, in_board, is_first_empty, is_full, sees, well_formed, Grid};
use crate::solver::{
    completes, differs_first_at, first_completion, is_solution, is_solved, legal_at,
    lemma_completion_digit_placeable, lemma_completion_is_full, precedes, solvable,
};
use crate::validate::{conflict, has_duplicate, valid};

verus! {

/// Row `i` holds some digit in two of its cells.
pub open spec fn row_repeats(g: Grid, i: int) -> bool {
    exists|j1: int, j2: int|
        0 <= j1 < j2 < 9 && cell(g, i, j1) is Some && #[trigger] cell(g, i, j1) == #[trigger] cell(
            g,
            i,
            j2,
        )
}

/// Column `i` holds some digit in two of its cells.
pub open spec fn col_repeats(g: Grid, i: int) -> bool {
    exists|j1: int, j2: int|
        0 <= j1 < j2 < 9 && cell(g, j1, i) is Some && #[trigger] cell(g, j1, i) == #[trigger] cell(
            g,
            j2,
            i,
        )
}

/// The box in box-row `br` and box-column `bc` holds some digit in two of
/// its cells.
pub open spec fn box_repeats(g: Grid, br: int, bc: int) -> bool {
    exists|r1: int, c1: int, r2: int, c2: int|
        in_board(r1, c1) && in_board(r2, c2) && r1 / 3 == br && c1 / 3 == bc && r2 / 3 == br && c2
            / 3 == bc && (r1 != r2 || c1 != c2) && cell(g, r1, c1) is Some && #[trigger] cell(
            g,
            r1,
            c1,
        ) == #[trigger] cell(g, r2, c2)
}

/// A finished board passes validation and has no empty cell to find.
pub proof fn law_solved_board(g: Grid)
    requires
        is_solved(g),
    ensures
        valid(g),
        is_full(g),
        forall|r: int, c: int| !is_first_empty(g, r, c),
{
    assert forall|r: int, c: int| !is_first_empty(g, r, c) by {
        if in_board(r, c) {
            assert(cell(g, r, c) is Some);
        }
    }
}

/// A board fails validation exactly when some row, some column or some box
/// holds the same digit twice.
pub proof fn law_invalid_by_unit(g: Grid)
    ensures
        !valid(g) <==> {
            ||| exists|i: int| 0 <= i < 9 && #[trigger] row_repeats(g, i)
            ||| exists|i: int| 0 <= i < 9 && #[trigger] col_repeats(g, i)
            ||| exists|br: int, bc: int|
                0 <= br < 3 && 0 <= bc < 3 && #[trigger] box_repeats(g, br, bc)
        },
{
    if has_duplicate(g) {
        let (r1, c1, r2, c2) = choose|r1: int, c1: int, r2: int, c2: int|
            #[trigger] conflict(g, r1, c1, r2, c2);
        if r1 == r2 {
            if c1 < c2 {
                assert(cell(g, r1, c1) == cell(g, r1, c2));
            } else {
                assert(cell(g, r1, c2) == cell(g, r1, c1));
            }
            assert(row_repeats(g, r1));
        } else if c1 == c2 {
            if r1 < r2 {
                assert(cell(g, r1, c1) == cell(g, r2, c1));
            } else {
                assert(cell(g, r2, c1) == cell(g, r1, c1));
            }
            assert(col_repeats(g, c1));
        } else {
            assert(cell(g, r1, c1) == cell(g, r2, c2));
            assert(box_repeats(g, r1 / 3, c1 / 3));
        }
    }
    if exists|i: int| 0 <= i < 9 && #[trigger] row_repeats(g, i) {
        let i = choose|i: int| 0 <= i < 9 && #[trigger] row_repeats(g, i);
        let (j1, j2) = choose|j1: int, j2: int|
            0 <= j1 < j2 < 9 && cell(g, i, j1) is Some && #[trigger] cell(g, i, j1)
                == #[trigger] cell(g, i, j2);
        assert(conflict(g, i, j1, i, j2));
    }
    if exists|i: int| 0 <= i < 9 && #[trigger] col_repeats(g, i) {
        let i = choose|i: int| 0 <= i < 9 && #[trigger] col_repeats(g, i);
        let (j1, j2) = choose|j1: int, j2: int|
            0 <= j1 < j2 < 9 && cell(g, j1, i) is Some && #[trigger] cell(g, j1, i)
                == #[trigger] cell(g, j2, i);
        assert(conflict(g, j1, i, j2, i));
    }
    if exists|br: int, bc: int| 0 <= br < 3 && 0 <= bc < 3 && #[trigger] box_repeats(g, br, bc) {
        let (br, bc) = choose|br: int, bc: int|
            0 <= br < 3 && 0 <= bc < 3 && #[trigger] box_repeats(g, br, bc);
        let (r1, c1, r2, c2) = choose|r1: int, c1: int, r2: int, c2: int|
            in_board(r1, c1) && in_board(r2, c2) && r1 / 3 == br && c1 / 3 == bc && r2 / 3 == br
                && c2 / 3 == bc && (r1 != r2 || c1 != c2) && cell(g, r1, c1) is Some
                && #[trigger] cell(g, r1, c1) == #[trigger] cell(g, r2, c2);
        assert(conflict(g, r1, c1, r2, c2));
    }
}

/// A solution of a board is one of its completions.
pub proof fn lemma_solution_completes(g: Grid, s: Grid)
    requires
        is_solution(g, s),
    ensures
        completes(g, s),
{
    assert forall|r: int, c: int|
        in_board(r, c) && cell(g, r, c) is None implies #[trigger] legal_at(s, r, c) by {
        assert(cell(s, r, c) is Some);
        let d = cell(s, r, c)->0;
        assert forall|r2: int, c2: int|
            in_board(r2, c2) && sees(r, c, r2, c2) && (r2 != r || c2 != c) implies #[trigger] cell(
            s,
            r2,
            c2,
        ) != Some(d) by {
            assert(!conflict(s, r, c, r2, c2));
        }
    }
}

/// A board that has a solution is itself free of duplicates and holds only
/// digits from 1 to 9.
pub proof fn lemma_solution_of_sound_board(g: Grid, s: Grid)
    requires
        is_solution(g, s),
    ensures
        valid(g),
        well_formed(g),
{
    assert forall|r1: int, c1: int, r2: int, c2: int| !#[trigger] conflict(g, r1, c1, r2, c2) by {
        if conflict(g, r1, c1, r2, c2) {
            assert(cell(s, r1, c1) == cell(g, r1, c1));
            assert(cell(s, r2, c2) == cell(g, r2, c2));
            assert(conflict(s, r1, c1, r2, c2));
        }
    }
    assert forall|r: int, c: int| in_board(r, c) implies (#[trigger] cell(g, r, c) matches Some(d)
        ==> 1 <= d <= 9) by {
        if cell(g, r, c) is Some {
            assert(cell(s, r, c) == cell(g, r, c));
        }
    }
}

/// A completion of a sound board is a solution of it.
pub proof fn lemma_completion_is_solution(g: Grid, s: Grid)
    requires
        valid(g),
        well_formed(g),
        completes(g, s),
    ensures
        is_solution(g, s),
{
    lemma_completion_is_full(g, s);
    assert forall|r: int, c: int| in_board(r, c) implies (#[trigger] cell(s, r, c) matches Some(d)
        ==> 1 <= d <= 9) by {
        if cell(g, r, c) is None {
            assert(legal_at(s, r, c));
        } else {
            assert(cell(s, r, c) == cell(g, r, c));
        }
    }
    assert forall|r1: int, c1: int, r2: int, c2: int| !#[trigger] conflict(s, r1, c1, r2, c2) by {
        if conflict(s, r1, c1, r2, c2) {
            if cell(g, r1, c1) is None {
                assert(legal_at(s, r1, c1));
                assert(cell(s, r2, c2) != cell(s, r1, c1));
            } else if cell(g, r2, c2) is None {
                assert(legal_at(s, r2, c2));
                assert(sees(r2, c2, r1, c1));
                assert(cell(s, r1, c1) != cell(s, r2, c2));
            } else {
                assert(cell(s, r1, c1) == cell(g, r1, c1));
                assert(cell(s, r2, c2) == cell(g, r2, c2));
                assert(conflict(g, r1, c1, r2, c2));
            }
        }
    }
}

/// A board that has a solution is solvable, and each of its completions,
/// the one that the search leaves among them, is a finished board.
pub proof fn law_solvable_board(g: Grid, t: Grid)
    requires
        is_solution(g, t),
    ensures
        solvable(g),
        forall|s: Grid| #[trigger] completes(g, s) ==> is_solved(s),
{
    lemma_solution_completes(g, t);
    lemma_solution_of_sound_board(g, t);
    assert forall|s: Grid| #[trigger] completes(g, s) implies is_solved(s) by {
        lemma_completion_is_solution(g, s);
    }
}

/// A board on which the search fails has no solution.
pub proof fn law_unsolvable_board(g: Grid)
    requires
        !solvable(g),
    ensures
        forall|t: Grid| !is_solution(g, t),
{
    assert forall|t: Grid| !is_solution(g, t) by {
        if is_solution(g, t) {
            lemma_solution_completes(g, t);
        }
    }
}

/// The board that the search leaves is determined by the board it was given.
pub proof fn law_first_completion_unique(g: Grid, s1: Grid, s2: Grid)
    requires
        first_completion(g, s1),
        first_completion(g, s2),
    ensures
        s1 == s2,
{
    if s1 != s2 {
        assert(precedes(s1, s2));
        assert(precedes(s2, s1));
        let (r1, c1) = choose|r: int, c: int| #[trigger] differs_first_at(s1, s2, r, c);
        let (r2, c2) = choose|r: int, c: int| #[trigger] differs_first_at(s2, s1, r, c);
        if r1 < r2 || (r1 == r2 && c1 < c2) {
            assert(cell(s2, r1, c1) == cell(s1, r1, c1));
        } else if r2 < r1 || (r2 == r1 && c2 < c1) {
            assert(cell(s1, r2, c2) == cell(s2, r2, c2));
        }
    }
}

/// Nine numbers from 1 to 9 without a repetition hold every number from 1
/// to 9.
proof fn lemma_all_digits_occur(s: Seq<int>)
    requires
        s.len() == 9,
        s.no_duplicates(),
        forall|i: int| 0 <= i < 9 ==> 1 <= #[trigger] s[i] <= 9,
    ensures
        forall|d: int| 1 <= d <= 9 ==> s.contains(d),
{
    let digits = set_int_range(1, 10);
    lemma_int_range(1, 10);
    s.unique_seq_to_set();
    vstd::seq_lib::seq_to_set_is_finite(s);
    assert(s.to_set().subset_of(digits)) by {
        assert forall|v: int| s.to_set().contains(v) implies digits.contains(v) by {
            let i = choose|i: int| 0 <= i < s.len() && s[i] == v;
            assert(1 <= s[i] <= 9);
        }
    }
    lemma_subset_equality(s.to_set(), digits);
    assert forall|d: int| 1 <= d <= 9 implies s.contains(d) by {
        assert(digits.contains(d));
        assert(s.to_set().contains(d));
    }
}

/// Nine cells of a finished board that all see one another hold every digit.
proof fn lemma_unit_holds_digit(s: Grid, pos: spec_fn(int) -> (int, int), d: u8) -> (k: int)
    requires
        is_solved(s),
        1 <= d <= 9,
        forall|k: int| 0 <= k < 9 ==> in_board(#[trigger] pos(k).0, pos(k).1),
        forall|k1: int, k2: int|
            0 <= k1 < k2 < 9 ==> #[trigger] pos(k1) != #[trigger] pos(k2) && sees(
                pos(k1).0,
                pos(k1).1,
                pos(k2).0,
                pos(k2).1,
            ),
    ensures
        0 <= k < 9,
        cell(s, pos(k).0, pos(k).1) == Some(d),
{
    let held = Seq::new(9, |k: int| cell(s, pos(k).0, pos(k).1)->0 as int);
    assert forall|k: int| 0 <= k < 9 implies 1 <= #[trigger] held[k] <= 9 by {
        assert(in_board(pos(k).0, pos(k).1));
        assert(cell(s, pos(k).0, pos(k).1) is Some);
    }
    assert forall|k1: int, k2: int| 0 <= k1 < 9 && 0 <= k2 < 9 && k1 != k2 implies held[k1]
        != held[k2] by {
        let (a, b) = if k1 < k2 {
            (k1, k2)
        } else {
            (k2, k1)
        };
        assert(pos(a) != pos(b));
        assert(in_board(pos(a).0, pos(a).1));
        assert(in_board(pos(b).0, pos(b).1));
        assert(cell(s, pos(a).0, pos(a).1) is Some);
        assert(cell(s, pos(b).0, pos(b).1) is Some);
        assert(!conflict(s, pos(a).0, pos(a).1, pos(b).0, pos(b).1));
    }
    lemma_all_digits_occur(held);
    assert(held.contains(d as int));
    let k = choose|k: int| 0 <= k < held.len() && held[k] == d as int;
    assert(in_board(pos(k).0, pos(k).1));
    assert(cell(s, pos(k).0, pos(k).1) is Some);
    k
}

/// A cell at which a solution holds digit `d` can account for `d`.
proof fn lemma_solution_cell_fits(g: Grid, t: Grid, r: int, c: int, d: u8)
    requires
        is_solution(g, t),
        in_board(r, c),
        cell(t, r, c) == Some(d),
    ensures
        fits(g, r, c, d),
{
    if cell(g, r, c) is Some {
        assert(cell(t, r, c) == cell(g, r, c));
    } else {
        lemma_solution_completes(g, t);
        lemma_completion_digit_placeable(g, r, c, d, t);
    }
}

/// The detector never condemns a board that has a solution.
pub proof fn law_contradictory_has_no_solution(g: Grid)
    requires
        contradictory(g),
    ensures
        forall|t: Grid| !is_solution(g, t),
{
    assert forall|t: Grid| !is_solution(g, t) by {
        if is_solution(g, t) {
            lemma_solution_completes(g, t);
            if exists|r: int, c: int| #[trigger] dead_cell(g, r, c) {
                let (r, c) = choose|r: int, c: int| #[trigger] dead_cell(g, r, c);
                assert(legal_at(t, r, c));
                let d = cell(t, r, c)->0;
                lemma_completion_digit_placeable(g, r, c, d, t);
                assert(has_candidate(g, r, c));
            } else {
                let d = choose|d: u8| 1 <= d <= 9 && !#[trigger] digit_has_homes(g, d);
                assert forall|i: int| 0 <= i < 9 implies #[trigger] row_has_home(g, i, d) by {
                    let pos = |k: int| (i, k);
                    let k = lemma_unit_holds_digit(t, pos, d);
                    lemma_solution_cell_fits(g, t, i, k, d);
                }
                assert forall|i: int| 0 <= i < 9 implies #[trigger] col_has_home(g, i, d) by {
                    let pos = |k: int| (k, i);
                    let k = lemma_unit_holds_digit(t, pos, d);
                    lemma_solution_cell_fits(g, t, k, i, d);
                }
                assert forall|br: int, bc: int|
                    0 <= br < 3 && 0 <= bc < 3 implies #[trigger] box_has_home(g, br, bc, d) by {
                    let pos = |k: int| (3 * br + k / 3, 3 * bc + k % 3);
                    let k = lemma_unit_holds_digit(t, pos, d);
                    lemma_solution_cell_fits(g, t, 3 * br + k / 3, 3 * bc + k % 3, d);
                }
            }
        }
    }
}

/// The detector never condemns a finished board.
pub proof fn law_solved_board_not_contradictory(g: Grid)
    requires
        is_solved(g),
    ensures
        !contradictory(g),
{
    if contradictory(g) {
        law_contradictory_has_no_solution(g);
        assert(is_solution(g, g));
    }
}

/// On a board free of duplicates, with digits from 1 to 9, a positive answer
/// of the detector means that the search fails.
pub proof fn law_contradictory_unsolvable(g: Grid)
    requires
        valid(g),
        well_formed(g),
        contradictory(g),
    ensures
        !solvable(g),
{
    if solvable(g) {
        let s = choose|s: Grid| #[trigger] completes(g, s);
        lemma_completion_is_solution(g, s);
        law_contradictory_has_no_solution(g);
    }
}

} // verus!
