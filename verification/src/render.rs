//! Showing a board as text: nine lines of cells separated by spaces, with
//! a bar after the third and the sixth column and a rule after the third and
//! the sixth row.

use vstd::prelude::*;
use vstd::string::*;
use crate::grid::{cell, in_board, well_formed, Grid};
use crate::text::{decimal, push_decimal};

verus! {

/// The text of one cell: its digit, or `.` when it is empty.
pub open spec fn cell_text(v: Option<u8>) -> Seq<char> {
    match v {
        Some(n) => decimal(n as nat),
        None => seq!['.'],
    }
}

/// The text of the three cells of row `r` that start at column `c`, with a
/// space between one cell and the next.
pub open spec fn triple_text(g: Grid, r: int, c: int) -> Seq<char> {
    cell_text(cell(g, r, c)) + seq![' '] + cell_text(cell(g, r, c + 1)) + seq![' '] + cell_text(
        cell(g, r, c + 2),
    )
}

/// The line that shows row `r`: its three triples of cells with ` | `
/// between one triple and the next, then a line feed.
pub open spec fn row_text(g: Grid, r: int) -> Seq<char> {
    triple_text(g, r, 0) + " | "@ + triple_text(g, r, 3) + " | "@ + triple_text(g, r, 6) + seq![
        '\n',
    ]
}

/// The lines of the three rows that start at row `r`.
pub open spec fn band_text(g: Grid, r: int) -> Seq<char> {
    row_text(g, r) + row_text(g, r + 1) + row_text(g, r + 2)
}

/// The line that separates two bands of rows, with its line feed.
pub open spec fn rule_text() -> Seq<char> {
    "------+-------+------"@.push('\n')
}

/// The whole board as text.
pub open spec fn rendering(g: Grid) -> Seq<char> {
    band_text(g, 0) + rule_text() + band_text(g, 3) + rule_text() + band_text(g, 6)
}

/// The text of the first `n` cells of row `r`, with what stands between
/// them.
spec fn row_prefix(g: Grid, r: int, n: nat) -> Seq<char>
    decreases n,
{
    if n == 0 {
        Seq::empty()
    } else {
        let j = (n - 1) as int;
        let head = row_prefix(g, r, (n - 1) as nat);
        if j == 0 {
            cell_text(cell(g, r, j))
        } else if j % 3 == 0 {
            head + " | "@ + cell_text(cell(g, r, j))
        } else {
            head + seq![' '] + cell_text(cell(g, r, j))
        }
    }
}

/// The text of the first `n` rows, rules included.
spec fn rows_prefix(g: Grid, n: nat) -> Seq<char>
    decreases n,
{
    if n == 0 {
        Seq::empty()
    } else {
        let i = (n - 1) as int;
        let head = rows_prefix(g, (n - 1) as nat);
        if i % 3 == 0 && i != 0 {
            head + rule_text() + row_text(g, i)
        } else {
            head + row_text(g, i)
        }
    }
}

/// Three pieces appended one by one are their concatenation appended once.
proof fn lemma_append_three(a: Seq<char>, x: Seq<char>, y: Seq<char>, z: Seq<char>)
    ensures
        a + x + y + z == a + (x + y + z),
{
    assert(a + x + y + z =~= a + (x + y + z));
}

/// Five pieces appended one by one are their concatenation appended once.
proof fn lemma_append_five(
    a: Seq<char>,
    v: Seq<char>,
    w: Seq<char>,
    x: Seq<char>,
    y: Seq<char>,
    z: Seq<char>,
)
    ensures
        a + v + w + x + y + z == a + (v + w + x + y + z),
{
    assert(a + v + w + x + y + z =~= a + (v + w + x + y + z));
}

/// Appending one character is appending the text that it makes.
proof fn lemma_push_is_append(a: Seq<char>, ch: char)
    ensures
        a.push(ch) == a + seq![ch],
{
    assert(a.push(ch) =~= a + seq![ch]);
}

/// All nine cells of a row, followed by a line feed, make the row's line.
proof fn lemma_row_prefix_full(g: Grid, r: int)
    ensures
        row_prefix(g, r, 9).push('\n') == row_text(g, r),
{
    reveal_with_fuel(row_prefix, 2);
    let gap = seq![' '];
    let bar = " | "@;
    let left = triple_text(g, r, 0);
    let mid = triple_text(g, r, 3);
    assert(row_prefix(g, r, 1) == cell_text(cell(g, r, 0)));
    assert(row_prefix(g, r, 3) == left);
    assert(row_prefix(g, r, 4) == left + bar + cell_text(cell(g, r, 3)));
    assert(row_prefix(g, r, 6) == left + bar + mid) by {
        lemma_append_five(
            left + bar,
            cell_text(cell(g, r, 3)),
            gap,
            cell_text(cell(g, r, 4)),
            gap,
            cell_text(cell(g, r, 5)),
        );
    }
    assert(row_prefix(g, r, 7) == left + bar + mid + bar + cell_text(cell(g, r, 6)));
    assert(row_prefix(g, r, 9) == left + bar + mid + bar + triple_text(g, r, 6)) by {
        lemma_append_five(
            left + bar + mid + bar,
            cell_text(cell(g, r, 6)),
            gap,
            cell_text(cell(g, r, 7)),
            gap,
            cell_text(cell(g, r, 8)),
        );
    }
    lemma_push_is_append(row_prefix(g, r, 9), '\n');
}

/// All nine rows make the whole board.
proof fn lemma_rows_prefix_full(g: Grid)
    ensures
        rows_prefix(g, 9) == rendering(g),
{
    reveal_with_fuel(rows_prefix, 2);
    let rule = rule_text();
    let top = band_text(g, 0);
    let mid = band_text(g, 3);
    assert(rows_prefix(g, 1) == row_text(g, 0)) by {
        assert(Seq::<char>::empty() + row_text(g, 0) =~= row_text(g, 0));
    }
    assert(rows_prefix(g, 3) == top);
    assert(rows_prefix(g, 4) == top + rule + row_text(g, 3));
    assert(rows_prefix(g, 6) == top + rule + mid) by {
        lemma_append_three(top + rule, row_text(g, 3), row_text(g, 4), row_text(g, 5));
    }
    assert(rows_prefix(g, 7) == top + rule + mid + rule + row_text(g, 6));
    assert(rows_prefix(g, 9) == rendering(g)) by {
        lemma_append_three(
            top + rule + mid + rule,
            row_text(g, 6),
            row_text(g, 7),
            row_text(g, 8),
        );
    }
}

/// On a board with digits from 1 to 9 every line is as wide as the rule:
/// 21 characters and a line feed, 242 characters in all.
pub proof fn law_rendering_width(g: Grid)
    requires
        well_formed(g),
    ensures
        rule_text().len() == 22,
        forall|r: int| 0 <= r < 9 ==> (#[trigger] row_text(g, r)).len() == 22,
        rendering(g).len() == 242,
{
    reveal_strlit(" | ");
    reveal_strlit("------+-------+------");
    assert forall|r: int, c: int| in_board(r, c) implies cell_text(#[trigger] cell(g, r, c)).len()
        == 1 by {}
    assert forall|r: int| 0 <= r < 9 implies (#[trigger] row_text(g, r)).len() == 22 by {
        assert(in_board(r, 0) && in_board(r, 1) && in_board(r, 2));
        assert(in_board(r, 3) && in_board(r, 4) && in_board(r, 5));
        assert(in_board(r, 6) && in_board(r, 7) && in_board(r, 8));
        assert(triple_text(g, r, 0).len() == 5);
        assert(triple_text(g, r, 3).len() == 5);
        assert(triple_text(g, r, 6).len() == 5);
    }
    assert(band_text(g, 0).len() == 66);
    assert(band_text(g, 3).len() == 66);
    assert(band_text(g, 6).len() == 66);
}

/// Shows the board as text, one line per row. Each cell is its digit, or `.`
/// when it is empty. The cells of a row are separated by a space, with `| `
/// more before the fourth and the seventh cell; the line
/// `------+-------+------` stands before the fourth and the seventh row.
/// Every line ends with a line feed, and none with a space.
pub fn render_grid(grid: &Grid) -> (out: String)
    ensures
        out@ == rendering(*grid),
{
    let mut out = String::new();
    for i in 0..9usize
        invariant
            out@ == rows_prefix(*grid, i as nat),
    {
        if i % 3 == 0 && i != 0 {
            out.append("------+-------+------");
            out.push('\n');
        }
        let ghost head = out@;
        for j in 0..9usize
            invariant
                i < 9,
                out@ == head + row_prefix(*grid, i as int, j as nat),
        {
            if j != 0 {
                if j % 3 == 0 {
                    out.append(" | ");
                } else {
                    out.push(' ');
                }
            }
            match grid[i][j] {
                Some(n) => {
                    push_decimal(&mut out, n as usize);
                },
                None => {
                    out.push('.');
                },
            }
            assert(out@ =~= head + row_prefix(*grid, i as int, (j + 1) as nat));
        }
        out.push('\n');
        proof {
            lemma_row_prefix_full(*grid, i as int);
            assert(out@ =~= rows_prefix(*grid, (i + 1) as nat));
        }
    }
    proof {
        lemma_rows_prefix_full(*grid);
    }
    out
}

} // verus!
