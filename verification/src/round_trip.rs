//! Reading a board and showing it again gives back the cells that were read.

use vstd::prelude::*;
use crate::grid::{cell, in_board, Grid};
use crate::parse::{cell_of_char, is_cell_char, is_parse_of, line_ok, well_shaped};
use crate::render::{band_text, cell_text, rendering, row_text, rule_text, triple_text};
use crate::text::digit_char;

verus! {

/// The test that keeps the characters that stand for cells.
pub open spec fn keeps_cells() -> spec_fn(char) -> bool {
    |ch: char| is_cell_char(ch)
}

/// The characters of `text` that stand for cells, in order: what is left
/// when spaces, bars, rules and line feeds are ignored.
pub open spec fn cell_chars(text: Seq<char>) -> Seq<char> {
    text.filter(keeps_cells())
}

/// `ch` as a board shows it: an empty cell is always written `.`.
pub open spec fn normalized(ch: char) -> char {
    if ch == '0' {
        '.'
    } else {
        ch
    }
}

/// The characters of `line`, each as a board shows it.
pub open spec fn line_chars(line: Seq<char>) -> Seq<char> {
    Seq::new(line.len(), |j: int| normalized(line[j]))
}

/// The characters of nine lines in reading order, each as a board shows it.
pub open spec fn board_chars(lines: Seq<Seq<char>>) -> Seq<char> {
    line_chars(lines[0]) + line_chars(lines[1]) + line_chars(lines[2]) + line_chars(lines[3])
        + line_chars(lines[4]) + line_chars(lines[5]) + line_chars(lines[6]) + line_chars(lines[7])
        + line_chars(lines[8])
}

/// The cell characters of a concatenation are those of its parts.
proof fn lemma_cell_chars_add(a: Seq<char>, b: Seq<char>)
    ensures
        cell_chars(a + b) == cell_chars(a) + cell_chars(b),
{
    Seq::filter_distributes_over_add(a, b, keeps_cells());
}

/// A text without any cell character has no cell characters.
proof fn lemma_cell_chars_none(a: Seq<char>)
    requires
        forall|i: int| 0 <= i < a.len() ==> !is_cell_char(#[trigger] a[i]),
    ensures
        cell_chars(a) == Seq::<char>::empty(),
    decreases a.len(),
{
    if a.len() > 0 {
        assert(!is_cell_char(a[a.len() - 1]));
        assert forall|i: int| 0 <= i < a.drop_last().len() implies !is_cell_char(
            #[trigger] a.drop_last()[i],
        ) by {
            assert(a.drop_last()[i] == a[i]);
        }
        lemma_cell_chars_none(a.drop_last());
    }
    reveal_with_fuel(Seq::filter, 1);
}

/// Separators between three texts add no cell characters.
proof fn lemma_cell_chars_joined(
    a: Seq<char>,
    x: Seq<char>,
    b: Seq<char>,
    y: Seq<char>,
    c: Seq<char>,
)
    requires
        cell_chars(x) == Seq::<char>::empty(),
        cell_chars(y) == Seq::<char>::empty(),
    ensures
        cell_chars(a + x + b + y + c) == cell_chars(a) + cell_chars(b) + cell_chars(c),
{
    lemma_cell_chars_add(a + x + b + y, c);
    lemma_cell_chars_add(a + x + b, y);
    lemma_cell_chars_add(a + x, b);
    lemma_cell_chars_add(a, x);
    let e = Seq::<char>::empty();
    assert(cell_chars(a) + e + cell_chars(b) + e + cell_chars(c) =~= cell_chars(a) + cell_chars(b)
        + cell_chars(c));
}

/// Nine texts joined three by three are the nine texts joined one by one.
proof fn lemma_join_bands(l: Seq<Seq<char>>)
    requires
        l.len() == 9,
    ensures
        (l[0] + l[1] + l[2]) + (l[3] + l[4] + l[5]) + (l[6] + l[7] + l[8]) == l[0] + l[1] + l[2]
            + l[3] + l[4] + l[5] + l[6] + l[7] + l[8],
{
    assert((l[0] + l[1] + l[2]) + (l[3] + l[4] + l[5]) + (l[6] + l[7] + l[8]) =~= l[0] + l[1]
        + l[2] + l[3] + l[4] + l[5] + l[6] + l[7] + l[8]);
}

/// What stands between cells, triples and rows has no cell characters.
proof fn lemma_separators()
    ensures
        cell_chars(seq![' ']) == Seq::<char>::empty(),
        cell_chars(" | "@) == Seq::<char>::empty(),
        cell_chars(seq!['\n']) == Seq::<char>::empty(),
        cell_chars(rule_text()) == Seq::<char>::empty(),
{
    reveal_strlit(" | ");
    reveal_strlit("------+-------+------");
    lemma_cell_chars_none(seq![' ']);
    lemma_cell_chars_none(" | "@);
    lemma_cell_chars_none(seq!['\n']);
    lemma_cell_chars_none(rule_text());
}

/// The text of a cell read from `ch` is one cell character: `ch` as a board
/// shows it.
proof fn lemma_cell_round_trip(ch: char)
    requires
        is_cell_char(ch),
    ensures
        cell_chars(cell_text(cell_of_char(ch))) == seq![normalized(ch)],
{
    reveal_with_fuel(Seq::filter, 2);
    let shown = cell_text(cell_of_char(ch));
    if let Some(n) = cell_of_char(ch) {
        assert(digit_char(n as int) == ch);
    }
    assert(shown =~= seq![normalized(ch)]);
    assert(shown.drop_last() =~= Seq::<char>::empty());
}

/// The text of three cells in a row holds their three characters.
proof fn lemma_triple_round_trip(lines: Seq<Seq<char>>, g: Grid, r: int, c: int)
    requires
        well_shaped(lines),
        is_parse_of(lines, g),
        0 <= r < 9,
        0 <= c <= 6,
    ensures
        cell_chars(triple_text(g, r, c)) == line_chars(lines[r]).subrange(c, c + 3),
{
    let line = lines[r];
    assert(line_ok(line));
    let a = cell_text(cell(g, r, c));
    let b = cell_text(cell(g, r, c + 1));
    let d = cell_text(cell(g, r, c + 2));
    assert(in_board(r, c) && in_board(r, c + 1) && in_board(r, c + 2));
    assert(cell(g, r, c) == cell_of_char(line[c]));
    assert(cell(g, r, c + 1) == cell_of_char(line[c + 1]));
    assert(cell(g, r, c + 2) == cell_of_char(line[c + 2]));
    lemma_cell_round_trip(line[c]);
    lemma_cell_round_trip(line[c + 1]);
    lemma_cell_round_trip(line[c + 2]);
    lemma_separators();
    lemma_cell_chars_joined(a, seq![' '], b, seq![' '], d);
    assert(cell_chars(a) + cell_chars(b) + cell_chars(d) =~= line_chars(line).subrange(c, c + 3));
}

/// The line of a row holds the nine characters of its cells.
proof fn lemma_row_round_trip(lines: Seq<Seq<char>>, g: Grid, r: int)
    requires
        well_shaped(lines),
        is_parse_of(lines, g),
        0 <= r < 9,
    ensures
        cell_chars(row_text(g, r)) == line_chars(lines[r]),
{
    let shown = line_chars(lines[r]);
    assert(line_ok(lines[r]));
    let bar = " | "@;
    let feed = seq!['\n'];
    let t0 = triple_text(g, r, 0);
    let t3 = triple_text(g, r, 3);
    let t6 = triple_text(g, r, 6);
    lemma_separators();
    lemma_triple_round_trip(lines, g, r, 0);
    lemma_triple_round_trip(lines, g, r, 3);
    lemma_triple_round_trip(lines, g, r, 6);
    lemma_cell_chars_joined(t0, bar, t3, bar, t6);
    lemma_cell_chars_add(t0 + bar + t3 + bar + t6, feed);
    assert(shown.subrange(0, 3) + shown.subrange(3, 6) + shown.subrange(6, 9) + Seq::<
        char,
    >::empty() =~= shown);
}

/// The lines of three rows hold the characters of their cells.
proof fn lemma_band_round_trip(lines: Seq<Seq<char>>, g: Grid, r: int)
    requires
        well_shaped(lines),
        is_parse_of(lines, g),
        0 <= r <= 6,
    ensures
        cell_chars(band_text(g, r)) == line_chars(lines[r]) + line_chars(lines[r + 1])
            + line_chars(lines[r + 2]),
{
    lemma_row_round_trip(lines, g, r);
    lemma_row_round_trip(lines, g, r + 1);
    lemma_row_round_trip(lines, g, r + 2);
    lemma_cell_chars_add(row_text(g, r) + row_text(g, r + 1), row_text(g, r + 2));
    lemma_cell_chars_add(row_text(g, r), row_text(g, r + 1));
}

/// Reading nine lines of cells and showing the board gives the characters
/// that were read, in the same order, once everything but cell characters is
/// ignored; only `0` comes back as `.`.
pub proof fn law_render_round_trip(lines: Seq<Seq<char>>, g: Grid)
    requires
        well_shaped(lines),
        is_parse_of(lines, g),
    ensures
        cell_chars(rendering(g)) == board_chars(lines),
{
    let rule = rule_text();
    let top = band_text(g, 0);
    let mid = band_text(g, 3);
    let low = band_text(g, 6);
    lemma_separators();
    lemma_band_round_trip(lines, g, 0);
    lemma_band_round_trip(lines, g, 3);
    lemma_band_round_trip(lines, g, 6);
    lemma_cell_chars_joined(top, rule, mid, rule, low);
    lemma_join_bands(Seq::new(9, |i: int| line_chars(lines[i])));
}

} // verus!
