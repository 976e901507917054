//! Reading a board from nine lines of nine characters: a digit from 1 to 9
//! fills a cell, `0` and `.` leave it empty, and nothing else is accepted.

use vstd::prelude::*;
use vstd::string::*;
use crate::grid::{cell, in_board, well_formed, Grid};
use crate::text::{decimal, push_decimal};

verus! {

/// Why a line of text is not a row of nine cells. Columns count from 1.
#[derive(Debug, Clone, Copy, PartialEq, Eq)]
pub enum LineFault {
    /// The line does not have nine characters.
    WrongLength,
    /// The line has nine characters, and `ch` at column `col` is the first
    /// of them that stands for no cell.
    InvalidChar { ch: char, col: usize },
}

/// Why a text is not a board. Lines count from 1.
pub enum ParseError {
    /// The text does not have nine lines.
    LineCount,
    /// Line `line` is the first faulty line, with the fault `fault`.
    Line { line: nat, fault: LineFault },
}

/// `ch` stands for a cell: a digit, or `.` for an empty cell.
pub open spec fn is_cell_char(ch: char) -> bool {
    ch == '.' || ('0' as u32 <= ch as u32 <= '9' as u32)
}

/// The cell that `ch` stands for: `0` and `.` are the empty cell.
pub open spec fn cell_of_char(ch: char) -> Option<u8> {
    if '1' as u32 <= ch as u32 <= '9' as u32 {
        Some((ch as u32 - '0' as u32) as u8)
    } else {
        None
    }
}

/// `line` has nine characters and each stands for a cell.
pub open spec fn line_ok(line: Seq<char>) -> bool {
    &&& line.len() == 9
    &&& forall|j: int| 0 <= j < 9 ==> is_cell_char(#[trigger] line[j])
}

/// `lines` has nine lines and each is a row of nine cells.
pub open spec fn well_shaped(lines: Seq<Seq<char>>) -> bool {
    &&& lines.len() == 9
    &&& forall|i: int| 0 <= i < 9 ==> line_ok(#[trigger] lines[i])
}

/// `g` is the board that `lines` spells: each cell is what its character
/// stands for.
pub open spec fn is_parse_of(lines: Seq<Seq<char>>, g: Grid) -> bool {
    forall|r: int, c: int| in_board(r, c) ==> #[trigger] cell(g, r, c) == cell_of_char(lines[r][c])
}

/// `f` is the fault of `line`: a wrong length, or else the first character
/// that stands for no cell.
pub open spec fn is_line_fault(line: Seq<char>, f: LineFault) -> bool {
    match f {
        LineFault::WrongLength => line.len() != 9,
        LineFault::InvalidChar { ch, col } => {
            &&& line.len() == 9
            &&& 1 <= col <= 9
            &&& forall|j: int| 0 <= j < col - 1 ==> is_cell_char(#[trigger] line[j])
            &&& ch == line[col - 1]
            &&& !is_cell_char(ch)
        },
    }
}

/// `e` is the first fault of `lines`: a wrong number of lines, or else the
/// fault of the first line that is not a row of cells.
pub open spec fn is_parse_error(lines: Seq<Seq<char>>, e: ParseError) -> bool {
    match e {
        ParseError::LineCount => lines.len() != 9,
        ParseError::Line { line, fault } => {
            &&& lines.len() == 9
            &&& 1 <= line <= 9
            &&& forall|i: int| 0 <= i < line - 1 ==> line_ok(#[trigger] lines[i])
            &&& is_line_fault(lines[line - 1], fault)
        },
    }
}

impl ParseError {
    /// The message that reports this fault.
    pub open spec fn message(self) -> Seq<char> {
        match self {
            ParseError::LineCount => "Input must have exactly 9 lines."@,
            ParseError::Line { line, fault: LineFault::WrongLength } => "Line "@ + decimal(line)
                + " must be exactly 9 characters."@,
            ParseError::Line { line, fault: LineFault::InvalidChar { ch, col } } => {
                "Invalid character '"@ + seq![ch] + "' at line "@ + decimal(line) + ", col "@
                    + decimal(col as nat) + "."@
            },
        }
    }
}

/// The message for a text that does not have nine lines.
fn line_count_message() -> (msg: String)
    ensures
        msg@ == ParseError::LineCount.message(),
{
    String::from_str("Input must have exactly 9 lines.")
}

/// The message for the fault `fault` of line `line`.
fn line_fault_message(line: usize, fault: LineFault) -> (msg: String)
    ensures
        msg@ == (ParseError::Line { line: line as nat, fault }).message(),
{
    match fault {
        LineFault::WrongLength => {
            let mut msg = String::from_str("Line ");
            push_decimal(&mut msg, line);
            msg.append(" must be exactly 9 characters.");
            msg
        },
        LineFault::InvalidChar { ch, col } => {
            let mut msg = String::from_str("Invalid character '");
            msg.push(ch);
            msg.append("' at line ");
            push_decimal(&mut msg, line);
            msg.append(", col ");
            push_decimal(&mut msg, col);
            msg.append(".");
            msg
        },
    }
}

/// Checks that `line` is a row of nine cells: nine characters, each a digit
/// or `.`. Otherwise tells the fault: a wrong length, or else the first
/// character that stands for no cell, with its column.
pub fn check_line(line: &str) -> (fault: Option<LineFault>)
    ensures
        fault is None <==> line_ok(line@),
        fault matches Some(f) ==> is_line_fault(line@, f),
{
    if line.unicode_len() != 9 {
        return Some(LineFault::WrongLength);
    }
    for j in 0..9usize
        invariant
            line@.len() == 9,
            forall|k: int| 0 <= k < j ==> is_cell_char(#[trigger] line@[k]),
    {
        let ch = line.get_char(j);
        if !(ch == '.' || (ch >= '0' && ch <= '9')) {
            return Some(LineFault::InvalidChar { ch, col: j + 1 });
        }
    }
    None
}

/// Reads a board from `lines`.
///
/// Succeeds exactly on nine lines of nine cell characters each, with the
/// board they spell: a digit from 1 to 9 fills its cell, `0` and `.` leave it
/// empty. Otherwise the error is the message of the first fault: a wrong
/// number of lines, or else the fault of the first line that is not a row of
/// cells. Lengths are counted in characters.
pub fn parse_grid(lines: &[String]) -> (result: Result<Grid, String>)
    ensures
        result is Ok <==> well_shaped(lines.deep_view()),
        result matches Ok(g) ==> is_parse_of(lines.deep_view(), g) && well_formed(g),
        result matches Err(msg) ==> exists|e: ParseError|
            #[trigger] is_parse_error(lines.deep_view(), e) && msg@ == e.message(),
{
    let ghost text = lines.deep_view();
    if lines.len() != 9 {
        assert(is_parse_error(text, ParseError::LineCount));
        return Err(line_count_message());
    }
    let mut grid: Grid = [[None;9];9];
    for i in 0..9usize
        invariant
            text == lines.deep_view(),
            text.len() == 9,
            forall|k: int| 0 <= k < i ==> line_ok(#[trigger] text[k]),
            forall|r: int, c: int|
                0 <= r < i && 0 <= c < 9 ==> #[trigger] cell(grid, r, c) == cell_of_char(
                    text[r][c],
                ),
    {
        let line = lines[i].as_str();
        assert(line@ == text[i as int]);
        if let Some(fault) = check_line(line) {
            assert(is_parse_error(text, ParseError::Line { line: (i + 1) as nat, fault }));
            return Err(line_fault_message(i + 1, fault));
        }
        for j in 0..9usize
            invariant
                i < 9,
                line@ == text[i as int],
                line_ok(line@),
                forall|r: int, c: int|
                    0 <= r < i && 0 <= c < 9 ==> #[trigger] cell(grid, r, c) == cell_of_char(
                        text[r][c],
                    ),
                forall|c: int|
                    0 <= c < j ==> #[trigger] cell(grid, i as int, c) == cell_of_char(
                        text[i as int][c],
                    ),
        {
            let ch = line.get_char(j);
            let ghost filled = grid;
            grid[i][j] = if ch >= '1' && ch <= '9' {
                Some(ch as u8 - 48u8)
            } else {
                None
            };
            assert(forall|r: int, c: int|
                in_board(r, c) && (r != i || c != j) ==> #[trigger] cell(grid, r, c) == cell(
                    filled,
                    r,
                    c,
                ));
        }
    }
    Ok(grid)
}

/// A line has at most one fault.
pub proof fn law_line_fault_unique(line: Seq<char>, f1: LineFault, f2: LineFault)
    requires
        is_line_fault(line, f1),
        is_line_fault(line, f2),
    ensures
        f1 == f2,
{
}

/// A line has a fault exactly when it is not a row of cells.
pub proof fn law_line_fault_exists(line: Seq<char>)
    ensures
        !line_ok(line) <==> exists|f: LineFault| #[trigger] is_line_fault(line, f),
{
    if !line_ok(line) {
        if line.len() != 9 {
            assert(is_line_fault(line, LineFault::WrongLength));
        } else {
            let j = lemma_first_faulty_char(line, 0);
            lemma_invalid_char_fault(line, j, line[j]);
        }
    } else {
        assert forall|f: LineFault| !#[trigger] is_line_fault(line, f) by {
            match f {
                LineFault::WrongLength => {},
                LineFault::InvalidChar { ch, col } => {
                    if 1 <= col <= 9 {
                        assert(is_cell_char(line[col - 1]));
                    }
                },
            }
        }
    }
}

/// A text has at most one first fault.
pub proof fn law_parse_error_unique(lines: Seq<Seq<char>>, e1: ParseError, e2: ParseError)
    requires
        is_parse_error(lines, e1),
        is_parse_error(lines, e2),
    ensures
        e1 == e2,
{
    match (e1, e2) {
        (ParseError::Line { line: l1, fault: f1 }, ParseError::Line { line: l2, fault: f2 }) => {
            law_line_fault_exists(lines[l1 - 1]);
            law_line_fault_exists(lines[l2 - 1]);
            if l1 < l2 {
                assert(line_ok(lines[l1 - 1]));
            } else if l2 < l1 {
                assert(line_ok(lines[l2 - 1]));
            } else {
                law_line_fault_unique(lines[l1 - 1], f1, f2);
            }
        },
        _ => {},
    }
}

/// The first faulty line at or after line `from`, when all lines before are
/// rows of cells and the text as a whole is not a board.
proof fn lemma_first_faulty_line(lines: Seq<Seq<char>>, from: int) -> (i: int)
    requires
        lines.len() == 9,
        !well_shaped(lines),
        0 <= from <= 9,
        forall|k: int| 0 <= k < from ==> line_ok(#[trigger] lines[k]),
    ensures
        0 <= i < 9,
        !line_ok(lines[i]),
        forall|k: int| 0 <= k < i ==> line_ok(#[trigger] lines[k]),
    decreases 9 - from,
{
    if from < 9 && line_ok(lines[from]) {
        lemma_first_faulty_line(lines, from + 1)
    } else {
        from
    }
}

/// The first character at or after column `from` that stands for no cell,
/// in a line of nine characters that is not a row of cells.
proof fn lemma_first_faulty_char(line: Seq<char>, from: int) -> (j: int)
    requires
        line.len() == 9,
        !line_ok(line),
        0 <= from <= 9,
        forall|k: int| 0 <= k < from ==> is_cell_char(#[trigger] line[k]),
    ensures
        0 <= j < 9,
        !is_cell_char(line[j]),
        forall|k: int| 0 <= k < j ==> is_cell_char(#[trigger] line[k]),
    decreases 9 - from,
{
    if from < 9 && is_cell_char(line[from]) {
        lemma_first_faulty_char(line, from + 1)
    } else {
        from
    }
}

/// A character that stands for no cell, behind cell characters only, is the
/// fault of its line.
proof fn lemma_invalid_char_fault(line: Seq<char>, j: int, ch: char)
    requires
        line.len() == 9,
        0 <= j < 9,
        forall|k: int| 0 <= k < j ==> is_cell_char(#[trigger] line[k]),
        ch == line[j],
        !is_cell_char(ch),
    ensures
        exists|f: LineFault| #[trigger] is_line_fault(line, f),
{
    assert(is_line_fault(line, LineFault::InvalidChar { ch, col: (j + 1) as usize }));
}

/// A text has a first fault exactly when it is not a board.
pub proof fn law_parse_error_exists(lines: Seq<Seq<char>>)
    ensures
        !well_shaped(lines) <==> exists|e: ParseError| #[trigger] is_parse_error(lines, e),
{
    if !well_shaped(lines) {
        if lines.len() != 9 {
            assert(is_parse_error(lines, ParseError::LineCount));
        } else {
            let i = lemma_first_faulty_line(lines, 0);
            law_line_fault_exists(lines[i]);
            let fault = choose|f: LineFault| #[trigger] is_line_fault(lines[i], f);
            assert(is_parse_error(lines, ParseError::Line { line: (i + 1) as nat, fault }));
        }
    } else {
        assert forall|e: ParseError| !#[trigger] is_parse_error(lines, e) by {
            match e {
                ParseError::LineCount => {},
                ParseError::Line { line, fault } => {
                    if 1 <= line <= 9 {
                        assert(line_ok(lines[line - 1]));
                        law_line_fault_exists(lines[line - 1]);
                    }
                },
            }
        }
    }
}

} // verus!
