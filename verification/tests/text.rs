use sudoku_solver::text::push_decimal;
use sudoku_solver::{check_line, parse_grid, render_grid, Grid, LineFault};

fn lines_of(lines: &[&str]) -> Vec<String> {
    lines.iter().map(|s| s.to_string()).collect()
}

const CLASSIC: [&str; 9] = [
    "530070000",
    "600195000",
    "098000060",
    "800060003",
    "400803001",
    "700020006",
    "060000280",
    "000419005",
    "000080079",
];

#[test]
fn parse_reads_every_cell() {
    let grid = parse_grid(&lines_of(&CLASSIC)).unwrap();
    assert_eq!(
        grid[0],
        [Some(5), Some(3), None, None, Some(7), None, None, None, None]
    );
    assert_eq!(
        grid[8],
        [None, None, None, None, Some(8), None, None, Some(7), Some(9)]
    );
    assert_eq!(grid[4][3], Some(8));
    assert_eq!(grid[2][1], Some(9));
    assert_eq!(grid[2][0], None);
}

#[test]
fn parse_reads_all_digits() {
    let mut lines = vec!["........."; 9];
    lines[3] = "123456789";
    lines[5] = "0.0.0.0.0";
    let grid = parse_grid(&lines_of(&lines)).unwrap();
    assert_eq!(
        grid[3],
        [Some(1), Some(2), Some(3), Some(4), Some(5), Some(6), Some(7), Some(8), Some(9)]
    );
    assert_eq!(grid[5], [None; 9]);
    assert_eq!(grid[0], [None; 9]);
}

#[test]
fn zero_and_dot_are_the_same_cell() {
    let dots = parse_grid(&lines_of(&[
        "53..7....",
        "6..195...",
        ".98....6.",
        "8...6...3",
        "4..8.3..1",
        "7...2...6",
        ".6....28.",
        "...419..5",
        "....8..79",
    ]))
    .unwrap();
    let zeros = parse_grid(&lines_of(&CLASSIC)).unwrap();
    assert_eq!(dots, zeros);
}

#[test]
fn too_few_lines() {
    let result = parse_grid(&lines_of(&CLASSIC[..8]));
    assert_eq!(result, Err("Input must have exactly 9 lines.".to_string()));
}

#[test]
fn too_many_lines() {
    let mut lines = CLASSIC.to_vec();
    lines.push("000000000");
    let result = parse_grid(&lines_of(&lines));
    assert_eq!(result, Err("Input must have exactly 9 lines.".to_string()));
}

#[test]
fn no_lines() {
    let result = parse_grid(&[]);
    assert_eq!(result, Err("Input must have exactly 9 lines.".to_string()));
}

#[test]
fn line_count_comes_before_line_faults() {
    let result = parse_grid(&lines_of(&["53007", "6001x5000"]));
    assert_eq!(result, Err("Input must have exactly 9 lines.".to_string()));
}

#[test]
fn short_first_line() {
    let mut lines = CLASSIC.to_vec();
    lines[0] = "53007000";
    let result = parse_grid(&lines_of(&lines));
    assert_eq!(
        result,
        Err("Line 1 must be exactly 9 characters.".to_string())
    );
}

#[test]
fn long_last_line() {
    let mut lines = CLASSIC.to_vec();
    lines[8] = "0000800790";
    let result = parse_grid(&lines_of(&lines));
    assert_eq!(
        result,
        Err("Line 9 must be exactly 9 characters.".to_string())
    );
}

#[test]
fn empty_line() {
    let mut lines = CLASSIC.to_vec();
    lines[4] = "";
    let result = parse_grid(&lines_of(&lines));
    assert_eq!(
        result,
        Err("Line 5 must be exactly 9 characters.".to_string())
    );
}

#[test]
fn invalid_letter() {
    let mut lines = CLASSIC.to_vec();
    lines[0] = "53007A000";
    let result = parse_grid(&lines_of(&lines));
    assert_eq!(
        result,
        Err("Invalid character 'A' at line 1, col 6.".to_string())
    );
}

#[test]
fn invalid_character_in_last_cell() {
    let mut lines = CLASSIC.to_vec();
    lines[8] = "00008007 ";
    let result = parse_grid(&lines_of(&lines));
    assert_eq!(
        result,
        Err("Invalid character ' ' at line 9, col 9.".to_string())
    );
}

#[test]
fn first_invalid_character_of_the_line_is_reported() {
    let mut lines = CLASSIC.to_vec();
    lines[2] = "0-8x000y0";
    let result = parse_grid(&lines_of(&lines));
    assert_eq!(
        result,
        Err("Invalid character '-' at line 3, col 2.".to_string())
    );
}

#[test]
fn first_faulty_line_is_reported() {
    let mut lines = CLASSIC.to_vec();
    lines[3] = "8000x0003";
    lines[6] = "06";
    let result = parse_grid(&lines_of(&lines));
    assert_eq!(
        result,
        Err("Invalid character 'x' at line 4, col 5.".to_string())
    );
    lines[1] = "6001950000";
    let result = parse_grid(&lines_of(&lines));
    assert_eq!(
        result,
        Err("Line 2 must be exactly 9 characters.".to_string())
    );
}

#[test]
fn length_comes_before_characters_within_a_line() {
    let mut lines = CLASSIC.to_vec();
    lines[5] = "7x0";
    let result = parse_grid(&lines_of(&lines));
    assert_eq!(
        result,
        Err("Line 6 must be exactly 9 characters.".to_string())
    );
}

#[test]
fn characters_are_counted_not_bytes() {
    let mut lines = CLASSIC.to_vec();
    lines[0] = "5300\u{e9}0000";
    let result = parse_grid(&lines_of(&lines));
    assert_eq!(
        result,
        Err("Invalid character '\u{e9}' at line 1, col 5.".to_string())
    );
    lines[0] = "53\u{e9}\u{e9}0000";
    let result = parse_grid(&lines_of(&lines));
    assert_eq!(
        result,
        Err("Line 1 must be exactly 9 characters.".to_string())
    );
}

#[test]
fn other_digit_characters_are_invalid() {
    let mut lines = CLASSIC.to_vec();
    lines[0] = "53007000\u{663}";
    let result = parse_grid(&lines_of(&lines));
    assert_eq!(
        result,
        Err("Invalid character '\u{663}' at line 1, col 9.".to_string())
    );
    lines[0] = "5300/0:00";
    let result = parse_grid(&lines_of(&lines));
    assert_eq!(
        result,
        Err("Invalid character '/' at line 1, col 5.".to_string())
    );
    lines[0] = "53000:000";
    let result = parse_grid(&lines_of(&lines));
    assert_eq!(
        result,
        Err("Invalid character ':' at line 1, col 6.".to_string())
    );
}

#[test]
fn render_classic_puzzle() {
    let grid = parse_grid(&lines_of(&CLASSIC)).unwrap();
    let expected = "\
5 3 . | . 7 . | . . .\n\
6 . . | 1 9 5 | . . .\n\
. 9 8 | . . . | . 6 .\n\
------+-------+------\n\
8 . . | . 6 . | . . 3\n\
4 . . | 8 . 3 | . . 1\n\
7 . . | . 2 . | . . 6\n\
------+-------+------\n\
. 6 . | . . . | 2 8 .\n\
. . . | 4 1 9 | . . 5\n\
. . . | . 8 . | . 7 9\n";
    assert_eq!(render_grid(&grid), expected);
}

#[test]
fn render_empty_board() {
    let grid: Grid = [[None; 9]; 9];
    let row = ". . . | . . . | . . .\n";
    let rule = "------+-------+------\n";
    let expected = format!("{row}{row}{row}{rule}{row}{row}{row}{rule}{row}{row}{row}");
    assert_eq!(render_grid(&grid), expected);
}

#[test]
fn rendered_lines_are_as_wide_as_the_rule() {
    let grid = parse_grid(&lines_of(&CLASSIC)).unwrap();
    let text = render_grid(&grid);
    assert_eq!(text.len(), 242);
    assert!(text.ends_with("9\n"));
    let lines: Vec<&str> = text.lines().collect();
    assert_eq!(lines.len(), 11);
    for (i, line) in lines.iter().enumerate() {
        assert_eq!(line.len(), 21);
        assert!(!line.ends_with(' '));
        assert!(!line.starts_with(' '));
        assert_eq!(*line == "------+-------+------", i == 3 || i == 7);
    }
}

#[test]
fn render_writes_values_in_decimal() {
    let mut grid: Grid = [[None; 9]; 9];
    grid[0][0] = Some(0);
    grid[0][4] = Some(10);
    grid[0][8] = Some(255);
    let text = render_grid(&grid);
    assert_eq!(text.lines().next(), Some("0 . . | . 10 . | . . 255"));
}

#[test]
fn rendered_cells_are_the_cells_read() {
    let mut lines = CLASSIC.to_vec();
    lines[1] = "6..195...";
    let grid = parse_grid(&lines_of(&lines)).unwrap();
    let shown: String = render_grid(&grid)
        .chars()
        .filter(|ch| *ch == '.' || ch.is_ascii_digit())
        .collect();
    let read: String = lines.concat().replace('0', ".");
    assert_eq!(shown.chars().count(), 81);
    assert_eq!(shown, read);
}

#[test]
fn rendered_board_reads_back() {
    let grid = parse_grid(&lines_of(&CLASSIC)).unwrap();
    let shown: String = render_grid(&grid)
        .chars()
        .filter(|ch| *ch == '.' || ch.is_ascii_digit())
        .collect();
    let lines: Vec<String> = (0..9).map(|r| shown[9 * r..9 * r + 9].to_string()).collect();
    assert_eq!(parse_grid(&lines), Ok(grid));
}

#[test]
fn decimal_numbers() {
    let mut text = String::from("n=");
    push_decimal(&mut text, 0);
    assert_eq!(text, "n=0");
    push_decimal(&mut text, 7);
    assert_eq!(text, "n=07");
    push_decimal(&mut text, 10);
    assert_eq!(text, "n=0710");
    push_decimal(&mut text, 4096);
    assert_eq!(text, "n=07104096");
    let mut text = String::new();
    push_decimal(&mut text, usize::MAX);
    assert_eq!(text, usize::MAX.to_string());
}

#[test]
fn rows_of_cells_have_no_fault() {
    assert_eq!(check_line("530070000"), None);
    assert_eq!(check_line("........."), None);
    assert_eq!(check_line("0123456.9"), None);
}

#[test]
fn wrong_lengths() {
    assert_eq!(check_line(""), Some(LineFault::WrongLength));
    assert_eq!(check_line("53007000"), Some(LineFault::WrongLength));
    assert_eq!(check_line("5300700000"), Some(LineFault::WrongLength));
    assert_eq!(check_line("x"), Some(LineFault::WrongLength));
}

#[test]
fn first_invalid_character_with_its_column() {
    assert_eq!(
        check_line("A30070000"),
        Some(LineFault::InvalidChar { ch: 'A', col: 1 })
    );
    assert_eq!(
        check_line("5300,000;"),
        Some(LineFault::InvalidChar { ch: ',', col: 5 })
    );
    assert_eq!(
        check_line("53007000\n"),
        Some(LineFault::InvalidChar { ch: '\n', col: 9 })
    );
    assert_eq!(
        check_line("5300\u{e9}0000"),
        Some(LineFault::InvalidChar { ch: '\u{e9}', col: 5 })
    );
}
