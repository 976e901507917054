use sudoku_solver::{can_place, find_empty, is_valid_grid, parse_grid, Grid};

fn board(lines: &[&str]) -> Grid {
    let lines: Vec<String> = lines.iter().map(|s| s.to_string()).collect();
    parse_grid(&lines).unwrap()
}

const CLASSIC: [&str; 9] = [
    "530070000",
    "600195000",
    "098000060",
    "800060003",
    "400803001",
    "700020006",
    "060000280",
    "000419005",
    "000080079",
];

#[test]
fn candidates_of_a_cell() {
    let grid = board(&CLASSIC);
    let candidates: Vec<u8> = (1..=9).filter(|d| can_place(&grid, 0, 2, *d)).collect();
    assert_eq!(candidates, vec![1, 2, 4]);
    let candidates: Vec<u8> = (1..=9).filter(|d| can_place(&grid, 4, 4, *d)).collect();
    assert_eq!(candidates, vec![5]);
}

#[test]
fn digit_of_the_cell_itself_blocks() {
    let grid = board(&CLASSIC);
    assert_eq!(grid[0][0], Some(5));
    assert!(!can_place(&grid, 0, 0, 5));
}

#[test]
fn empty_board_takes_any_digit_anywhere() {
    let grid: Grid = [[None; 9]; 9];
    for r in 0..9 {
        for c in 0..9 {
            for d in 1..=9 {
                assert!(can_place(&grid, r, c, d));
            }
        }
    }
}

#[test]
fn one_digit_blocks_its_row_column_and_box() {
    let mut grid: Grid = [[None; 9]; 9];
    grid[4][7] = Some(6);
    for r in 0..9 {
        for c in 0..9 {
            let seen = r == 4 || c == 7 || (r / 3 == 1 && c / 3 == 2);
            assert_eq!(can_place(&grid, r, c, 6), !seen);
            assert!(can_place(&grid, r, c, 5));
        }
    }
}

#[test]
fn box_corners() {
    let mut grid: Grid = [[None; 9]; 9];
    grid[8][8] = Some(2);
    assert!(!can_place(&grid, 6, 6, 2));
    assert!(can_place(&grid, 5, 5, 2));
    assert!(can_place(&grid, 5, 6, 2));
    assert!(can_place(&grid, 6, 5, 2));
}

#[test]
fn first_empty_cell_in_reading_order() {
    let mut grid = board(&[
        "534678912",
        "672195348",
        "198342567",
        "859761423",
        "426853791",
        "713924856",
        "961537284",
        "287419635",
        "345286179",
    ]);
    assert_eq!(find_empty(&grid), None);
    grid[8][8] = None;
    assert_eq!(find_empty(&grid), Some((8, 8)));
    grid[5][0] = None;
    assert_eq!(find_empty(&grid), Some((5, 0)));
    grid[4][8] = None;
    assert_eq!(find_empty(&grid), Some((4, 8)));
    grid[0][0] = None;
    assert_eq!(find_empty(&grid), Some((0, 0)));
}

#[test]
fn finished_board_is_valid_and_full() {
    let grid = board(&[
        "123456789",
        "456789123",
        "789123456",
        "214365897",
        "365897214",
        "897214365",
        "531642978",
        "642978531",
        "978531642",
    ]);
    assert!(is_valid_grid(&grid));
    assert_eq!(find_empty(&grid), None);
}

#[test]
fn duplicate_in_each_kind_of_unit() {
    let mut grid: Grid = [[None; 9]; 9];
    grid[2][0] = Some(7);
    grid[2][8] = Some(7);
    assert!(!is_valid_grid(&grid));
    grid[2][8] = None;
    grid[8][0] = Some(7);
    assert!(!is_valid_grid(&grid));
    grid[8][0] = None;
    grid[0][1] = Some(7);
    assert!(!is_valid_grid(&grid));
    grid[0][1] = None;
    grid[3][1] = Some(7);
    assert!(is_valid_grid(&grid));
}

#[test]
fn duplicate_in_the_last_box() {
    let mut grid: Grid = [[None; 9]; 9];
    grid[6][6] = Some(9);
    grid[8][8] = Some(9);
    assert!(!is_valid_grid(&grid));
    grid[8][8] = Some(8);
    assert!(is_valid_grid(&grid));
}
