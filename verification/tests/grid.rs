use rudoku::sudoku::{Sudoku, SudokuError};
use rudoku::value::SudokuValue;

const SOLVED: &str = "134256789257189346689347125312465897468791253795823461521634978876912534943578612";

#[test]
fn get_out_of_range_row() {
    let g = Sudoku::empty();
    assert_eq!(g.get(9, 0), Err(SudokuError::OutOfRange));
}

#[test]
fn get_out_of_range_col() {
    let g = Sudoku::empty();
    assert_eq!(g.get(0, 9), Err(SudokuError::OutOfRange));
}

#[test]
fn get_reads_back_what_set_wrote() {
    let mut g = Sudoku::empty();
    g.set(3, 7, SudokuValue::Eight);
    assert_eq!(g.get(3, 7), Ok(SudokuValue::Eight));
    assert_eq!(g.get(3, 6), Ok(SudokuValue::Empty));
}

#[test]
fn duplicate_in_row_fails_local_check() {
    let mut g = Sudoku::empty();
    g.set(0, 0, SudokuValue::Five);
    g.set(0, 1, SudokuValue::Five);
    assert!(!g.check(0, 1));
}

#[test]
fn distinct_values_pass_local_check() {
    let mut g = Sudoku::empty();
    g.set(0, 0, SudokuValue::Five);
    g.set(0, 1, SudokuValue::Six);
    assert!(g.check(0, 1));
}

#[test]
fn duplicate_in_column_fails_local_check() {
    let mut g = Sudoku::empty();
    g.set(2, 4, SudokuValue::Nine);
    g.set(7, 4, SudokuValue::Nine);
    assert!(!g.check(7, 4));
}

#[test]
fn duplicate_in_square_fails_local_check() {
    let mut g = Sudoku::empty();
    g.set(0, 0, SudokuValue::Three);
    g.set(2, 2, SudokuValue::Three);
    assert!(!g.check(2, 2));
}

#[test]
fn count_tallies_each_value() {
    let mut g = Sudoku::empty();
    assert_eq!(g.count(SudokuValue::Empty), 81);
    g.set(0, 0, SudokuValue::One);
    g.set(5, 5, SudokuValue::One);
    g.set(8, 8, SudokuValue::Two);
    assert_eq!(g.count(SudokuValue::One), 2);
    assert_eq!(g.count(SudokuValue::Two), 1);
    assert_eq!(g.count(SudokuValue::Empty), 78);
}

#[test]
fn get_row_returns_the_row() {
    let g = Sudoku::decode(SOLVED).unwrap();
    let row = g.get_row(1).unwrap();
    let expected = [
        SudokuValue::Two,
        SudokuValue::Five,
        SudokuValue::Seven,
        SudokuValue::One,
        SudokuValue::Eight,
        SudokuValue::Nine,
        SudokuValue::Three,
        SudokuValue::Four,
        SudokuValue::Six,
    ];
    assert_eq!(row, expected);
    assert_eq!(g.get_row(9), Err(SudokuError::OutOfRange));
}

#[test]
fn get_column_returns_the_column() {
    let g = Sudoku::decode(SOLVED).unwrap();
    let col = g.get_column(0).unwrap();
    let expected = [
        SudokuValue::One,
        SudokuValue::Two,
        SudokuValue::Six,
        SudokuValue::Three,
        SudokuValue::Four,
        SudokuValue::Seven,
        SudokuValue::Five,
        SudokuValue::Eight,
        SudokuValue::Nine,
    ];
    assert_eq!(col, expected);
    assert_eq!(g.get_column(9), Err(SudokuError::OutOfRange));
}

#[test]
fn get_square_returns_the_box() {
    let g = Sudoku::decode(SOLVED).unwrap();
    let sq = g.get_square(0, 0).unwrap();
    let expected = [
        SudokuValue::One,
        SudokuValue::Three,
        SudokuValue::Four,
        SudokuValue::Two,
        SudokuValue::Five,
        SudokuValue::Seven,
        SudokuValue::Six,
        SudokuValue::Eight,
        SudokuValue::Nine,
    ];
    assert_eq!(sq, expected);
    // any cell of the box names the same box
    assert_eq!(g.get_square(1, 2).unwrap(), expected);
    assert_eq!(g.get_square(9, 0), Err(SudokuError::OutOfRange));
}

#[test]
fn solved_grid_passes_all_checks() {
    let g = Sudoku::decode(SOLVED).unwrap();
    assert!(g.check_all());
    assert!(g.solved());
}

#[test]
fn incomplete_grid_is_not_solved() {
    let mut g = Sudoku::decode(SOLVED).unwrap();
    g.set(4, 4, SudokuValue::Empty);
    assert!(g.check_all());
    assert!(!g.solved());
}

#[test]
fn empty_grid_is_not_solved() {
    let g = Sudoku::empty();
    assert!(g.check_all());
    assert!(!g.solved());
}
