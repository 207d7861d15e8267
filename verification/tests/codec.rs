use rudoku::sudoku::{Sudoku, SudokuError};
use rudoku::value::SudokuValue;

const SOLVED: &str = "134256789257189346689347125312465897468791253795823461521634978876912534943578612";
const PARTIAL: &str = "000608000000001050002004003000090100003000800704050000000000020000000004010000000";

#[test]
fn decode_then_encode_returns_the_original_string() {
    let g = Sudoku::decode(SOLVED).unwrap();
    assert_eq!(g.encode(), SOLVED);
    let p = Sudoku::decode(PARTIAL).unwrap();
    assert_eq!(p.encode(), PARTIAL);
}

#[test]
fn encode_then_decode_returns_the_original_grid() {
    let mut g = Sudoku::empty();
    g.set(0, 0, SudokuValue::Nine);
    g.set(4, 4, SudokuValue::One);
    g.set(8, 8, SudokuValue::Five);
    let text = g.encode();
    assert_eq!(text.len(), 81);
    let back = Sudoku::decode(&text).unwrap();
    assert_eq!(back, g);
}

#[test]
fn encode_of_empty_grid_is_all_zeros() {
    let g = Sudoku::empty();
    let mut zeros = String::new();
    let mut i = 0;
    while i < 81 {
        zeros.push('0');
        i += 1;
    }
    assert_eq!(g.encode(), zeros);
}

#[test]
fn decode_rejects_wrong_length() {
    assert_eq!(Sudoku::decode("12345"), Err(SudokuError::MalformedEncoding));
    let mut long = String::new();
    let mut i = 0;
    while i < 82 {
        long.push('1');
        i += 1;
    }
    assert_eq!(Sudoku::decode(&long), Err(SudokuError::MalformedEncoding));
    assert_eq!(Sudoku::decode(""), Err(SudokuError::MalformedEncoding));
}

#[test]
fn decode_rejects_non_digit_characters() {
    let mut bad = String::from(SOLVED);
    bad.replace_range(40..41, "x");
    assert_eq!(Sudoku::decode(&bad), Err(SudokuError::MalformedEncoding));
}

#[test]
fn decode_places_values_row_major() {
    let p = Sudoku::decode(PARTIAL).unwrap();
    assert_eq!(p.get(0, 3), Ok(SudokuValue::Six));
    assert_eq!(p.get(0, 4), Ok(SudokuValue::Empty));
    assert_eq!(p.get(1, 5), Ok(SudokuValue::One));
    assert_eq!(p.get(8, 1), Ok(SudokuValue::One));
}
