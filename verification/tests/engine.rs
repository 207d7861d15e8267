use rudoku::sudoku::{Sudoku, SudokuError};
use rudoku::value::SudokuValue;

const SOLVED: &str = "134256789257189346689347125312465897468791253795823461521634978876912534943578612";

/// The same grid with the rectangle (0,0)/(0,3)/(1,0)/(1,3) blanked; the
/// digits one and two can be placed in it two ways, so it has two
/// solutions.
const TWO_SOLUTIONS: &str = "034056789057089346689347125312465897468791253795823461521634978876912534943578612";

/// A published 17-hint puzzle with a unique solution.
const SEVENTEEN: &str = "000608000000001050002004003000090100003000800704050000000000020000000004010000000";

fn assert_regions_hold_each_digit_once(g: &Sudoku) {
    let digits = SudokuValue::get_number_vec();
    for r in 0..9 {
        let row = g.get_row(r).unwrap();
        for v in &digits {
            assert_eq!(row.iter().filter(|x| *x == v).count(), 1);
        }
        assert_eq!(row.iter().filter(|x| **x == SudokuValue::Empty).count(), 0);
    }
    for c in 0..9 {
        let col = g.get_column(c).unwrap();
        for v in &digits {
            assert_eq!(col.iter().filter(|x| *x == v).count(), 1);
        }
    }
    for br in [0, 3, 6] {
        for bc in [0, 3, 6] {
            let sq = g.get_square(br, bc).unwrap();
            for v in &digits {
                assert_eq!(sq.iter().filter(|x| *x == v).count(), 1);
            }
        }
    }
}

#[test]
fn generated_grid_is_complete_with_full_regions() {
    let (puzzle, solution) = Sudoku::new(40).unwrap();
    assert!(solution.solved());
    assert_regions_hold_each_digit_once(&solution);
    assert_eq!(puzzle.count(SudokuValue::Empty), 81 - 40);
    for r in 0..9 {
        for c in 0..9 {
            let v = puzzle.get(r, c).unwrap();
            if v != SudokuValue::Empty {
                assert_eq!(v, solution.get(r, c).unwrap());
            }
        }
    }
    let mut p = puzzle;
    assert_eq!(p.solve(0, 0), 1);
}

#[test]
fn generation_is_randomized() {
    // two independently generated boards coincide only if the candidate
    // shuffle does nothing; the chance of an honest collision is negligible
    let (_, s1) = Sudoku::new(40).unwrap();
    let (_, s2) = Sudoku::new(40).unwrap();
    assert_ne!(s1, s2);
}

#[test]
fn new_rejects_out_of_range_hint_counts() {
    assert_eq!(
        Sudoku::new(16).map(|_| ()),
        Err(SudokuError::InvalidHintCount)
    );
    assert_eq!(
        Sudoku::new(82).map(|_| ()),
        Err(SudokuError::InvalidHintCount)
    );
}

#[test]
fn decimate_to_forty_keeps_a_unique_solution() {
    let mut g = Sudoku::decode(SOLVED).unwrap();
    let original = g;
    assert_eq!(g.decimate(40), Ok(()));
    assert_eq!(g.count(SudokuValue::Empty), 81 - 40);
    for r in 0..9 {
        for c in 0..9 {
            let v = g.get(r, c).unwrap();
            if v != SudokuValue::Empty {
                assert_eq!(v, original.get(r, c).unwrap());
            }
        }
    }
    assert_eq!(g.solve(0, 0), 1);
}

#[test]
fn decimate_rejects_sixteen_hints() {
    let mut g = Sudoku::decode(SOLVED).unwrap();
    let original = g;
    assert_eq!(g.decimate(16), Err(SudokuError::InvalidHintCount));
    assert_eq!(g, original);
}

#[test]
fn decimate_rejects_eighty_two_hints() {
    let mut g = Sudoku::decode(SOLVED).unwrap();
    let original = g;
    assert_eq!(g.decimate(82), Err(SudokuError::InvalidHintCount));
    assert_eq!(g, original);
}

#[test]
fn decimate_to_eighty_one_hints_returns_the_grid_unchanged() {
    let mut g = Sudoku::decode(SOLVED).unwrap();
    let original = g;
    assert_eq!(g.decimate(81), Ok(()));
    assert_eq!(g, original);
}

#[test]
fn solution_counter_detects_a_second_solution() {
    let mut g = Sudoku::decode(TWO_SOLUTIONS).unwrap();
    let before = g;
    let n = g.solve(0, 0);
    assert_ne!(n, 1);
    assert_eq!(n, 2);
    assert_eq!(g, before);
}

#[test]
fn solved_grid_counts_exactly_one_solution() {
    let mut g = Sudoku::decode(SOLVED).unwrap();
    assert_eq!(g.solve(0, 0), 1);
}

#[test]
fn seventeen_hint_puzzle_counts_exactly_one_solution() {
    let mut g = Sudoku::decode(SEVENTEEN).unwrap();
    assert_eq!(g.count(SudokuValue::Empty), 81 - 17);
    let before = g;
    assert_eq!(g.solve(0, 0), 1);
    assert_eq!(g, before);
}
