use rudoku::bars::{bar, col_number_offset, row_number_offset, time_bar};
use rudoku::difficulty::Difficulty;
use rudoku::ui::Terminal;

#[test]
fn bar_places_corners_and_dividers() {
    assert_eq!(bar("+", "+", "|", "-"), "+-------|-------|-------+");
    assert_eq!(bar("<", ">", "#", " "), "<       #       #       >");
}

#[test]
fn bar_takes_only_the_first_character_of_each_piece() {
    assert_eq!(bar("+corner", "+x", "|y", "-z"), "+-------|-------|-------+");
}

#[test]
fn time_bar_places_its_ends() {
    assert_eq!(time_bar("[", "]", " "), "[     ]");
    assert_eq!(time_bar("-", "-", "-"), "-------");
}

#[test]
fn column_offsets_step_across_the_frame() {
    assert_eq!(col_number_offset(0), -10);
    assert_eq!(col_number_offset(4), 0);
    assert_eq!(col_number_offset(8), 10);
}

#[test]
fn row_offsets_step_down_the_frame() {
    assert_eq!(row_number_offset(0), -5);
    assert_eq!(row_number_offset(4), 0);
    assert_eq!(row_number_offset(8), 5);
}

#[test]
fn terminal_centers_are_half_the_size() {
    let t = Terminal::new(80, 24);
    assert_eq!(t.h_center(), 40);
    assert_eq!(t.v_center(), 12);
}

#[test]
fn strings_are_centered_by_their_size() {
    let t = Terminal::new(80, 24);
    assert_eq!(t.h_center_str("hello"), 37);
    assert_eq!(t.v_center_str("a\nb\nc"), 10);
    assert_eq!(t.v_center_str("one line"), 11);
}

#[test]
fn set_size_reports_changes_only() {
    let mut t = Terminal::new(80, 24);
    assert!(!t.set_size(80, 24));
    assert!(t.set_size(80, 25));
    assert_eq!(t.v_center(), 12);
    assert!(t.set_size(120, 25));
    assert_eq!(t.h_center(), 60);
}

#[test]
fn difficulty_up_moves_toward_hard() {
    assert_eq!(Difficulty::Easy.up(), Difficulty::Medium);
    assert_eq!(Difficulty::Medium.up(), Difficulty::Hard);
    assert_eq!(Difficulty::Hard.up(), Difficulty::Hard);
}

#[test]
fn difficulty_down_moves_toward_easy() {
    assert_eq!(Difficulty::Hard.down(), Difficulty::Medium);
    assert_eq!(Difficulty::Medium.down(), Difficulty::Easy);
    assert_eq!(Difficulty::Easy.down(), Difficulty::Easy);
}

#[test]
fn difficulty_hint_counts() {
    assert_eq!(Difficulty::Hard.hints(), 30);
    assert_eq!(Difficulty::Medium.hints(), 40);
    assert_eq!(Difficulty::Easy.hints(), 50);
}

#[test]
fn number_array_and_vec_list_the_nine_digits() {
    let arr = rudoku::value::SudokuValue::get_number_array();
    let v = rudoku::value::SudokuValue::get_number_vec();
    assert_eq!(arr.len(), 9);
    assert_eq!(v.len(), 9);
    for i in 0..9 {
        assert_eq!(arr[i], v[i]);
        assert_eq!(arr[i].to_digit() as usize, i + 1);
    }
}

#[test]
fn values_order_naturally_with_empty_first() {
    assert!(rudoku::value::SudokuValue::Empty < rudoku::value::SudokuValue::One);
    assert!(rudoku::value::SudokuValue::One < rudoku::value::SudokuValue::Two);
    assert!(rudoku::value::SudokuValue::Eight < rudoku::value::SudokuValue::Nine);
    let v = rudoku::value::SudokuValue::get_number_vec();
    for i in 1..9 {
        assert!(v[i - 1] < v[i]);
    }
}

#[test]
fn digits_round_trip_through_values() {
    for d in 0..=9u8 {
        let v = rudoku::value::SudokuValue::from_digit(d).unwrap();
        assert_eq!(v.to_digit(), d);
    }
    assert_eq!(rudoku::value::SudokuValue::from_digit(10), None);
}
