//! The value held by one cell of a Sudoku grid: either `Empty` or one of the
//! nine digits.

use vstd::prelude::*;

verus! {

/// One cell of a Sudoku grid: `Empty`, or a digit from one to nine.
#[derive(Clone, Copy, Debug, PartialEq, Eq, PartialOrd, Ord, Structural)]
pub enum SudokuValue {
    Empty,
    One,
    Two,
    Three,
    Four,
    Five,
    Six,
    Seven,
    Eight,
    Nine,
}

impl SudokuValue {
    /// The digit this value stands for, with zero standing for `Empty`.
    pub open spec fn digit(self) -> int {
        match self {
            SudokuValue::Empty => 0,
            SudokuValue::One => 1,
            SudokuValue::Two => 2,
            SudokuValue::Three => 3,
            SudokuValue::Four => 4,
            SudokuValue::Five => 5,
            SudokuValue::Six => 6,
            SudokuValue::Seven => 7,
            SudokuValue::Eight => 8,
            SudokuValue::Nine => 9,
        }
    }

    /// The value standing for a digit; digits above nine stand for nothing.
    pub open spec fn spec_from_digit(d: int) -> Option<SudokuValue> {
        if d == 0 {
            Some(SudokuValue::Empty)
        } else if d == 1 {
            Some(SudokuValue::One)
        } else if d == 2 {
            Some(SudokuValue::Two)
        } else if d == 3 {
            Some(SudokuValue::Three)
        } else if d == 4 {
            Some(SudokuValue::Four)
        } else if d == 5 {
            Some(SudokuValue::Five)
        } else if d == 6 {
            Some(SudokuValue::Six)
        } else if d == 7 {
            Some(SudokuValue::Seven)
        } else if d == 8 {
            Some(SudokuValue::Eight)
        } else if d == 9 {
            Some(SudokuValue::Nine)
        } else {
            None
        }
    }

    /// Digits are a faithful code for values: each value is named by its digit.
    pub proof fn lemma_digit_from_digit(self)
        ensures
            Self::spec_from_digit(self.digit()) == Some(self),
    {
    }

    pub fn to_digit(self) -> (d: u8)
        ensures
            d == self.digit(),
    {
        match self {
            SudokuValue::Empty => 0,
            SudokuValue::One => 1,
            SudokuValue::Two => 2,
            SudokuValue::Three => 3,
            SudokuValue::Four => 4,
            SudokuValue::Five => 5,
            SudokuValue::Six => 6,
            SudokuValue::Seven => 7,
            SudokuValue::Eight => 8,
            SudokuValue::Nine => 9,
        }
    }

    pub fn from_digit(d: u8) -> (r: Option<SudokuValue>)
        ensures
            r == Self::spec_from_digit(d as int),
    {
        match d {
            0 => Some(SudokuValue::Empty),
            1 => Some(SudokuValue::One),
            2 => Some(SudokuValue::Two),
            3 => Some(SudokuValue::Three),
            4 => Some(SudokuValue::Four),
            5 => Some(SudokuValue::Five),
            6 => Some(SudokuValue::Six),
            7 => Some(SudokuValue::Seven),
            8 => Some(SudokuValue::Eight),
            9 => Some(SudokuValue::Nine),
            _ => None,
        }
    }

    /// The nine digit values in ascending order.
    pub open spec fn number_seq() -> Seq<SudokuValue> {
        seq![
            SudokuValue::One,
            SudokuValue::Two,
            SudokuValue::Three,
            SudokuValue::Four,
            SudokuValue::Five,
            SudokuValue::Six,
            SudokuValue::Seven,
            SudokuValue::Eight,
            SudokuValue::Nine,
        ]
    }

    /// The nine digit values, in ascending order, as an array.
    pub fn get_number_array() -> (r: [SudokuValue; 9])
        ensures
            r@ == Self::number_seq(),
    {
        let r = [
            SudokuValue::One,
            SudokuValue::Two,
            SudokuValue::Three,
            SudokuValue::Four,
            SudokuValue::Five,
            SudokuValue::Six,
            SudokuValue::Seven,
            SudokuValue::Eight,
            SudokuValue::Nine,
        ];
        proof {
            assert(r@ =~= Self::number_seq());
        }
        r
    }

    /// The nine digit values, in ascending order, as a vector.
    pub fn get_number_vec() -> (r: Vec<SudokuValue>)
        ensures
            r@ == Self::number_seq(),
    {
        let mut r: Vec<SudokuValue> = Vec::new();
        r.push(SudokuValue::One);
        r.push(SudokuValue::Two);
        r.push(SudokuValue::Three);
        r.push(SudokuValue::Four);
        r.push(SudokuValue::Five);
        r.push(SudokuValue::Six);
        r.push(SudokuValue::Seven);
        r.push(SudokuValue::Eight);
        r.push(SudokuValue::Nine);
        proof {
            assert(r@ =~= Self::number_seq());
        }
        r
    }
}

} // verus!
