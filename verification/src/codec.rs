//! The fixed-length text encoding of a grid: 81 characters, row-major, each
//! a digit, with '0' standing for an empty cell.  The encoding round-trips
//! losslessly.

use vstd::prelude::*;
use vstd::string::StrSliceExecFns;
use vstd::string::StringExecFns;
use crate::value::SudokuValue;
use crate::sudoku::{Sudoku, SudokuError};

verus! {

/// The digit character standing for a cell value.
pub open spec fn value_char(v: SudokuValue) -> char {
    match v {
        SudokuValue::Empty => '0',
        SudokuValue::One => '1',
        SudokuValue::Two => '2',
        SudokuValue::Three => '3',
        SudokuValue::Four => '4',
        SudokuValue::Five => '5',
        SudokuValue::Six => '6',
        SudokuValue::Seven => '7',
        SudokuValue::Eight => '8',
        SudokuValue::Nine => '9',
    }
}

/// Whether a character stands for a cell value.
pub open spec fn is_digit_char(c: char) -> bool {
    c == '0' || c == '1' || c == '2' || c == '3' || c == '4' || c == '5' || c == '6' || c == '7'
        || c == '8' || c == '9'
}

/// The cell value a digit character stands for.  Characters that stand for
/// no value are mapped to `Empty`; `is_digit_char` rules them out.
pub open spec fn char_value(c: char) -> SudokuValue {
    if c == '1' {
        SudokuValue::One
    } else if c == '2' {
        SudokuValue::Two
    } else if c == '3' {
        SudokuValue::Three
    } else if c == '4' {
        SudokuValue::Four
    } else if c == '5' {
        SudokuValue::Five
    } else if c == '6' {
        SudokuValue::Six
    } else if c == '7' {
        SudokuValue::Seven
    } else if c == '8' {
        SudokuValue::Eight
    } else if c == '9' {
        SudokuValue::Nine
    } else {
        SudokuValue::Empty
    }
}

/// The 81-character row-major encoding of a grid.
pub open spec fn encoding(s: Seq<SudokuValue>) -> Seq<char> {
    Seq::new(81, |i: int| value_char(s[i]))
}

/// Whether a character sequence is a well-formed grid encoding.
pub open spec fn well_formed_encoding(t: Seq<char>) -> bool {
    t.len() == 81 && forall|i: int| 0 <= i < 81 ==> is_digit_char(#[trigger] t[i])
}

/// The grid a well-formed encoding denotes.
pub open spec fn decoded(t: Seq<char>) -> Seq<SudokuValue> {
    Seq::new(81, |i: int| char_value(t[i]))
}

/// Encoding a grid always yields a well-formed encoding, and decoding it
/// gives the grid back: the encoding loses nothing.
pub proof fn lemma_encode_decode(s: Seq<SudokuValue>)
    requires
        s.len() == 81,
    ensures
        well_formed_encoding(encoding(s)),
        decoded(encoding(s)) == s,
{
    assert(decoded(encoding(s)) =~= s);
}

/// Decoding a well-formed encoding and re-encoding the resulting grid
/// yields the original character sequence: no two encodings denote one
/// grid.
pub proof fn lemma_decode_encode(t: Seq<char>)
    requires
        well_formed_encoding(t),
    ensures
        encoding(decoded(t)) == t,
{
    assert(encoding(decoded(t)) =~= t);
}

/// The one-character string for a cell value.
fn digit_str(v: SudokuValue) -> (p: &'static str)
    ensures
        p@.len() == 1,
        p@[0] == value_char(v),
{
    match v {
        SudokuValue::Empty => {
            proof {
                reveal_strlit("0");
            }
            "0"
        },
        SudokuValue::One => {
            proof {
                reveal_strlit("1");
            }
            "1"
        },
        SudokuValue::Two => {
            proof {
                reveal_strlit("2");
            }
            "2"
        },
        SudokuValue::Three => {
            proof {
                reveal_strlit("3");
            }
            "3"
        },
        SudokuValue::Four => {
            proof {
                reveal_strlit("4");
            }
            "4"
        },
        SudokuValue::Five => {
            proof {
                reveal_strlit("5");
            }
            "5"
        },
        SudokuValue::Six => {
            proof {
                reveal_strlit("6");
            }
            "6"
        },
        SudokuValue::Seven => {
            proof {
                reveal_strlit("7");
            }
            "7"
        },
        SudokuValue::Eight => {
            proof {
                reveal_strlit("8");
            }
            "8"
        },
        SudokuValue::Nine => {
            proof {
                reveal_strlit("9");
            }
            "9"
        },
    }
}

impl Sudoku {
    /// Encodes the grid as an 81-character string, row-major, with '0'
    /// for an empty cell.
    pub fn encode(&self) -> (out: String)
        ensures
            out@ == encoding(self@),
    {
        let mut out = String::new();
        let mut i: usize = 0;
        while i < 81
            invariant
                i <= 81,
                out@ == encoding(self@).take(i as int),
            decreases 81 - i,
        {
            let piece = digit_str(self.board[i]);
            out.append(piece);
            proof {
                assert(out@ =~= encoding(self@).take(i + 1));
            }
            i = i + 1;
        }
        proof {
            assert(encoding(self@).take(81) =~= encoding(self@));
        }
        out
    }

    /// Decodes an 81-character string into a grid, or fails with
    /// `MalformedEncoding` when the length is wrong or a character is not
    /// a decimal digit.
    pub fn decode(s: &str) -> (res: Result<Sudoku, SudokuError>)
        ensures
            well_formed_encoding(s@) ==> (res matches Ok(g) && g@ == decoded(s@)),
            !well_formed_encoding(s@) ==> res == Err::<Sudoku, SudokuError>(
                SudokuError::MalformedEncoding,
            ),
    {
        let n = s.unicode_len();
        if n != 81 {
            return Err(SudokuError::MalformedEncoding);
        }
        let mut g = Sudoku::empty();
        let mut i: usize = 0;
        while i < 81
            invariant
                i <= 81,
                s@.len() == 81,
                g@.len() == 81,
                forall|k: int|
                    0 <= k < i ==> is_digit_char(#[trigger] s@[k]) && g@[k] == char_value(s@[k]),
        decreases 81 - i,
        {
            let c = s.get_char(i);
            let v = match SudokuValue::from_digit(char_to_digit(c)) {
                Some(v) => v,
                None => {
                    return Err(SudokuError::MalformedEncoding);
                },
            };
            let r = i / 9;
            let col = i % 9;
            proof {
                assert(r * 9 + col == i);
            }
            g.set(r, col, v);
            i = i + 1;
        }
        proof {
            assert(g@ =~= decoded(s@));
        }
        Ok(g)
    }
}

/// The digit a character denotes, with ten marking a non-digit character.
fn char_to_digit(c: char) -> (d: u8)
    ensures
        is_digit_char(c) ==> d <= 9 && SudokuValue::spec_from_digit(d as int) == Some(
            char_value(c),
        ),
        !is_digit_char(c) ==> d == 10,
{
    match c {
        '0' => 0,
        '1' => 1,
        '2' => 2,
        '3' => 3,
        '4' => 4,
        '5' => 5,
        '6' => 6,
        '7' => 7,
        '8' => 8,
        '9' => 9,
        _ => 10,
    }
}

} // verus!
