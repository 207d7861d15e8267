//! The text lines that frame the board and the timer, and the offsets of
//! the value cells within the frame.  The drawing characters themselves
//! are handed in by the presentation layer.

use vstd::prelude::*;
use vstd::string::StrSliceExecFns;
use vstd::string::StringExecFns;

verus! {

/// The 25 characters of one frame line of the board: corner pieces at
/// the ends, a divider after each block of three cells, and spacing
/// between.
pub open spec fn bar_seq(l: char, r: char, d: char, sp: char) -> Seq<char> {
    Seq::new(
        25,
        |i: int|
            if i == 0 {
                l
            } else if i == 24 {
                r
            } else if i == 8 || i == 16 {
                d
            } else {
                sp
            },
    )
}

/// The 7 characters of one frame line of the timer box.
pub open spec fn time_bar_seq(l: char, r: char, b: char) -> Seq<char> {
    Seq::new(
        7,
        |i: int|
            if i == 0 {
                l
            } else if i == 6 {
                r
            } else {
                b
            },
    )
}

/// Builds one frame line of the board from the first characters of the
/// given pieces.
#[verifier::loop_isolation(false)]
pub fn bar(left: &str, right: &str, divider: &str, spacing: &str) -> (out: String)
    requires
        left@.len() >= 1,
        right@.len() >= 1,
        divider@.len() >= 1,
        spacing@.len() >= 1,
    ensures
        out@ == bar_seq(left@[0], right@[0], divider@[0], spacing@[0]),
{
    let ghost want = bar_seq(left@[0], right@[0], divider@[0], spacing@[0]);
    let mut out = String::new();
    let mut i: usize = 0;
    while i < 25
        invariant
            i <= 25,
            out@ == want.take(i as int),
        decreases 25 - i,
    {
        let piece = if i == 0 {
            left
        } else if i == 24 {
            right
        } else if i == 8 || i == 16 {
            divider
        } else {
            spacing
        };
        let head = piece.substring_char(0, 1);
        out.append(head);
        proof {
            assert(out@ =~= want.take(i + 1));
        }
        i = i + 1;
    }
    proof {
        assert(want.take(25) =~= want);
    }
    out
}

/// Builds one frame line of the timer box from the first characters of
/// the given pieces.
#[verifier::loop_isolation(false)]
pub fn time_bar(left: &str, right: &str, between: &str) -> (out: String)
    requires
        left@.len() >= 1,
        right@.len() >= 1,
        between@.len() >= 1,
    ensures
        out@ == time_bar_seq(left@[0], right@[0], between@[0]),
{
    let ghost want = time_bar_seq(left@[0], right@[0], between@[0]);
    let mut out = String::new();
    let mut i: usize = 0;
    while i < 7
        invariant
            i <= 7,
            out@ == want.take(i as int),
        decreases 7 - i,
    {
        let piece = if i == 0 {
            left
        } else if i == 6 {
            right
        } else {
            between
        };
        let head = piece.substring_char(0, 1);
        out.append(head);
        proof {
            assert(out@ =~= want.take(i + 1));
        }
        i = i + 1;
    }
    proof {
        assert(want.take(7) =~= want);
    }
    out
}

/// The horizontal offset, from the board's center, at which the value
/// of column `c` is drawn.
pub fn col_number_offset(c: i32) -> (off: i32)
    requires
        0 <= c < 9,
    ensures
        off == c * 2 + (c / 3) * 2 - 10,
{
    c * 2 + (c / 3) * 2 - 10
}

/// The vertical offset, from the board's center, at which the value of
/// row `r` is drawn.
pub fn row_number_offset(r: i32) -> (off: i32)
    requires
        0 <= r < 9,
    ensures
        off == r + (r / 3) - 5,
{
    r + (r / 3) - 5
}

} // verus!
