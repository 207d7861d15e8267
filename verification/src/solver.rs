//! The search engine: the randomized backtracking filler, the exhaustive
//! solution counter, and the hint decimator.  All three walk the grid in
//! row-major order and mutate it in place, restoring every trial placement
//! before returning.

use vstd::prelude::*;
use crate::value::SudokuValue;
use crate::sudoku::{
    Sudoku, SudokuError, box_of, box_row, box_col, row_seq, col_seq, box_seq, row_valid,
    col_valid, box_valid, grid_valid, grid_full, solved_spec, count_val, lemma_count_zero_iff,
    lemma_count_update, lemma_full_region_contains_all,
};
use crate::shuffle::shuffle_vec;

verus! {

/// Every cell strictly before `pos` in row-major order holds a digit.
pub open spec fn prefix_filled(s: Seq<SudokuValue>, pos: int) -> bool {
    forall|i: int| 0 <= i < pos ==> s[i] != SudokuValue::Empty
}

/// Every cell at or after `pos` in row-major order is empty.
pub open spec fn suffix_empty(s: Seq<SudokuValue>, pos: int) -> bool {
    forall|i: int| pos <= i < 81 ==> s[i] == SudokuValue::Empty
}

/// Placing a digit in an empty cell keeps the whole grid free of
/// duplicates as soon as the three regions through that cell stay free of
/// them: no other region changes.
proof fn lemma_place_preserves_valid(s: Seq<SudokuValue>, r: int, c: int, v: SudokuValue)
    requires
        s.len() == 81,
        0 <= r < 9,
        0 <= c < 9,
        grid_valid(s),
        row_valid(s.update(r * 9 + c, v), r),
        col_valid(s.update(r * 9 + c, v), c),
        box_valid(s.update(r * 9 + c, v), box_of(r, c)),
    ensures
        grid_valid(s.update(r * 9 + c, v)),
{
    let s2 = s.update(r * 9 + c, v);
    assert forall|r2: int| 0 <= r2 < 9 implies row_valid(s2, r2) by {
        if r2 != r {
            assert(row_valid(s, r2));
            assert(row_seq(s2, r2) =~= row_seq(s, r2)) by {
                assert forall|cc: int| 0 <= cc < 9 implies row_seq(s2, r2)[cc] == row_seq(
                    s,
                    r2,
                )[cc] by {
                    assert(r2 * 9 + cc != r * 9 + c);
                }
            }
        }
    }
    assert forall|c2: int| 0 <= c2 < 9 implies col_valid(s2, c2) by {
        if c2 != c {
            assert(col_valid(s, c2));
            assert(col_seq(s2, c2) =~= col_seq(s, c2)) by {
                assert forall|rr: int| 0 <= rr < 9 implies col_seq(s2, c2)[rr] == col_seq(
                    s,
                    c2,
                )[rr] by {
                    assert(rr * 9 + c2 != r * 9 + c);
                }
            }
        }
    }
    assert forall|b2: int| 0 <= b2 < 9 implies box_valid(s2, b2) by {
        if b2 != box_of(r, c) {
            assert(box_valid(s, b2));
            assert(box_seq(s2, b2) =~= box_seq(s, b2)) by {
                assert forall|k: int| 0 <= k < 9 implies box_seq(s2, b2)[k] == box_seq(
                    s,
                    b2,
                )[k] by {
                    let rr = box_row(b2, k);
                    let cc = box_col(b2, k);
                    assert(0 <= rr < 9 && 0 <= cc < 9);
                    assert(box_of(rr, cc) == b2);
                    if rr * 9 + cc == r * 9 + c {
                        assert(rr == r && cc == c);
                    }
                }
            }
        }
    }
}

/// Emptying cells of a duplicate-free grid keeps it duplicate-free: a
/// duplicate pair in the smaller grid would already stand in the larger.
proof fn lemma_subgrid_valid(s: Seq<SudokuValue>, s2: Seq<SudokuValue>)
    requires
        s.len() == 81,
        s2.len() == 81,
        grid_valid(s),
        forall|i: int| 0 <= i < 81 ==> s2[i] == SudokuValue::Empty || s2[i] == s[i],
    ensures
        grid_valid(s2),
{
    assert forall|r: int| 0 <= r < 9 implies row_valid(s2, r) by {
        assert(row_valid(s, r));
        assert forall|i: int, j: int|
            0 <= i < 9 && 0 <= j < 9 && i != j && row_seq(s2, r)[i]
                != SudokuValue::Empty implies row_seq(s2, r)[i] != row_seq(s2, r)[j] by {
            assert(0 <= r * 9 + i < 81 && 0 <= r * 9 + j < 81);
            if row_seq(s2, r)[i] == row_seq(s2, r)[j] {
                assert(s2[r * 9 + i] == s[r * 9 + i]);
                assert(s2[r * 9 + j] == s[r * 9 + j]);
                assert(row_seq(s, r)[i] == row_seq(s2, r)[i]);
                assert(row_seq(s, r)[j] == row_seq(s2, r)[j]);
            }
        }
    }
    assert forall|c: int| 0 <= c < 9 implies col_valid(s2, c) by {
        assert(col_valid(s, c));
        assert forall|i: int, j: int|
            0 <= i < 9 && 0 <= j < 9 && i != j && col_seq(s2, c)[i]
                != SudokuValue::Empty implies col_seq(s2, c)[i] != col_seq(s2, c)[j] by {
            assert(0 <= i * 9 + c < 81 && 0 <= j * 9 + c < 81);
            if col_seq(s2, c)[i] == col_seq(s2, c)[j] {
                assert(s2[i * 9 + c] == s[i * 9 + c]);
                assert(s2[j * 9 + c] == s[j * 9 + c]);
                assert(col_seq(s, c)[i] == col_seq(s2, c)[i]);
                assert(col_seq(s, c)[j] == col_seq(s2, c)[j]);
            }
        }
    }
    assert forall|b: int| 0 <= b < 9 implies box_valid(s2, b) by {
        assert(box_valid(s, b));
        assert forall|i: int, j: int|
            0 <= i < 9 && 0 <= j < 9 && i != j && box_seq(s2, b)[i]
                != SudokuValue::Empty implies box_seq(s2, b)[i] != box_seq(s2, b)[j] by {
            let pi = box_row(b, i) * 9 + box_col(b, i);
            let pj = box_row(b, j) * 9 + box_col(b, j);
            assert(0 <= pi < 81 && 0 <= pj < 81);
            if box_seq(s2, b)[i] == box_seq(s2, b)[j] {
                assert(s2[pi] == s[pi]);
                assert(s2[pj] == s[pj]);
                assert(box_seq(s, b)[i] == box_seq(s2, b)[i]);
                assert(box_seq(s, b)[j] == box_seq(s2, b)[j]);
            }
        }
    }
}

/// The value standing for digit `d`, for digits one to nine.
pub open spec fn digit_value(d: int) -> SudokuValue {
    if d == 1 {
        SudokuValue::One
    } else if d == 2 {
        SudokuValue::Two
    } else if d == 3 {
        SudokuValue::Three
    } else if d == 4 {
        SudokuValue::Four
    } else if d == 5 {
        SudokuValue::Five
    } else if d == 6 {
        SudokuValue::Six
    } else if d == 7 {
        SudokuValue::Seven
    } else if d == 8 {
        SudokuValue::Eight
    } else if d == 9 {
        SudokuValue::Nine
    } else {
        SudokuValue::Empty
    }
}

/// The number of distinct completely solved grids that can be reached
/// from `s` by writing digits into its empty cells at positions `pos`
/// and beyond: each empty cell branches over the nine digits, and a
/// branch that ends in a solved grid counts one.  `count_sols(s, 0)` is
/// the number of solutions of `s`.
pub open spec fn count_sols(s: Seq<SudokuValue>, pos: int) -> nat
    decreases 81 - pos, 10int,
{
    if pos >= 81 {
        if solved_spec(s) {
            1nat
        } else {
            0nat
        }
    } else if s[pos] != SudokuValue::Empty {
        count_sols(s, pos + 1)
    } else {
        count_sols_digits(s, pos, 1)
    }
}

/// The part of `count_sols` contributed by writing the digits `d..=9`
/// into the empty cell at `pos`.
pub open spec fn count_sols_digits(s: Seq<SudokuValue>, pos: int, d: int) -> nat
    decreases 81 - pos, 10 - d,
{
    if d < 1 || d > 9 || !(0 <= pos < 81) {
        0
    } else {
        count_sols(s.update(pos, digit_value(d)), pos + 1) + count_sols_digits(s, pos, d + 1)
    }
}

/// `x` capped at two: the solution counter tells apart none, one, and
/// more than one, and reports every larger number as two.
pub open spec fn capped(x: nat) -> nat {
    if x >= 2 {
        2
    } else {
        x
    }
}

/// On a grid with no empty cell the search has nothing to branch on: it
/// counts one exactly when the grid is solved.
proof fn lemma_count_sols_full(s: Seq<SudokuValue>, pos: int)
    requires
        s.len() == 81,
        grid_full(s),
        0 <= pos <= 81,
    ensures
        count_sols(s, pos) == if solved_spec(s) {
            1nat
        } else {
            0nat
        },
    decreases 81 - pos,
{
    if pos < 81 {
        assert(s[pos] != SudokuValue::Empty);
        lemma_count_sols_full(s, pos + 1);
    }
}

/// A duplicate among non-empty cells survives any write into an empty
/// cell.
proof fn lemma_invalid_update_empty(s: Seq<SudokuValue>, pos: int, v: SudokuValue)
    requires
        s.len() == 81,
        0 <= pos < 81,
        s[pos] == SudokuValue::Empty,
        !grid_valid(s),
    ensures
        !grid_valid(s.update(pos, v)),
{
    let s2 = s.update(pos, v);
    if !(forall|r: int| 0 <= r < 9 ==> row_valid(s, r)) {
        let r = choose|r: int| 0 <= r < 9 && !row_valid(s, r);
        let (i, j) = choose|i: int, j: int|
            0 <= i < 9 && 0 <= j < 9 && i != j && row_seq(s, r)[i] != SudokuValue::Empty
                && row_seq(s, r)[i] == row_seq(s, r)[j];
        assert(s[r * 9 + i] != SudokuValue::Empty && s[r * 9 + j] != SudokuValue::Empty);
        assert(r * 9 + i != pos && r * 9 + j != pos);
        assert(row_seq(s2, r)[i] == row_seq(s, r)[i] && row_seq(s2, r)[j] == row_seq(s, r)[j]);
        assert(!row_valid(s2, r));
    } else if !(forall|c: int| 0 <= c < 9 ==> col_valid(s, c)) {
        let c = choose|c: int| 0 <= c < 9 && !col_valid(s, c);
        let (i, j) = choose|i: int, j: int|
            0 <= i < 9 && 0 <= j < 9 && i != j && col_seq(s, c)[i] != SudokuValue::Empty
                && col_seq(s, c)[i] == col_seq(s, c)[j];
        assert(s[i * 9 + c] != SudokuValue::Empty && s[j * 9 + c] != SudokuValue::Empty);
        assert(i * 9 + c != pos && j * 9 + c != pos);
        assert(col_seq(s2, c)[i] == col_seq(s, c)[i] && col_seq(s2, c)[j] == col_seq(s, c)[j]);
        assert(!col_valid(s2, c));
    } else {
        let b = choose|b: int| 0 <= b < 9 && !box_valid(s, b);
        let (i, j) = choose|i: int, j: int|
            0 <= i < 9 && 0 <= j < 9 && i != j && box_seq(s, b)[i] != SudokuValue::Empty
                && box_seq(s, b)[i] == box_seq(s, b)[j];
        let pi = box_row(b, i) * 9 + box_col(b, i);
        let pj = box_row(b, j) * 9 + box_col(b, j);
        assert(0 <= pi < 81 && 0 <= pj < 81);
        assert(s[pi] != SudokuValue::Empty && s[pj] != SudokuValue::Empty);
        assert(pi != pos && pj != pos);
        assert(box_seq(s2, b)[i] == box_seq(s, b)[i] && box_seq(s2, b)[j] == box_seq(s, b)[j]);
        assert(!box_valid(s2, b));
    }
}

/// A grid that already holds a duplicate has no solutions.
proof fn lemma_invalid_no_sols(s: Seq<SudokuValue>, pos: int)
    requires
        s.len() == 81,
        !grid_valid(s),
        0 <= pos <= 81,
    ensures
        count_sols(s, pos) == 0,
    decreases 81 - pos, 10int,
{
    if pos < 81 {
        if s[pos] != SudokuValue::Empty {
            lemma_invalid_no_sols(s, pos + 1);
        } else {
            lemma_invalid_no_sols_digits(s, pos, 1);
        }
    }
}

/// Companion of `lemma_invalid_no_sols` for the branch over digits.
proof fn lemma_invalid_no_sols_digits(s: Seq<SudokuValue>, pos: int, d: int)
    requires
        s.len() == 81,
        !grid_valid(s),
        0 <= pos < 81,
        s[pos] == SudokuValue::Empty,
        1 <= d <= 10,
    ensures
        count_sols_digits(s, pos, d) == 0,
    decreases 81 - pos, 10 - d,
{
    if d <= 9 {
        lemma_invalid_update_empty(s, pos, digit_value(d));
        lemma_invalid_no_sols(s.update(pos, digit_value(d)), pos + 1);
        lemma_invalid_no_sols_digits(s, pos, d + 1);
    }
}

/// Whether `t` is a solution of `s`: a completely solved grid that keeps
/// every value `s` already holds.
pub open spec fn is_completion(t: Seq<SudokuValue>, s: Seq<SudokuValue>) -> bool {
    &&& t.len() == 81
    &&& solved_spec(t)
    &&& forall|i: int| 0 <= i < 81 && s[i] != SudokuValue::Empty ==> t[i] == s[i]
}

/// The branch over the digits `d..=9` counts at least the branch of any
/// one digit among them.
proof fn lemma_digits_at_least(s: Seq<SudokuValue>, pos: int, d: int, e: int)
    requires
        s.len() == 81,
        0 <= pos < 81,
        1 <= d <= 9,
        d <= e <= 9,
    ensures
        count_sols_digits(s, pos, d) >= count_sols(s.update(pos, digit_value(e)), pos + 1),
    decreases 10 - d,
{
    if d < e {
        lemma_digits_at_least(s, pos, d + 1, e);
    }
}

/// The branch over the digits `d..=9` counts at least the branches of
/// any two distinct digits among them.
proof fn lemma_digits_at_least_two(s: Seq<SudokuValue>, pos: int, d: int, e1: int, e2: int)
    requires
        s.len() == 81,
        0 <= pos < 81,
        1 <= d <= 9,
        d <= e1 < e2 <= 9,
    ensures
        count_sols_digits(s, pos, d) >= count_sols(s.update(pos, digit_value(e1)), pos + 1)
            + count_sols(s.update(pos, digit_value(e2)), pos + 1),
    decreases 10 - d,
{
    if d < e1 {
        lemma_digits_at_least_two(s, pos, d + 1, e1, e2);
    } else {
        lemma_digits_at_least(s, pos, d + 1, e2);
    }
}

/// The search misses no solution: a grid with a completion counts at
/// least one, from any position whose prefix the grid and the completion
/// share.
proof fn lemma_completion_counted(s: Seq<SudokuValue>, t: Seq<SudokuValue>, pos: int)
    requires
        s.len() == 81,
        0 <= pos <= 81,
        is_completion(t, s),
        forall|i: int| 0 <= i < pos ==> s[i] == t[i],
    ensures
        count_sols(s, pos) >= 1,
    decreases 81 - pos,
{
    if pos == 81 {
        assert(s =~= t);
    } else if s[pos] != SudokuValue::Empty {
        assert(t[pos] == s[pos]);
        lemma_completion_counted(s, t, pos + 1);
    } else {
        let v = t[pos];
        assert(v != SudokuValue::Empty);
        let e = v.digit();
        assert(1 <= e <= 9);
        assert(digit_value(e) == v);
        let s2 = s.update(pos, v);
        assert(is_completion(t, s2)) by {
            assert forall|i: int|
                0 <= i < 81 && s2[i] != SudokuValue::Empty implies t[i] == s2[i] by {
                if i != pos {
                    assert(s2[i] == s[i]);
                }
            }
        }
        lemma_completion_counted(s2, t, pos + 1);
        lemma_digits_at_least(s, pos, 1, e);
    }
}

/// Two different solutions are both found: the count reaches two.
proof fn lemma_two_completions_counted(
    s: Seq<SudokuValue>,
    t1: Seq<SudokuValue>,
    t2: Seq<SudokuValue>,
    pos: int,
)
    requires
        s.len() == 81,
        0 <= pos <= 81,
        is_completion(t1, s),
        is_completion(t2, s),
        t1 != t2,
        forall|i: int| 0 <= i < pos ==> s[i] == t1[i] && s[i] == t2[i],
    ensures
        count_sols(s, pos) >= 2,
    decreases 81 - pos,
{
    if pos == 81 {
        assert(t1 =~= t2);
        assert(false);
    } else if s[pos] != SudokuValue::Empty {
        assert(t1[pos] == s[pos] && t2[pos] == s[pos]);
        lemma_two_completions_counted(s, t1, t2, pos + 1);
    } else {
        let a = t1[pos];
        let b = t2[pos];
        assert(a != SudokuValue::Empty && b != SudokuValue::Empty);
        assert(digit_value(a.digit()) == a && digit_value(b.digit()) == b);
        if a == b {
            let s2 = s.update(pos, a);
            assert(is_completion(t1, s2) && is_completion(t2, s2)) by {
                assert forall|i: int|
                    0 <= i < 81 && s2[i] != SudokuValue::Empty implies t1[i] == s2[i] && t2[i]
                        == s2[i] by {
                    if i != pos {
                        assert(s2[i] == s[i]);
                    }
                }
            }
            lemma_two_completions_counted(s2, t1, t2, pos + 1);
            lemma_digits_at_least(s, pos, 1, a.digit());
        } else {
            assert(a.digit() != b.digit());
            let s2a = s.update(pos, a);
            let s2b = s.update(pos, b);
            assert(is_completion(t1, s2a)) by {
                assert forall|i: int|
                    0 <= i < 81 && s2a[i] != SudokuValue::Empty implies t1[i] == s2a[i] by {
                    if i != pos {
                        assert(s2a[i] == s[i]);
                    }
                }
            }
            assert(is_completion(t2, s2b)) by {
                assert forall|i: int|
                    0 <= i < 81 && s2b[i] != SudokuValue::Empty implies t2[i] == s2b[i] by {
                    if i != pos {
                        assert(s2b[i] == s[i]);
                    }
                }
            }
            lemma_completion_counted(s2a, t1, pos + 1);
            lemma_completion_counted(s2b, t2, pos + 1);
            if a.digit() < b.digit() {
                lemma_digits_at_least_two(s, pos, 1, a.digit(), b.digit());
            } else {
                lemma_digits_at_least_two(s, pos, 1, b.digit(), a.digit());
            }
        }
    }
}

/// A positive branch over the digits `d..=9` has a positive digit.
proof fn lemma_digits_pos_branch(s: Seq<SudokuValue>, pos: int, d: int)
    requires
        s.len() == 81,
        0 <= pos < 81,
        1 <= d <= 10,
        count_sols_digits(s, pos, d) >= 1,
    ensures
        exists|e: int|
            d <= e <= 9 && count_sols(s.update(pos, #[trigger] digit_value(e)), pos + 1) >= 1,
    decreases 10 - d,
{
    assert(d <= 9);
    if count_sols(s.update(pos, digit_value(d)), pos + 1) >= 1 {
        assert(count_sols(s.update(pos, digit_value(d)), pos + 1) >= 1);
    } else {
        lemma_digits_pos_branch(s, pos, d + 1);
    }
}

/// The search invents no solution: a positive count exhibits a real
/// completion of the grid.
proof fn lemma_positive_count_has_completion(s: Seq<SudokuValue>, pos: int)
    requires
        s.len() == 81,
        0 <= pos <= 81,
        count_sols(s, pos) >= 1,
    ensures
        exists|t: Seq<SudokuValue>| is_completion(t, s),
    decreases 81 - pos,
{
    if pos == 81 {
        assert(is_completion(s, s));
    } else if s[pos] != SudokuValue::Empty {
        lemma_positive_count_has_completion(s, pos + 1);
        let t = choose|t: Seq<SudokuValue>| is_completion(t, s);
        assert(is_completion(t, s));
    } else {
        lemma_digits_pos_branch(s, pos, 1);
        let e = choose|e: int|
            1 <= e <= 9 && count_sols(s.update(pos, #[trigger] digit_value(e)), pos + 1) >= 1;
        let s2 = s.update(pos, digit_value(e));
        lemma_positive_count_has_completion(s2, pos + 1);
        let t = choose|t: Seq<SudokuValue>| is_completion(t, s2);
        assert(is_completion(t, s)) by {
            assert forall|i: int|
                0 <= i < 81 && s[i] != SudokuValue::Empty implies t[i] == s[i] by {
                assert(s2[i] == s[i]);
            }
        }
    }
}

/// A unique count means what it says: the grid has a completion, and any
/// two of its completions are the same grid.
pub proof fn lemma_unique_count_unique_completion(s: Seq<SudokuValue>)
    requires
        s.len() == 81,
        count_sols(s, 0) == 1,
    ensures
        exists|t: Seq<SudokuValue>| is_completion(t, s),
        forall|t1: Seq<SudokuValue>, t2: Seq<SudokuValue>|
            is_completion(t1, s) && is_completion(t2, s) ==> t1 == t2,
{
    lemma_positive_count_has_completion(s, 0);
    assert forall|t1: Seq<SudokuValue>, t2: Seq<SudokuValue>|
        is_completion(t1, s) && is_completion(t2, s) implies t1 == t2 by {
        if t1 != t2 {
            lemma_two_completions_counted(s, t1, t2, 0);
        }
    }
}

/// The counter misses no solution: a grid that has a completion is never
/// counted as unsolvable.
pub proof fn lemma_completion_gives_solution(s: Seq<SudokuValue>, t: Seq<SudokuValue>)
    requires
        s.len() == 81,
        is_completion(t, s),
    ensures
        count_sols(s, 0) >= 1,
{
    lemma_completion_counted(s, t, 0);
}

/// A grid with two different solutions is never reported unique: the
/// count reaches at least two, so the capped counter reports two.
pub proof fn lemma_second_completion_detected(
    s: Seq<SudokuValue>,
    t1: Seq<SudokuValue>,
    t2: Seq<SudokuValue>,
)
    requires
        s.len() == 81,
        is_completion(t1, s),
        is_completion(t2, s),
        t1 != t2,
    ensures
        count_sols(s, 0) >= 2,
        capped(count_sols(s, 0)) == 2,
{
    lemma_two_completions_counted(s, t1, t2, 0);
}

/// A branch over digits that are each solution-free contributes nothing.
proof fn lemma_digits_zero(s: Seq<SudokuValue>, pos: int, d: int)
    requires
        s.len() == 81,
        0 <= pos < 81,
        1 <= d <= 10,
        forall|e: int|
            d <= e <= 9 ==> count_sols(s.update(pos, #[trigger] digit_value(e)), pos + 1) == 0,
    ensures
        count_sols_digits(s, pos, d) == 0,
    decreases 10 - d,
{
    if d <= 9 {
        assert(count_sols(s.update(pos, digit_value(d)), pos + 1) == 0);
        lemma_digits_zero(s, pos, d + 1);
    }
}

/// When one digit written into the last empty cell solves the grid, no
/// other digit does: the cell's row already holds the other eight
/// digits, so the branch over digits counts exactly one solution.
proof fn lemma_count_sols_digits_unique(s: Seq<SudokuValue>, pos: int, d: int, v: SudokuValue)
    requires
        s.len() == 81,
        0 <= pos < 81,
        s[pos] == SudokuValue::Empty,
        forall|i: int| 0 <= i < 81 && i != pos ==> s[i] != SudokuValue::Empty,
        v != SudokuValue::Empty,
        solved_spec(s.update(pos, v)),
        1 <= d <= 10,
    ensures
        count_sols_digits(s, pos, d) == if d <= v.digit() {
            1nat
        } else {
            0nat
        },
    decreases 10 - d,
{
    assert(1 <= v.digit() <= 9);
    if d <= 9 {
        let w = digit_value(d);
        let sw = s.update(pos, w);
        let sv = s.update(pos, v);
        assert(w != SudokuValue::Empty);
        assert(grid_full(sw)) by {
            assert forall|i: int| 0 <= i < 81 implies sw[i] != SudokuValue::Empty by {
                if i != pos {
                    assert(sw[i] == s[i]);
                }
            }
        }
        lemma_count_sols_full(sw, pos + 1);
        if w == v {
            assert(w.digit() == d);
            assert(count_sols(sw, pos + 1) == 1);
        } else {
            let r = pos / 9;
            let c = pos % 9;
            assert(r * 9 + c == pos);
            assert(0 <= r < 9 && 0 <= c < 9);
            let q = row_seq(sv, r);
            assert(row_valid(sv, r));
            assert forall|i: int| 0 <= i < 9 implies q[i] != SudokuValue::Empty by {
                assert(0 <= r * 9 + i < 81);
            }
            lemma_full_region_contains_all(q, w);
            let c2 = choose|i: int| 0 <= i < 9 && q[i] == w;
            assert(q[c] == sv[pos]);
            assert(c2 != c);
            assert(row_seq(sw, r)[c2] == sv[r * 9 + c2]) by {
                assert(r * 9 + c2 != pos);
            }
            assert(row_seq(sw, r)[c] == w);
            assert(!row_valid(sw, r));
            assert(!grid_valid(sw));
            assert(count_sols(sw, pos + 1) == 0);
        }
        lemma_count_sols_digits_unique(s, pos, d + 1, v);
    }
}

impl Sudoku {
    /// Fills every empty cell from the given position onward, trying the
    /// nine digits in a freshly shuffled order at each cell and
    /// backtracking on dead ends.  On success the grid is completely
    /// solved and the cells before the position are untouched.  The
    /// search is exhaustive, so it fails only when the grid admits no
    /// completion at all, and then leaves it exactly as it was.  Called
    /// as `fill(0, 0)` on an empty grid.
    #[verifier::loop_isolation(false)]
    pub fn fill(&mut self, r: usize, c: usize) -> (res: Result<(), ()>)
        requires
            r < 9,
            c < 9,
            grid_valid(old(self)@),
            prefix_filled(old(self)@, r * 9 + c),
            suffix_empty(old(self)@, r * 9 + c),
        ensures
            res matches Ok(_) ==> solved_spec(final(self)@) && (forall|i: int|
                0 <= i < r * 9 + c ==> final(self)@[i] == old(self)@[i]),
            res matches Err(_) ==> final(self)@ == old(self)@ && count_sols(
                old(self)@,
                r * 9 + c,
            ) == 0,
        decreases 81 - (r * 9 + c),
    {
        let pos = r * 9 + c;
        let ghost s0 = self@;
        let mut numbers = SudokuValue::get_number_vec();
        shuffle_vec(&mut numbers);
        proof {
            assert forall|k: int| 0 <= k < numbers@.len() implies numbers@[k]
                != SudokuValue::Empty by {
                let x = numbers@[k];
                numbers@.to_multiset_ensures();
                SudokuValue::number_seq().to_multiset_ensures();
                assert(numbers@.contains(x));
                assert(numbers@.to_multiset().count(x) > 0);
                assert(SudokuValue::number_seq().to_multiset().count(x) > 0);
                assert(SudokuValue::number_seq().contains(x));
                let j = choose|j: int|
                    0 <= j < SudokuValue::number_seq().len() && SudokuValue::number_seq()[j] == x;
                assert(SudokuValue::number_seq()[j] != SudokuValue::Empty);
            }
        }
        let mut i: usize = 0;
        while i < 9
            invariant
                i <= 9,
                numbers@.len() == 9,
                self@.len() == 81,
                self@[pos as int] == SudokuValue::Empty,
                forall|t: int| 0 <= t < 81 && t != pos ==> self@[t] == s0[t],
                forall|k: int|
                    0 <= k < i ==> count_sols(s0.update(pos as int, #[trigger] numbers@[k]), pos + 1)
                        == 0,
            decreases 9 - i,
        {
            let number = numbers[i];
            self.board[pos] = number;
            let ghost s2 = s0.update(pos as int, number);
            proof {
                assert(self@ =~= s2);
            }
            if self.check(r, c) {
                proof {
                    lemma_place_preserves_valid(s0, r as int, c as int, number);
                }
                if r == 8 && c == 8 {
                    proof {
                        assert forall|t: int| 0 <= t < 81 implies self@[t]
                            != SudokuValue::Empty by {
                            if t != pos {
                                assert(self@[t] == s0[t]);
                            }
                        }
                        assert(solved_spec(self@));
                    }
                    return Ok(());
                }
                let nr = if c == 8 {
                    r + 1
                } else {
                    r
                };
                let nc = if c == 8 {
                    0
                } else {
                    c + 1
                };
                proof {
                    assert(nr * 9 + nc == pos + 1);
                }
                let res = self.fill(nr, nc);
                if res.is_ok() {
                    return Ok(());
                }
                self.board[pos] = SudokuValue::Empty;
                proof {
                    assert(self@ =~= s0);
                    assert(count_sols(s0.update(pos as int, numbers@[i as int]), pos + 1) == 0);
                }
            } else {
                self.board[pos] = SudokuValue::Empty;
                proof {
                    assert(self@ =~= s0);
                    assert(!grid_valid(s2)) by {
                        if grid_valid(s2) {
                            assert(row_valid(s2, r as int));
                            assert(col_valid(s2, c as int));
                            assert(box_valid(s2, box_of(r as int, c as int)));
                        }
                    }
                    lemma_invalid_no_sols(s2, pos + 1);
                    assert(count_sols(s0.update(pos as int, numbers@[i as int]), pos + 1) == 0);
                }
            }
            i = i + 1;
        }
        proof {
            assert(self@ =~= s0);
            assert forall|e: int|
                1 <= e <= 9 implies count_sols(
                s0.update(pos as int, #[trigger] digit_value(e)),
                pos + 1,
            ) == 0 by {
                assert(SudokuValue::number_seq()[0] == SudokuValue::One);
                assert(SudokuValue::number_seq()[1] == SudokuValue::Two);
                assert(SudokuValue::number_seq()[2] == SudokuValue::Three);
                assert(SudokuValue::number_seq()[3] == SudokuValue::Four);
                assert(SudokuValue::number_seq()[4] == SudokuValue::Five);
                assert(SudokuValue::number_seq()[5] == SudokuValue::Six);
                assert(SudokuValue::number_seq()[6] == SudokuValue::Seven);
                assert(SudokuValue::number_seq()[7] == SudokuValue::Eight);
                assert(SudokuValue::number_seq()[8] == SudokuValue::Nine);
                assert(SudokuValue::number_seq()[e - 1] == digit_value(e));
                assert(SudokuValue::number_seq().contains(digit_value(e)));
                numbers@.to_multiset_ensures();
                SudokuValue::number_seq().to_multiset_ensures();
                assert(SudokuValue::number_seq().to_multiset().count(digit_value(e)) > 0);
                assert(numbers@.to_multiset().count(digit_value(e)) > 0);
                assert(numbers@.contains(digit_value(e)));
                let k = choose|k: int| 0 <= k < numbers@.len() && numbers@[k] == digit_value(e);
                assert(count_sols(s0.update(pos as int, numbers@[k]), pos + 1) == 0);
            }
            lemma_digits_zero(s0, pos as int, 1);
        }
        Err(())
    }

    /// Counts the distinct solutions of the grid, capped at two.  The
    /// result is `count_sols` of the grid, except that any number beyond
    /// two is reported as two; in particular the result is one exactly
    /// when the grid has a unique solution.  Call as `solve(0, 0)`; the
    /// grid is left exactly as it was.
    #[verifier::loop_isolation(false)]
    pub fn solve(&mut self, r: usize, c: usize) -> (n: i32)
        requires
            r < 9,
            c < 9,
            grid_valid(old(self)@),
            prefix_filled(old(self)@, r * 9 + c),
        ensures
            final(self)@ == old(self)@,
            n == capped(count_sols(old(self)@, r * 9 + c)),
        decreases 81 - (r * 9 + c),
    {
        let pos = r * 9 + c;
        let ghost s0 = self@;
        if self.board[pos] != SudokuValue::Empty {
            if self.solved() {
                proof {
                    lemma_count_sols_full(s0, pos as int);
                }
                return 1;
            }
            proof {
                if pos == 80 {
                    assert(grid_full(s0)) by {
                        assert forall|t: int| 0 <= t < 81 implies s0[t] != SudokuValue::Empty by {
                            if t < 80 {
                                assert(s0[t] != SudokuValue::Empty);
                            }
                        }
                    }
                    assert(solved_spec(s0));
                    assert(false);
                }
            }
            let nr = if c == 8 {
                r + 1
            } else {
                r
            };
            let nc = if c == 8 {
                0
            } else {
                c + 1
            };
            proof {
                assert(nr * 9 + nc == pos + 1);
            }
            let res = self.solve(nr, nc);
            return res;
        }
        let numbers = SudokuValue::get_number_array();
        proof {
            assert forall|k: int| 0 <= k < 9 implies SudokuValue::number_seq()[k] == digit_value(
                k + 1,
            ) by {
                assert(SudokuValue::number_seq()[0] == SudokuValue::One);
                assert(SudokuValue::number_seq()[1] == SudokuValue::Two);
                assert(SudokuValue::number_seq()[2] == SudokuValue::Three);
                assert(SudokuValue::number_seq()[3] == SudokuValue::Four);
                assert(SudokuValue::number_seq()[4] == SudokuValue::Five);
                assert(SudokuValue::number_seq()[5] == SudokuValue::Six);
                assert(SudokuValue::number_seq()[6] == SudokuValue::Seven);
                assert(SudokuValue::number_seq()[7] == SudokuValue::Eight);
                assert(SudokuValue::number_seq()[8] == SudokuValue::Nine);
            }
        }
        let mut counter: i32 = 0;
        let mut i: usize = 0;
        while i < 9
            invariant
                i <= 9,
                0 <= counter <= 2,
                self@ == s0,
                capped(counter as nat + count_sols_digits(s0, pos as int, i + 1)) == capped(
                    count_sols(s0, pos as int),
                ),
            decreases 9 - i,
        {
            let number = numbers[i];
            proof {
                assert(number == digit_value(i + 1));
                assert(number != SudokuValue::Empty);
            }
            self.board[pos] = number;
            let ghost sw = s0.update(pos as int, number);
            proof {
                assert(self@ =~= sw);
            }
            if self.check(r, c) {
                proof {
                    lemma_place_preserves_valid(s0, r as int, c as int, number);
                }
                if self.solved() {
                    proof {
                        assert(solved_spec(sw));
                        assert forall|t: int| 0 <= t < 81 && t != pos implies s0[t]
                            != SudokuValue::Empty by {
                            assert(sw[t] == s0[t]);
                        }
                        lemma_count_sols_digits_unique(s0, pos as int, 1, number);
                        assert(1 <= number.digit());
                        assert(count_sols(s0, pos as int) == 1);
                    }
                    self.board[pos] = SudokuValue::Empty;
                    proof {
                        assert(self@ =~= s0);
                    }
                    return 1;
                }
                proof {
                    if pos == 80 {
                        assert(grid_full(sw)) by {
                            assert forall|t: int| 0 <= t < 81 implies sw[t]
                                != SudokuValue::Empty by {
                                if t < 80 {
                                    assert(sw[t] == s0[t]);
                                }
                            }
                        }
                        assert(solved_spec(sw));
                        assert(false);
                    }
                }
                let nr = if c == 8 {
                    r + 1
                } else {
                    r
                };
                let nc = if c == 8 {
                    0
                } else {
                    c + 1
                };
                proof {
                    assert(nr * 9 + nc == pos + 1);
                }
                let sub = self.solve(nr, nc);
                self.board[pos] = SudokuValue::Empty;
                proof {
                    assert(self@ =~= s0);
                }
                counter = if counter + sub >= 2 {
                    2
                } else {
                    counter + sub
                };
                proof {
                    assert(count_sols_digits(s0, pos as int, i + 1) == count_sols(sw, pos + 1)
                        + count_sols_digits(s0, pos as int, i + 2));
                }
            } else {
                self.board[pos] = SudokuValue::Empty;
                proof {
                    assert(self@ =~= s0);
                    assert(!grid_valid(sw)) by {
                        if grid_valid(sw) {
                            assert(row_valid(sw, r as int));
                            assert(col_valid(sw, c as int));
                            assert(box_valid(sw, box_of(r as int, c as int)));
                        }
                    }
                    lemma_invalid_no_sols(sw, pos + 1);
                    assert(count_sols_digits(s0, pos as int, i + 1) == count_sols(sw, pos + 1)
                        + count_sols_digits(s0, pos as int, i + 2));
                }
            }
            i = i + 1;
        }
        proof {
            assert(count_sols_digits(s0, pos as int, 10) == 0);
        }
        counter
    }

    /// Removes values from a solved grid in random order until exactly
    /// `n` remain, keeping the puzzle uniquely solvable: every removal is
    /// certified by the solution counter and undone when it breaks
    /// uniqueness, and when a whole pass removes nothing the most recent
    /// removal is undone before the next pass.  Fails with
    /// `InvalidHintCount` when `n` lies outside 17..=81, leaving the grid
    /// unchanged; `n == 81` succeeds without a change.  The randomized
    /// search carries no termination bound beyond an astronomically large
    /// pass budget; exhausting it, like an underflowing rollback, signals
    /// a defect and reports `StackUnderflow`.
    #[verifier::loop_isolation(false)]
    pub fn decimate(&mut self, n: usize) -> (res: Result<(), SudokuError>)
        requires
            solved_spec(old(self)@),
        ensures
            res == Err::<(), SudokuError>(SudokuError::InvalidHintCount) <==> (n < 17 || n > 81),
            (n < 17 || n > 81) ==> final(self)@ == old(self)@,
            n == 81 ==> (res matches Ok(_) && final(self)@ == old(self)@),
            forall|i: int|
                0 <= i < 81 && final(self)@[i] != SudokuValue::Empty ==> final(self)@[i] == old(
                    self,
                )@[i],
            res matches Ok(_) ==> count_val(final(self)@, SudokuValue::Empty) == 81 - n
                && count_sols(final(self)@, 0) == 1 && grid_valid(final(self)@)
                && is_completion(old(self)@, final(self)@),
    {
        if n < 17 {
            return Err(SudokuError::InvalidHintCount);
        }
        if n > 81 {
            return Err(SudokuError::InvalidHintCount);
        }
        if n == 81 {
            proof {
                lemma_count_zero_iff(self@, SudokuValue::Empty);
                lemma_count_sols_full(self@, 0);
            }
            return Ok(());
        }
        let ghost s0 = self@;
        let mut all_indices: Vec<usize> = Vec::new();
        let mut k: usize = 0;
        while k < 81
            invariant
                k <= 81,
                all_indices@.len() == k,
                forall|t: int| 0 <= t < k ==> all_indices@[t] < 81,
            decreases 81 - k,
        {
            all_indices.push(k);
            k = k + 1;
        }
        let mut stack: Vec<(SudokuValue, usize)> = Vec::new();
        proof {
            lemma_count_zero_iff(s0, SudokuValue::Empty);
        }
        let mut fuel: u64 = 1000000000000000000;
        while fuel > 0
            invariant
                self@.len() == 81,
                all_indices@.len() == 81,
                forall|t: int| 0 <= t < 81 ==> all_indices@[t] < 81,
                grid_valid(self@),
                forall|i: int|
                    0 <= i < 81 && self@[i] != SudokuValue::Empty ==> self@[i] == s0[i],
                count_val(self@, SudokuValue::Empty) < 81 - n,
                forall|t: int|
                    0 <= t < stack@.len() ==> (#[trigger] stack@[t]).1 < 81 && stack@[t].0
                        == s0[stack@[t].1 as int],
            decreases fuel,
        {
            fuel = fuel - 1;
            let ghost pre = all_indices@;
            shuffle_vec(&mut all_indices);
            proof {
                assert forall|t: int| 0 <= t < 81 implies all_indices@[t] < 81 by {
                    let x = all_indices@[t];
                    all_indices@.to_multiset_ensures();
                    pre.to_multiset_ensures();
                    assert(all_indices@.contains(x));
                    assert(all_indices@.to_multiset().count(x) > 0);
                    assert(pre.to_multiset().count(x) > 0);
                    assert(pre.contains(x));
                    let u = choose|u: int| 0 <= u < pre.len() && pre[u] == x;
                }
            }
            let mut j: usize = 0;
            while j < 81
                invariant
                    j <= 81,
                    self@.len() == 81,
                    all_indices@.len() == 81,
                    forall|t: int| 0 <= t < 81 ==> all_indices@[t] < 81,
                    grid_valid(self@),
                    forall|i: int|
                        0 <= i < 81 && self@[i] != SudokuValue::Empty ==> self@[i] == s0[i],
                    count_val(self@, SudokuValue::Empty) < 81 - n,
                    forall|t: int|
                        0 <= t < stack@.len() ==> (#[trigger] stack@[t]).1 < 81 && stack@[t].0
                            == s0[stack@[t].1 as int],
                decreases 81 - j,
            {
                let idx = all_indices[j];
                let val = self.board[idx];
                if val != SudokuValue::Empty {
                    let ghost s_pre = self@;
                    stack.push((val, idx));
                    self.board[idx] = SudokuValue::Empty;
                    let ghost s_rem = self@;
                    proof {
                        assert(s_rem =~= s_pre.update(idx as int, SudokuValue::Empty));
                        lemma_subgrid_valid(s0, s_rem);
                        lemma_count_update(s_pre, SudokuValue::Empty, idx as int, SudokuValue::Empty);
                    }
                    let cnt = self.solve(0, 0);
                    if cnt != 1 {
                        match stack.pop() {
                            Some(entry) => {
                                self.board[entry.1] = entry.0;
                                proof {
                                    assert(self@ =~= s_pre);
                                }
                            },
                            None => {
                                return Err(SudokuError::StackUnderflow);
                            },
                        }
                    }
                    if self.count(SudokuValue::Empty) == 81 - n {
                        proof {
                            if self@ == s_pre {
                                assert(false);
                            }
                            assert(capped(count_sols(s_rem, 0)) == 1);
                        }
                        return Ok(());
                    }
                }
                j = j + 1;
            }
            match stack.pop() {
                Some(entry) => {
                    let ghost s_pre = self@;
                    self.board[entry.1] = entry.0;
                    proof {
                        assert(self@ =~= s_pre.update(entry.1 as int, entry.0));
                        lemma_subgrid_valid(s0, self@);
                        lemma_count_update(s_pre, SudokuValue::Empty, entry.1 as int, entry.0);
                        assert(entry.0 != SudokuValue::Empty) by {
                            assert(s0[entry.1 as int] != SudokuValue::Empty);
                        }
                    }
                },
                None => {
                    return Err(SudokuError::StackUnderflow);
                },
            }
        }
        Err(SudokuError::StackUnderflow)
    }

    /// Builds a puzzle with `n` hints and its solution: a randomly
    /// filled solved grid is kept as the answer key, and the working
    /// copy is decimated down to `n` revealed cells while keeping a
    /// unique solution.  Returns `(puzzle, solution)`; fails with
    /// `InvalidHintCount` exactly when `n` lies outside 17..=81.
    pub fn new(n: usize) -> (res: Result<(Sudoku, Sudoku), SudokuError>)
        ensures
            res == Err::<(Sudoku, Sudoku), SudokuError>(SudokuError::InvalidHintCount) <==> (n < 17
                || n > 81),
            res matches Ok(p) ==> {
                &&& solved_spec(p.1@)
                &&& grid_valid(p.0@)
                &&& count_val(p.0@, SudokuValue::Empty) == 81 - n
                &&& count_sols(p.0@, 0) == 1
                &&& is_completion(p.1@, p.0@)
            },
    {
        if n < 17 || n > 81 {
            return Err(SudokuError::InvalidHintCount);
        }
        let mut grid = Sudoku::empty();
        proof {
            assert forall|r: int| 0 <= r < 9 implies row_valid(grid@, r) by {
                assert forall|i: int, j: int|
                    0 <= i < 9 && 0 <= j < 9 && i != j && row_seq(grid@, r)[i]
                        != SudokuValue::Empty implies row_seq(grid@, r)[i] != row_seq(
                    grid@,
                    r,
                )[j] by {
                    assert(0 <= r * 9 + i < 81);
                }
            }
            assert forall|c: int| 0 <= c < 9 implies col_valid(grid@, c) by {
                assert forall|i: int, j: int|
                    0 <= i < 9 && 0 <= j < 9 && i != j && col_seq(grid@, c)[i]
                        != SudokuValue::Empty implies col_seq(grid@, c)[i] != col_seq(
                    grid@,
                    c,
                )[j] by {
                    assert(0 <= i * 9 + c < 81);
                }
            }
            assert forall|b: int| 0 <= b < 9 implies box_valid(grid@, b) by {
                assert forall|i: int, j: int|
                    0 <= i < 9 && 0 <= j < 9 && i != j && box_seq(grid@, b)[i]
                        != SudokuValue::Empty implies box_seq(grid@, b)[i] != box_seq(
                    grid@,
                    b,
                )[j] by {
                    assert(0 <= box_row(b, i) * 9 + box_col(b, i) < 81);
                }
            }
        }
        match grid.fill(0, 0) {
            Ok(_) => {},
            Err(_) => {
                return Err(SudokuError::StackUnderflow);
            },
        }
        let solution = grid;
        match grid.decimate(n) {
            Ok(_) => Ok((grid, solution)),
            Err(e) => Err(e),
        }
    }
}

} // verus!
