//! The 9x9 grid: its mathematical model (rows, columns, boxes, duplicate
//! freedom), the query and mutation surface, and the validity checkers.

use vstd::prelude::*;
use crate::value::SudokuValue;

verus! {

/// The ways an operation on a grid can fail.
#[derive(Clone, Copy, Debug, PartialEq, Eq, Structural)]
pub enum SudokuError {
    /// A row or column index outside 0..=8.
    OutOfRange,
    /// A hint count outside 17..=81.
    InvalidHintCount,
    /// A text encoding of the wrong length, or with a character that is
    /// not a decimal digit.
    MalformedEncoding,
    /// A rollback was attempted with no recorded removal.  This signals a
    /// logic defect and is unreachable from valid inputs.
    StackUnderflow,
}

/// The cell of `s` at row `r`, column `c`, in the row-major model.
pub open spec fn grid_cell(s: Seq<SudokuValue>, r: int, c: int) -> SudokuValue {
    s[r * 9 + c]
}

/// The index of the 3x3 box containing row `r`, column `c`.
pub open spec fn box_of(r: int, c: int) -> int {
    (r / 3) * 3 + c / 3
}

/// The row of the `k`-th cell of box `b`.
pub open spec fn box_row(b: int, k: int) -> int {
    (b / 3) * 3 + k / 3
}

/// The column of the `k`-th cell of box `b`.
pub open spec fn box_col(b: int, k: int) -> int {
    (b % 3) * 3 + k % 3
}

/// The nine cells of row `r`, left to right.
pub open spec fn row_seq(s: Seq<SudokuValue>, r: int) -> Seq<SudokuValue> {
    Seq::new(9, |c: int| grid_cell(s, r, c))
}

/// The nine cells of column `c`, top to bottom.
pub open spec fn col_seq(s: Seq<SudokuValue>, c: int) -> Seq<SudokuValue> {
    Seq::new(9, |r: int| grid_cell(s, r, c))
}

/// The nine cells of box `b`, row-major within the box.
pub open spec fn box_seq(s: Seq<SudokuValue>, b: int) -> Seq<SudokuValue> {
    Seq::new(9, |k: int| grid_cell(s, box_row(b, k), box_col(b, k)))
}

/// No non-empty value occurs twice in `q`.
pub open spec fn no_dup_values(q: Seq<SudokuValue>) -> bool {
    forall|i: int, j: int|
        0 <= i < q.len() && 0 <= j < q.len() && i != j && q[i] != SudokuValue::Empty
            ==> q[i] != q[j]
}

pub open spec fn row_valid(s: Seq<SudokuValue>, r: int) -> bool {
    no_dup_values(row_seq(s, r))
}

pub open spec fn col_valid(s: Seq<SudokuValue>, c: int) -> bool {
    no_dup_values(col_seq(s, c))
}

pub open spec fn box_valid(s: Seq<SudokuValue>, b: int) -> bool {
    no_dup_values(box_seq(s, b))
}

/// Every row, column and box of `s` is free of duplicate non-empty values.
pub open spec fn grid_valid(s: Seq<SudokuValue>) -> bool {
    &&& forall|r: int| 0 <= r < 9 ==> row_valid(s, r)
    &&& forall|c: int| 0 <= c < 9 ==> col_valid(s, c)
    &&& forall|b: int| 0 <= b < 9 ==> box_valid(s, b)
}

/// Every cell of `s` holds a digit.
pub open spec fn grid_full(s: Seq<SudokuValue>) -> bool {
    forall|i: int| 0 <= i < 81 ==> s[i] != SudokuValue::Empty
}

/// `s` is a completely and correctly solved grid.
pub open spec fn solved_spec(s: Seq<SudokuValue>) -> bool {
    s.len() == 81 && grid_full(s) && grid_valid(s)
}

/// How many cells of `q` hold the value `v`.
pub open spec fn count_val(q: Seq<SudokuValue>, v: SudokuValue) -> nat
    decreases q.len(),
{
    if q.len() == 0 {
        0
    } else {
        count_val(q.drop_last(), v) + if q.last() == v {
            1nat
        } else {
            0nat
        }
    }
}

/// A count of zero means the value is absent.
pub proof fn lemma_count_zero_iff(q: Seq<SudokuValue>, v: SudokuValue)
    ensures
        count_val(q, v) == 0 <==> (forall|i: int| 0 <= i < q.len() ==> q[i] != v),
    decreases q.len(),
{
    if q.len() > 0 {
        lemma_count_zero_iff(q.drop_last(), v);
        if count_val(q, v) == 0 {
            assert forall|i: int| 0 <= i < q.len() implies q[i] != v by {
                if i < q.len() - 1 {
                    assert(q.drop_last()[i] == q[i]);
                }
            }
        }
    }
}

/// A positive count exhibits an index holding the value.
pub proof fn lemma_count_pos_contains(q: Seq<SudokuValue>, v: SudokuValue)
    requires
        count_val(q, v) > 0,
    ensures
        exists|i: int| 0 <= i < q.len() && q[i] == v,
    decreases q.len(),
{
    if q.last() == v {
        assert(q[q.len() - 1] == v);
    } else {
        lemma_count_pos_contains(q.drop_last(), v);
        let i = choose|i: int| 0 <= i < q.drop_last().len() && q.drop_last()[i] == v;
        assert(q[i] == v);
    }
}

/// An index holding the value gives a positive count.
pub proof fn lemma_count_at_least_one(q: Seq<SudokuValue>, v: SudokuValue, i: int)
    requires
        0 <= i < q.len(),
        q[i] == v,
    ensures
        count_val(q, v) >= 1,
    decreases q.len(),
{
    if i < q.len() - 1 {
        assert(q.drop_last()[i] == v);
        lemma_count_at_least_one(q.drop_last(), v, i);
    }
}

/// In a sequence without duplicate non-empty values, a digit occurs at most once.
pub proof fn lemma_count_at_most_one(q: Seq<SudokuValue>, v: SudokuValue)
    requires
        no_dup_values(q),
        v != SudokuValue::Empty,
    ensures
        count_val(q, v) <= 1,
    decreases q.len(),
{
    if q.len() > 0 {
        let butlast = q.drop_last();
        assert(no_dup_values(butlast)) by {
            assert forall|i: int, j: int|
                0 <= i < butlast.len() && 0 <= j < butlast.len() && i != j && butlast[i]
                    != SudokuValue::Empty implies butlast[i] != butlast[j] by {
                assert(butlast[i] == q[i] && butlast[j] == q[j]);
            }
        }
        lemma_count_at_most_one(butlast, v);
        if q.last() == v && count_val(butlast, v) > 0 {
            lemma_count_pos_contains(butlast, v);
            let i = choose|i: int| 0 <= i < butlast.len() && butlast[i] == v;
            assert(q[i] == v && q[q.len() - 1] == v);
        }
    }
}

/// How one update changes a value's count.
pub proof fn lemma_count_update(q: Seq<SudokuValue>, v: SudokuValue, i: int, x: SudokuValue)
    requires
        0 <= i < q.len(),
    ensures
        count_val(q.update(i, x), v) == count_val(q, v) - (if q[i] == v {
            1int
        } else {
            0int
        }) + (if x == v {
            1int
        } else {
            0int
        }),
    decreases q.len(),
{
    let q2 = q.update(i, x);
    if i == q.len() - 1 {
        assert(q2.drop_last() =~= q.drop_last());
    } else {
        assert(q2.drop_last() =~= q.drop_last().update(i, x));
        lemma_count_update(q.drop_last(), v, i, x);
    }
}

/// A region of nine distinct digits contains every digit: nine distinct
/// values drawn from nine possible digits leave none out.
pub proof fn lemma_full_region_contains_all(q: Seq<SudokuValue>, v: SudokuValue)
    requires
        q.len() == 9,
        no_dup_values(q),
        forall|i: int| 0 <= i < 9 ==> q[i] != SudokuValue::Empty,
        v != SudokuValue::Empty,
    ensures
        exists|i: int| 0 <= i < 9 && q[i] == v,
{
    let dq = Seq::new(9, |i: int| q[i].digit());
    assert(dq.no_duplicates()) by {
        assert forall|i: int, j: int| 0 <= i < 9 && 0 <= j < 9 && i != j implies dq[i] != dq[j] by {
            if q[i].digit() == q[j].digit() {
                q[i].lemma_digit_from_digit();
                q[j].lemma_digit_from_digit();
                assert(q[i] == q[j]);
            }
        }
    }
    dq.unique_seq_to_set();
    if !(exists|i: int| 0 <= i < 9 && q[i] == v) {
        assert(1 <= v.digit() <= 9);
        vstd::set_lib::lemma_int_range(1, 10);
        let allowed = vstd::set_lib::set_int_range(1, 10).remove(v.digit());
        assert(allowed.len() == 8);
        assert(dq.to_set().subset_of(allowed)) by {
            assert forall|x: int| dq.to_set().contains(x) implies allowed.contains(x) by {
                let i = choose|i: int| 0 <= i < dq.len() && dq[i] == x;
                assert(1 <= q[i].digit() <= 9);
                if x == v.digit() {
                    q[i].lemma_digit_from_digit();
                    v.lemma_digit_from_digit();
                    assert(q[i] == v);
                }
            }
        }
        vstd::set_lib::lemma_len_subset(dq.to_set(), allowed);
    }
}

/// In a solved grid the multiset of values of every row, every column
/// and every box is exactly the nine digits: each digit occurs once and
/// no cell is empty.
pub proof fn lemma_solved_region_counts(s: Seq<SudokuValue>, v: SudokuValue)
    requires
        solved_spec(s),
        v != SudokuValue::Empty,
    ensures
        forall|r: int| 0 <= r < 9 ==> count_val(row_seq(s, r), v) == 1,
        forall|c: int| 0 <= c < 9 ==> count_val(col_seq(s, c), v) == 1,
        forall|b: int| 0 <= b < 9 ==> count_val(box_seq(s, b), v) == 1,
        forall|r: int| 0 <= r < 9 ==> count_val(row_seq(s, r), SudokuValue::Empty) == 0,
        forall|c: int| 0 <= c < 9 ==> count_val(col_seq(s, c), SudokuValue::Empty) == 0,
        forall|b: int| 0 <= b < 9 ==> count_val(box_seq(s, b), SudokuValue::Empty) == 0,
{
    assert forall|r: int| 0 <= r < 9 implies count_val(row_seq(s, r), v) == 1 && count_val(
        row_seq(s, r),
        SudokuValue::Empty,
    ) == 0 by {
        let q = row_seq(s, r);
        assert(row_valid(s, r));
        assert forall|i: int| 0 <= i < 9 implies q[i] != SudokuValue::Empty by {
            assert(0 <= r * 9 + i < 81);
        }
        lemma_full_region_contains_all(q, v);
        let i = choose|i: int| 0 <= i < 9 && q[i] == v;
        lemma_count_at_least_one(q, v, i);
        lemma_count_at_most_one(q, v);
        lemma_count_zero_iff(q, SudokuValue::Empty);
    }
    assert forall|c: int| 0 <= c < 9 implies count_val(col_seq(s, c), v) == 1 && count_val(
        col_seq(s, c),
        SudokuValue::Empty,
    ) == 0 by {
        let q = col_seq(s, c);
        assert(col_valid(s, c));
        assert forall|i: int| 0 <= i < 9 implies q[i] != SudokuValue::Empty by {
            assert(0 <= i * 9 + c < 81);
        }
        lemma_full_region_contains_all(q, v);
        let i = choose|i: int| 0 <= i < 9 && q[i] == v;
        lemma_count_at_least_one(q, v, i);
        lemma_count_at_most_one(q, v);
        lemma_count_zero_iff(q, SudokuValue::Empty);
    }
    assert forall|b: int| 0 <= b < 9 implies count_val(box_seq(s, b), v) == 1 && count_val(
        box_seq(s, b),
        SudokuValue::Empty,
    ) == 0 by {
        let q = box_seq(s, b);
        assert(box_valid(s, b));
        assert forall|i: int| 0 <= i < 9 implies q[i] != SudokuValue::Empty by {
            assert(0 <= box_row(b, i) * 9 + box_col(b, i) < 81);
        }
        lemma_full_region_contains_all(q, v);
        let i = choose|i: int| 0 <= i < 9 && q[i] == v;
        lemma_count_at_least_one(q, v, i);
        lemma_count_at_most_one(q, v);
        lemma_count_zero_iff(q, SudokuValue::Empty);
    }
}

/// A 9x9 Sudoku grid, stored row-major.  Its view is the sequence of its
/// 81 cells.
#[derive(Clone, Copy, Debug, PartialEq, Eq)]
pub struct Sudoku {
    pub board: [SudokuValue; 81],
}

impl View for Sudoku {
    type V = Seq<SudokuValue>;

    open spec fn view(&self) -> Seq<SudokuValue> {
        self.board@
    }
}

impl Sudoku {
    /// A grid with every cell empty.
    pub fn empty() -> (s: Sudoku)
        ensures
            s@.len() == 81,
            forall|i: int| 0 <= i < 81 ==> s@[i] == SudokuValue::Empty,
    {
        Sudoku { board: [SudokuValue::Empty; 81] }
    }

    /// The value at the given indices, or `OutOfRange` for indices
    /// outside the grid.
    pub fn get(&self, r: usize, c: usize) -> (res: Result<SudokuValue, SudokuError>)
        ensures
            r < 9 && c < 9 ==> res == Ok::<SudokuValue, SudokuError>(grid_cell(self@, r as int, c as int)),
            !(r < 9 && c < 9) ==> res == Err::<SudokuValue, SudokuError>(SudokuError::OutOfRange),
    {
        if r < 9 && c < 9 {
            Ok(self.board[r * 9 + c])
        } else {
            Err(SudokuError::OutOfRange)
        }
    }

    /// Writes the value at the given indices.  No validity is enforced at
    /// write time; callers check placements with `check`.
    pub fn set(&mut self, r: usize, c: usize, val: SudokuValue)
        requires
            r < 9,
            c < 9,
        ensures
            final(self)@ == old(self)@.update(r * 9 + c, val),
    {
        self.board[r * 9 + c] = val;
    }

    /// How often the value occurs on the board.
    pub fn count(&self, val: SudokuValue) -> (n: usize)
        ensures
            n == count_val(self@, val),
    {
        let mut n: usize = 0;
        let mut i: usize = 0;
        while i < 81
            invariant
                i <= 81,
                n == count_val(self@.take(i as int), val),
                n <= i,
            decreases 81 - i,
        {
            proof {
                assert(self@.take(i + 1).drop_last() =~= self@.take(i as int));
                assert(self@.take(i + 1).last() == self@[i as int]);
            }
            if self.board[i] == val {
                n = n + 1;
            }
            i = i + 1;
        }
        proof {
            assert(self@.take(81) =~= self@);
        }
        n
    }

    /// The nine cells of a row; requires the row index to be in range.
    pub(crate) fn row_cells(&self, r: usize) -> (out: [SudokuValue; 9])
        requires
            r < 9,
        ensures
            out@ == row_seq(self@, r as int),
    {
        let b = r * 9;
        let out = [
            self.board[b],
            self.board[b + 1],
            self.board[b + 2],
            self.board[b + 3],
            self.board[b + 4],
            self.board[b + 5],
            self.board[b + 6],
            self.board[b + 7],
            self.board[b + 8],
        ];
        proof {
            assert(out@ =~= row_seq(self@, r as int));
        }
        out
    }

    /// The nine cells of a column; requires the column index to be in range.
    pub(crate) fn col_cells(&self, c: usize) -> (out: [SudokuValue; 9])
        requires
            c < 9,
        ensures
            out@ == col_seq(self@, c as int),
    {
        let out = [
            self.board[c],
            self.board[9 + c],
            self.board[18 + c],
            self.board[27 + c],
            self.board[36 + c],
            self.board[45 + c],
            self.board[54 + c],
            self.board[63 + c],
            self.board[72 + c],
        ];
        proof {
            assert(out@ =~= col_seq(self@, c as int));
        }
        out
    }

    /// The nine cells of the box containing the given indices, which must
    /// be in range.
    #[verifier::rlimit(30)]
    pub(crate) fn box_cells(&self, r: usize, c: usize) -> (out: [SudokuValue; 9])
        requires
            r < 9,
            c < 9,
        ensures
            out@ == box_seq(self@, box_of(r as int, c as int)),
    {
        let b = (r / 3) * 27 + (c / 3) * 3;
        let out = [
            self.board[b],
            self.board[b + 1],
            self.board[b + 2],
            self.board[b + 9],
            self.board[b + 10],
            self.board[b + 11],
            self.board[b + 18],
            self.board[b + 19],
            self.board[b + 20],
        ];
        proof {
            assert(out@ =~= box_seq(self@, box_of(r as int, c as int)));
        }
        out
    }

    /// The specified row, or `OutOfRange` for an index outside the grid.
    pub fn get_row(&self, r: usize) -> (res: Result<[SudokuValue; 9], SudokuError>)
        ensures
            r < 9 ==> (res matches Ok(out) && out@ == row_seq(self@, r as int)),
            r >= 9 ==> res == Err::<[SudokuValue; 9], SudokuError>(SudokuError::OutOfRange),
    {
        if r < 9 {
            Ok(self.row_cells(r))
        } else {
            Err(SudokuError::OutOfRange)
        }
    }

    /// The specified column, or `OutOfRange` for an index outside the grid.
    pub fn get_column(&self, c: usize) -> (res: Result<[SudokuValue; 9], SudokuError>)
        ensures
            c < 9 ==> (res matches Ok(out) && out@ == col_seq(self@, c as int)),
            c >= 9 ==> res == Err::<[SudokuValue; 9], SudokuError>(SudokuError::OutOfRange),
    {
        if c < 9 {
            Ok(self.col_cells(c))
        } else {
            Err(SudokuError::OutOfRange)
        }
    }

    /// The 3x3 box in which the given indices lie, or `OutOfRange` for
    /// indices outside the grid.
    pub fn get_square(&self, r: usize, c: usize) -> (res: Result<[SudokuValue; 9], SudokuError>)
        ensures
            r < 9 && c < 9 ==> (res matches Ok(out) && out@ == box_seq(
                self@,
                box_of(r as int, c as int),
            )),
            !(r < 9 && c < 9) ==> res == Err::<[SudokuValue; 9], SudokuError>(
                SudokuError::OutOfRange,
            ),
    {
        if r < 9 && c < 9 {
            Ok(self.box_cells(r, c))
        } else {
            Err(SudokuError::OutOfRange)
        }
    }

    /// Whether the row, column and box of the given cell are free of
    /// duplicate non-empty values.
    pub fn check(&self, r: usize, c: usize) -> (b: bool)
        requires
            r < 9,
            c < 9,
        ensures
            b == (row_valid(self@, r as int) && col_valid(self@, c as int) && box_valid(
                self@,
                box_of(r as int, c as int),
            )),
    {
        let row = self.row_cells(r);
        let col = self.col_cells(c);
        let sq = self.box_cells(r, c);
        has_no_dup(&row) && has_no_dup(&col) && has_no_dup(&sq)
    }

    /// Whether every row, column and box of the grid is free of duplicate
    /// non-empty values.  One representative cell per row suffices because
    /// the nine chosen cells also cover every column and every box once.
    pub fn check_all(&self) -> (b: bool)
        ensures
            b == grid_valid(self@),
    {
        let ok = self.check(0, 0) && self.check(1, 3) && self.check(2, 6) && self.check(3, 1)
            && self.check(4, 4) && self.check(5, 7) && self.check(6, 2) && self.check(7, 5)
            && self.check(8, 8);
        proof {
            if ok {
                assert forall|r: int| 0 <= r < 9 implies row_valid(self@, r) by {}
                assert forall|c: int| 0 <= c < 9 implies col_valid(self@, c) by {}
                assert forall|b2: int| 0 <= b2 < 9 implies box_valid(self@, b2) by {
                    assert(box_of(0, 0) == 0);
                    assert(box_of(1, 3) == 1);
                    assert(box_of(2, 6) == 2);
                    assert(box_of(3, 1) == 3);
                    assert(box_of(4, 4) == 4);
                    assert(box_of(5, 7) == 5);
                    assert(box_of(6, 2) == 6);
                    assert(box_of(7, 5) == 7);
                    assert(box_of(8, 8) == 8);
                }
            }
        }
        ok
    }

    /// Whether the grid is completely and correctly solved.
    pub fn solved(&self) -> (b: bool)
        ensures
            b == solved_spec(self@),
    {
        let empties = self.count(SudokuValue::Empty);
        proof {
            lemma_count_zero_iff(self@, SudokuValue::Empty);
        }
        if empties > 0 {
            false
        } else {
            self.check_all()
        }
    }
}

/// Whether no non-empty value occurs twice among the nine cells.
fn has_no_dup(vals: &[SudokuValue; 9]) -> (b: bool)
    ensures
        b == no_dup_values(vals@),
{
    let mut i: usize = 0;
    while i < 9
        invariant
            i <= 9,
            forall|a: int, b2: int|
                0 <= a < i && a < b2 < 9 && vals@[a] != SudokuValue::Empty ==> vals@[a]
                    != vals@[b2],
        decreases 9 - i,
    {
        let mut j: usize = i + 1;
        while j < 9
            invariant
                i < j <= 9,
                i < 9,
                forall|a: int, b2: int|
                    0 <= a < i && a < b2 < 9 && vals@[a] != SudokuValue::Empty ==> vals@[a]
                        != vals@[b2],
                forall|b2: int|
                    i < b2 < j && vals@[i as int] != SudokuValue::Empty ==> vals@[i as int]
                        != vals@[b2],
            decreases 9 - j,
        {
            if vals[i] != SudokuValue::Empty && vals[i] == vals[j] {
                proof {
                    assert(vals@[i as int] == vals@[j as int] && vals@[i as int]
                        != SudokuValue::Empty && i != j);
                }
                return false;
            }
            j = j + 1;
        }
        i = i + 1;
    }
    proof {
        assert forall|a: int, b2: int|
            0 <= a < 9 && 0 <= b2 < 9 && a != b2 && vals@[a] != SudokuValue::Empty implies vals@[a]
            != vals@[b2] by {
            if b2 < a && vals@[a] == vals@[b2] {
                assert(vals@[b2] != SudokuValue::Empty);
            }
        }
    }
    true
}

} // verus!
