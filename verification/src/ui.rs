//! Centering arithmetic for a terminal of a known size.  The presentation
//! layer reads the real terminal size and hands it in as plain numbers.

use vstd::prelude::*;
use vstd::string::StrSliceExecFns;

verus! {

/// How many lines a string occupies: one more than its newlines.
pub open spec fn line_count(t: Seq<char>) -> int
    decreases t.len(),
{
    if t.len() == 0 {
        1
    } else {
        line_count(t.drop_last()) + if t.last() == '\n' {
            1int
        } else {
            0int
        }
    }
}

/// A prefix of a string occupies at most as many lines as the whole.
proof fn lemma_line_count_prefix(t: Seq<char>, i: int)
    requires
        0 <= i <= t.len(),
    ensures
        line_count(t.take(i)) <= line_count(t),
    decreases t.len() - i,
{
    if i < t.len() {
        assert(t.take(i + 1).drop_last() =~= t.take(i));
        lemma_line_count_prefix(t, i + 1);
    } else {
        assert(t.take(i) =~= t);
    }
}

/// A terminal of a known width and height, in character cells.
#[derive(Clone, Copy)]
pub struct Terminal {
    pub width: u16,
    pub height: u16,
}

impl Terminal {
    pub fn new(width: u16, height: u16) -> (t: Terminal)
        ensures
            t.width == width,
            t.height == height,
    {
        Terminal { width, height }
    }

    /// The middle column of the terminal.
    pub fn h_center(self) -> (x: u16)
        ensures
            x == self.width / 2,
    {
        self.width / 2
    }

    /// The middle row of the terminal.
    pub fn v_center(self) -> (y: u16)
        ensures
            y == self.height / 2,
    {
        self.height / 2
    }

    /// The column at which the string starts when centered; the string
    /// must fit the width.
    pub fn h_center_str(self, string: &str) -> (x: u16)
        requires
            string@.len() <= self.width,
        ensures
            x == (self.width - string@.len()) / 2,
    {
        let l = string.unicode_len();
        (self.width - (l as u16)) / 2
    }

    /// The row at which the string's block of lines starts when centered
    /// vertically; the lines must fit the height.
    #[verifier::loop_isolation(false)]
    pub fn v_center_str(self, string: &str) -> (y: u16)
        requires
            line_count(string@) <= self.height,
        ensures
            y == (self.height - line_count(string@)) / 2,
    {
        let n = string.unicode_len();
        let mut lines: usize = 1;
        let mut i: usize = 0;
        while i < n
            invariant
                i <= n,
                lines == line_count(string@.take(i as int)),
            decreases n - i,
        {
            let c = string.get_char(i);
            proof {
                assert(string@.take(i + 1).drop_last() =~= string@.take(i as int));
                assert(string@.take(i + 1).last() == string@[i as int]);
                lemma_line_count_prefix(string@, i + 1);
            }
            if c == '\n' {
                lines = lines + 1;
            }
            i = i + 1;
        }
        proof {
            assert(string@.take(n as int) =~= string@);
        }
        (self.height - (lines as u16)) / 2
    }

    /// Records a new size; reports whether it differs from the old one.
    pub fn set_size(&mut self, width: u16, height: u16) -> (changed: bool)
        ensures
            final(self).width == width,
            final(self).height == height,
            changed == !(old(self).width == width && old(self).height == height),
    {
        if self.width != width || self.height != height {
            self.width = width;
            self.height = height;
            true
        } else {
            false
        }
    }
}

} // verus!
