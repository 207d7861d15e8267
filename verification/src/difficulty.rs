//! The three difficulty levels a player can pick, each standing for a
//! number of revealed hints.

use vstd::prelude::*;

verus! {

/// A difficulty level; harder levels reveal fewer hints.
#[derive(Clone, Copy, Debug, PartialEq, Eq, Structural)]
pub enum Difficulty {
    Hard,
    Medium,
    Easy,
}

impl Difficulty {
    /// The number of hints a puzzle of this difficulty reveals.
    pub open spec fn spec_hints(self) -> int {
        match self {
            Difficulty::Hard => 30,
            Difficulty::Medium => 40,
            Difficulty::Easy => 50,
        }
    }

    /// The next harder level; `Hard` stays `Hard`.
    pub fn up(self) -> (r: Self)
        ensures
            r == (match self {
                Difficulty::Hard => Difficulty::Hard,
                Difficulty::Medium => Difficulty::Hard,
                Difficulty::Easy => Difficulty::Medium,
            }),
    {
        match self {
            Difficulty::Hard => Difficulty::Hard,
            Difficulty::Medium => Difficulty::Hard,
            Difficulty::Easy => Difficulty::Medium,
        }
    }

    /// The next easier level; `Easy` stays `Easy`.
    pub fn down(self) -> (r: Self)
        ensures
            r == (match self {
                Difficulty::Hard => Difficulty::Medium,
                Difficulty::Medium => Difficulty::Easy,
                Difficulty::Easy => Difficulty::Easy,
            }),
    {
        match self {
            Difficulty::Hard => Difficulty::Medium,
            Difficulty::Medium => Difficulty::Easy,
            Difficulty::Easy => Difficulty::Easy,
        }
    }

    /// The hint count of this level, for the puzzle constructor.
    pub fn hints(self) -> (n: usize)
        ensures
            n == self.spec_hints(),
    {
        match self {
            Difficulty::Hard => 30,
            Difficulty::Medium => 40,
            Difficulty::Easy => 50,
        }
    }
}

} // verus!
