use crate::traits::Discardable;
use vstd::prelude::*;

verus! {

/// A trump card: the Fool (rank 0), the Petit (rank 1), and the numbered
/// trumps up to 21.
#[derive(Copy, Clone, Debug, Eq, PartialEq, Structural, Hash)]
pub enum Trump {
    Fool,
    Petit,
    _2,
    _3,
    _4,
    _5,
    _6,
    _7,
    _8,
    _9,
    _10,
    _11,
    _12,
    _13,
    _14,
    _15,
    _16,
    _17,
    _18,
    _19,
    _20,
    _21,
}

impl Trump {
    /// Numeric rank of the trump: the Fool is 0, the Petit 1, the rest as
    /// numbered.
    pub open spec fn spec_rank(self) -> int {
        match self {
            Trump::Fool => 0,
            Trump::Petit => 1,
            Trump::_2 => 2,
            Trump::_3 => 3,
            Trump::_4 => 4,
            Trump::_5 => 5,
            Trump::_6 => 6,
            Trump::_7 => 7,
            Trump::_8 => 8,
            Trump::_9 => 9,
            Trump::_10 => 10,
            Trump::_11 => 11,
            Trump::_12 => 12,
            Trump::_13 => 13,
            Trump::_14 => 14,
            Trump::_15 => 15,
            Trump::_16 => 16,
            Trump::_17 => 17,
            Trump::_18 => 18,
            Trump::_19 => 19,
            Trump::_20 => 20,
            Trump::_21 => 21,
        }
    }

    /// Numeric rank of the trump: the Fool is 0, the Petit 1, the rest as
    /// numbered.
    pub fn rank(&self) -> (r: u8)
        ensures
            r == self.spec_rank(),
    {
        match self {
            Trump::Fool => 0,
            Trump::Petit => 1,
            Trump::_2 => 2,
            Trump::_3 => 3,
            Trump::_4 => 4,
            Trump::_5 => 5,
            Trump::_6 => 6,
            Trump::_7 => 7,
            Trump::_8 => 8,
            Trump::_9 => 9,
            Trump::_10 => 10,
            Trump::_11 => 11,
            Trump::_12 => 12,
            Trump::_13 => 13,
            Trump::_14 => 14,
            Trump::_15 => 15,
            Trump::_16 => 16,
            Trump::_17 => 17,
            Trump::_18 => 18,
            Trump::_19 => 19,
            Trump::_20 => 20,
            Trump::_21 => 21,
        }
    }

    /// The trump of a given numeric rank, inverse of `rank`.
    pub fn from_rank(rank: u8) -> (r: Trump)
        requires
            rank <= 21,
        ensures
            r.spec_rank() == rank,
    {
        match rank {
            0 => Trump::Fool,
            1 => Trump::Petit,
            2 => Trump::_2,
            3 => Trump::_3,
            4 => Trump::_4,
            5 => Trump::_5,
            6 => Trump::_6,
            7 => Trump::_7,
            8 => Trump::_8,
            9 => Trump::_9,
            10 => Trump::_10,
            11 => Trump::_11,
            12 => Trump::_12,
            13 => Trump::_13,
            14 => Trump::_14,
            15 => Trump::_15,
            16 => Trump::_16,
            17 => Trump::_17,
            18 => Trump::_18,
            19 => Trump::_19,
            20 => Trump::_20,
            _ => Trump::_21,
        }
    }

    /// The three oudlers: Fool, Petit, and the 21.
    pub open spec fn spec_is_oudler(self) -> bool {
        self == Trump::Fool || self == Trump::Petit || self == Trump::_21
    }

    /// The three oudlers: Fool, Petit, and the 21.
    pub fn is_oudler(&self) -> (r: bool)
        ensures
            r == self.spec_is_oudler(),
    {
        matches!(self, Trump::Fool | Trump::Petit | Trump::_21)
    }

    /// Point value in half-points: an oudler is worth nine, every other
    /// trump one.
    pub open spec fn spec_points(self) -> int {
        if self.spec_is_oudler() {
            9
        } else {
            1
        }
    }

    /// Point value in half-points: an oudler is worth nine, every other
    /// trump one.
    pub fn points(&self) -> (r: i64)
        ensures
            r == self.spec_points(),
    {
        if self.is_oudler() {
            9
        } else {
            1
        }
    }
}

impl Discardable for Trump {
    open spec fn spec_discardable(&self) -> bool {
        false
    }

    open spec fn spec_discardable_forced(&self) -> bool {
        !self.spec_is_oudler()
    }

    fn discardable(&self) -> (r: bool) {
        false
    }

    fn discardable_forced(&self) -> (r: bool) {
        !self.is_oudler()
    }
}

} // verus!
