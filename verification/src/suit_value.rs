use crate::traits::Discardable;
use vstd::prelude::*;

verus! {

/// Rank of a suited card, from the ace (`_1`) up to the King.
#[derive(Copy, Clone, Debug, Eq, PartialEq, Structural, Hash)]
pub enum SuitValue {
    _1,
    _2,
    _3,
    _4,
    _5,
    _6,
    _7,
    _8,
    _9,
    _10,
    Jack,
    Knight,
    Queen,
    King,
}

impl SuitValue {
    /// Numeric rank: pips count 1 to 10, then Jack 11, Knight 12, Queen 13,
    /// King 14.
    pub open spec fn spec_rank(self) -> int {
        match self {
            SuitValue::_1 => 1,
            SuitValue::_2 => 2,
            SuitValue::_3 => 3,
            SuitValue::_4 => 4,
            SuitValue::_5 => 5,
            SuitValue::_6 => 6,
            SuitValue::_7 => 7,
            SuitValue::_8 => 8,
            SuitValue::_9 => 9,
            SuitValue::_10 => 10,
            SuitValue::Jack => 11,
            SuitValue::Knight => 12,
            SuitValue::Queen => 13,
            SuitValue::King => 14,
        }
    }

    /// Numeric rank: pips count 1 to 10, then Jack 11, Knight 12, Queen 13,
    /// King 14.
    pub fn rank(&self) -> (r: u8)
        ensures
            r == self.spec_rank(),
    {
        match self {
            SuitValue::_1 => 1,
            SuitValue::_2 => 2,
            SuitValue::_3 => 3,
            SuitValue::_4 => 4,
            SuitValue::_5 => 5,
            SuitValue::_6 => 6,
            SuitValue::_7 => 7,
            SuitValue::_8 => 8,
            SuitValue::_9 => 9,
            SuitValue::_10 => 10,
            SuitValue::Jack => 11,
            SuitValue::Knight => 12,
            SuitValue::Queen => 13,
            SuitValue::King => 14,
        }
    }

    /// The rank at a given numeric position, inverse of `rank`.
    pub fn from_rank(rank: u8) -> (r: SuitValue)
        requires
            1 <= rank <= 14,
        ensures
            r.spec_rank() == rank,
    {
        match rank {
            1 => SuitValue::_1,
            2 => SuitValue::_2,
            3 => SuitValue::_3,
            4 => SuitValue::_4,
            5 => SuitValue::_5,
            6 => SuitValue::_6,
            7 => SuitValue::_7,
            8 => SuitValue::_8,
            9 => SuitValue::_9,
            10 => SuitValue::_10,
            11 => SuitValue::Jack,
            12 => SuitValue::Knight,
            13 => SuitValue::Queen,
            _ => SuitValue::King,
        }
    }

    /// Point value in half-points: court cards are worth more, every pip
    /// card counts one half-point.
    pub open spec fn spec_points(self) -> int {
        match self {
            SuitValue::Jack => 3,
            SuitValue::Knight => 5,
            SuitValue::Queen => 7,
            SuitValue::King => 9,
            _ => 1,
        }
    }

    /// Point value in half-points: court cards are worth more, every pip
    /// card counts one half-point.
    pub fn points(&self) -> (r: i64)
        ensures
            r == self.spec_points(),
    {
        match self {
            SuitValue::Jack => 3,
            SuitValue::Knight => 5,
            SuitValue::Queen => 7,
            SuitValue::King => 9,
            _ => 1,
        }
    }
}

impl Discardable for SuitValue {
    open spec fn spec_discardable(&self) -> bool {
        *self != SuitValue::King
    }

    open spec fn spec_discardable_forced(&self) -> bool {
        *self != SuitValue::King
    }

    fn discardable(&self) -> (r: bool) {
        !matches!(self, SuitValue::King)
    }

    fn discardable_forced(&self) -> (r: bool) {
        !matches!(self, SuitValue::King)
    }
}

} // verus!
