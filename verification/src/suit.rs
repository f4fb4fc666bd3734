use vstd::prelude::*;

verus! {

/// One of the four ordinary suits.
#[derive(Copy, Clone, Debug, Eq, PartialEq, Structural, Hash)]
pub enum Suit {
    Heart,
    Spade,
    Diamond,
    Club,
}

impl Suit {
    /// Position of the suit in display order, also its sorting key.
    pub open spec fn spec_index(self) -> int {
        match self {
            Suit::Heart => 0,
            Suit::Spade => 1,
            Suit::Diamond => 2,
            Suit::Club => 3,
        }
    }

    /// Position of the suit in display order, also its sorting key.
    pub fn index(&self) -> (r: u8)
        ensures
            r == self.spec_index(),
    {
        match self {
            Suit::Heart => 0,
            Suit::Spade => 1,
            Suit::Diamond => 2,
            Suit::Club => 3,
        }
    }

    /// The suit at a given position in display order.
    pub fn from_index(index: u8) -> (r: Suit)
        requires
            index < 4,
        ensures
            r.spec_index() == index,
    {
        match index {
            0 => Suit::Heart,
            1 => Suit::Spade,
            2 => Suit::Diamond,
            _ => Suit::Club,
        }
    }

    /// Plain one-character symbol for the suit.
    pub fn symbol(&self) -> &'static str {
        match self {
            Suit::Spade => "S",
            Suit::Diamond => "D",
            Suit::Club => "C",
            Suit::Heart => "H",
        }
    }
}

} // verus!
