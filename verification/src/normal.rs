use crate::suit::Suit;
use crate::suit_value::SuitValue;
use crate::traits::{Discardable, Power};
use vstd::prelude::*;

verus! {

/// A suited card: a suit together with a rank.
#[derive(Copy, Clone, Debug, Eq, PartialEq, Structural, Hash)]
pub struct Normal {
    pub suit: Suit,
    pub value: SuitValue,
}

impl Normal {
    /// Build a suited card.
    pub fn new(suit: Suit, value: SuitValue) -> (r: Normal)
        ensures
            r.spec_suit() == suit,
            r.spec_value() == value,
    {
        Normal { suit, value }
    }

    /// The card's suit.
    pub open spec fn spec_suit(self) -> Suit {
        self.suit
    }

    /// The card's rank.
    pub open spec fn spec_value(self) -> SuitValue {
        self.value
    }

    /// The card's suit.
    pub fn suit(&self) -> (r: &Suit)
        ensures
            *r == self.spec_suit(),
    {
        &self.suit
    }

    /// The card's rank.
    pub fn value(&self) -> (r: &SuitValue)
        ensures
            *r == self.spec_value(),
    {
        &self.value
    }

    /// Point value in half-points, decided by the rank alone.
    pub open spec fn spec_points(self) -> int {
        self.value.spec_points()
    }

    /// Point value in half-points, decided by the rank alone.
    pub fn points(&self) -> (r: i64)
        ensures
            r == self.spec_points(),
    {
        self.value.points()
    }
}

impl Power for Normal {
    open spec fn spec_power(&self) -> int {
        self.value.spec_rank()
    }

    fn power(&self) -> (r: usize) {
        self.value.rank() as usize
    }
}

impl Discardable for Normal {
    open spec fn spec_discardable(&self) -> bool {
        self.value.spec_discardable()
    }

    open spec fn spec_discardable_forced(&self) -> bool {
        self.value.spec_discardable_forced()
    }

    fn discardable(&self) -> (r: bool) {
        self.value.discardable()
    }

    fn discardable_forced(&self) -> (r: bool) {
        self.value.discardable_forced()
    }
}

} // verus!
