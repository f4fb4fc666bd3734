use crate::normal::Normal;
use crate::suit::Suit;
use crate::suit_value::SuitValue;
use crate::traits::{Discardable, Power};
use crate::trump::Trump;
use vstd::prelude::*;

verus! {

/// A card of the game: either a trump or a suited card.
#[derive(Copy, Clone, Debug, Eq, PartialEq, Structural, Hash)]
pub enum Card {
    Trump(Trump),
    Normal(Normal),
}

impl Card {
    /// Build a suited card.
    pub fn normal(suit: Suit, value: SuitValue) -> (r: Card)
        ensures
            r == (Card::Normal(Normal { suit, value })),
            r.spec_points() == value.spec_points(),
    {
        Card::Normal(Normal::new(suit, value))
    }

    /// Whether this card is the Fool.
    pub open spec fn spec_is_fool(self) -> bool {
        self == Card::Trump(Trump::Fool)
    }

    /// Whether this card is the Fool.
    pub fn is_fool(self) -> (r: bool)
        ensures
            r == self.spec_is_fool(),
    {
        matches!(self, Card::Trump(Trump::Fool))
    }

    /// Whether this card is a trump (the Fool counts as one).
    pub open spec fn spec_is_trump(self) -> bool {
        matches!(self, Card::Trump(_))
    }

    /// Whether this card is a trump (the Fool counts as one).
    pub fn is_trump(self) -> (r: bool)
        ensures
            r == self.spec_is_trump(),
    {
        matches!(self, Card::Trump(_))
    }

    /// Whether this card is one of the three oudlers.
    pub open spec fn spec_is_oudler(self) -> bool {
        match self {
            Card::Trump(c) => c.spec_is_oudler(),
            Card::Normal(_) => false,
        }
    }

    /// Whether this card is one of the three oudlers.
    pub fn is_oudler(self) -> (r: bool)
        ensures
            r == self.spec_is_oudler(),
    {
        match self {
            Card::Trump(c) => c.is_oudler(),
            Card::Normal(_) => false,
        }
    }

    /// Point value of the card in half-points.
    pub open spec fn spec_points(self) -> int {
        match self {
            Card::Trump(v) => v.spec_points(),
            Card::Normal(n) => n.spec_points(),
        }
    }

    /// Point value of the card in half-points.
    pub fn points(&self) -> (r: i64)
        ensures
            r == self.spec_points(),
            1 <= r <= 9,
    {
        match self {
            Card::Trump(v) => v.points(),
            Card::Normal(n) => n.points(),
        }
    }

    /// Whether `self`, played after `arg`, beats it: a non-Fool trump beats
    /// any suited card and any lower trump; a suited card beats an earlier
    /// suited card only with a higher rank in the same suit, and stands
    /// against a card of another suit; the Fool beats nothing but a suited
    /// card never beats it either.
    pub open spec fn spec_master(self, arg: Card) -> bool {
        match (self, arg) {
            (Card::Trump(c), Card::Normal(_)) => c != Trump::Fool,
            (Card::Normal(_), Card::Trump(c)) => c == Trump::Fool,
            (Card::Normal(n1), Card::Normal(n2)) => n1.spec_suit() != n2.spec_suit()
                || n1.spec_value().spec_rank() > n2.spec_value().spec_rank(),
            (Card::Trump(v1), Card::Trump(v2)) => v1.spec_rank() > v2.spec_rank(),
        }
    }

    /// Whether `self`, played after `arg`, beats it; see `spec_master`.
    pub fn master(self, arg: Card) -> (r: bool)
        ensures
            r == self.spec_master(arg),
    {
        match (&self, &arg) {
            (Card::Trump(c), Card::Normal(_)) => !matches!(c, Trump::Fool),
            (Card::Normal(_), Card::Trump(c)) => matches!(c, Trump::Fool),
            (Card::Normal(n1), Card::Normal(n2)) => {
                n1.suit().index() != n2.suit().index() || n1.value().rank() > n2.value().rank()
            },
            (Card::Trump(v1), Card::Trump(v2)) => v1.rank() > v2.rank(),
        }
    }

    /// Key giving the display and sorting order of cards: all trumps by
    /// rank first, then each suit in display order by rank.
    pub open spec fn spec_sort_key(self) -> int {
        match self {
            Card::Trump(t) => t.spec_rank(),
            Card::Normal(n) => 100 + n.spec_suit().spec_index() * 20 + n.spec_value().spec_rank(),
        }
    }

    /// Key giving the display and sorting order of cards; see
    /// `spec_sort_key`.
    pub fn sort_key(&self) -> (r: u32)
        ensures
            r == self.spec_sort_key(),
    {
        match self {
            Card::Trump(t) => t.rank() as u32,
            Card::Normal(n) => 100 + (n.suit().index() as u32) * 20 + (n.value().rank() as u32),
        }
    }
}

impl Power for Card {
    open spec fn spec_power(&self) -> int {
        match *self {
            Card::Trump(v) => v.spec_rank() + SuitValue::King.spec_rank(),
            Card::Normal(n) => n.spec_power(),
        }
    }

    fn power(&self) -> (r: usize) {
        match self {
            Card::Trump(v) => (v.rank() + 14) as usize,
            Card::Normal(n) => n.power(),
        }
    }
}

impl Discardable for Card {
    open spec fn spec_discardable(&self) -> bool {
        match *self {
            Card::Trump(t) => t.spec_discardable(),
            Card::Normal(n) => n.spec_discardable(),
        }
    }

    open spec fn spec_discardable_forced(&self) -> bool {
        match *self {
            Card::Trump(t) => t.spec_discardable_forced(),
            Card::Normal(n) => n.spec_discardable_forced(),
        }
    }

    fn discardable(&self) -> (r: bool) {
        match self {
            Card::Trump(t) => t.discardable(),
            Card::Normal(n) => n.discardable(),
        }
    }

    fn discardable_forced(&self) -> (r: bool) {
        match self {
            Card::Trump(t) => t.discardable_forced(),
            Card::Normal(n) => n.discardable_forced(),
        }
    }
}

} // verus!
