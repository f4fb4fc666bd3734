use crate::card::Card;
use crate::deck::Deck;
use vstd::prelude::*;

verus! {

/// The first card of `s` that is not the Fool: the card naming the called
/// suit of a trick.
pub open spec fn spec_called(s: Seq<Card>) -> Option<Card>
    decreases s.len(),
{
    if s.len() == 0 {
        None
    } else if !s[0].spec_is_fool() {
        Some(s[0])
    } else {
        spec_called(s.drop_first())
    }
}

/// The cards of `s` that are not the Fool, in order.
pub open spec fn without_fool(s: Seq<Card>) -> Seq<Card> {
    s.filter(|c: Card| !c.spec_is_fool())
}

/// One trick: the cards played so far, in seat order, and the position of
/// the card currently winning it.
#[derive(Debug)]
pub struct Turn {
    pub master_index: Option<usize>,
    pub cards: Deck,
}

impl View for Turn {
    type V = Seq<Card>;

    open spec fn view(&self) -> Seq<Card> {
        self.cards@
    }
}

impl Default for Turn {
    /// A trick nobody has played into yet.
    fn default() -> (r: Turn)
        ensures
            r@ == Seq::<Card>::empty(),
            r.master_index is None,
    {
        Turn { master_index: None, cards: Deck::default() }
    }
}

impl Turn {
    /// The card marked master, read off the trick's state; nothing when no
    /// master is marked or the mark runs past the cards laid.
    pub open spec fn spec_master_card(self) -> Option<Card> {
        match self.master_index {
            Some(i) => if (i as int) < self@.len() {
                Some(self@[i as int])
            } else {
                None
            },
            None => None,
        }
    }

    /// Lay a card into the trick.
    pub fn put(&mut self, card: Card)
        ensures
            final(self)@ == old(self)@.push(card),
            final(self).master_index == old(self).master_index,
    {
        self.cards.push(card);
    }

    /// Number of cards laid so far.
    pub fn len(&self) -> (r: usize)
        ensures
            r == self@.len(),
    {
        self.cards.len()
    }

    /// Whether nobody has played yet.
    pub fn is_empty(&self) -> (r: bool)
        ensures
            r == (self@.len() == 0),
    {
        self.cards.is_empty()
    }

    /// The card that named the called suit: the first non-Fool card laid.
    pub fn called(&self) -> (r: Option<Card>)
        ensures
            r == spec_called(self@),
    {
        let mut i: usize = 0;
        proof {
            assert(self@.skip(0) =~= self@);
        }
        while i < self.cards.len()
            invariant
                i <= self@.len(),
                spec_called(self@) == spec_called(self@.skip(i as int)),
                forall|j: int| 0 <= j < i ==> self@[j].spec_is_fool(),
            decreases self@.len() - i,
        {
            let c = self.cards.get(i);
            proof {
                assert(self@.skip(i as int)[0] == self@[i as int]);
                assert(self@.skip(i as int).drop_first() =~= self@.skip(i + 1));
            }
            if !c.is_fool() {
                return Some(c);
            }
            i = i + 1;
        }
        proof {
            assert(self@.skip(self@.len() as int).len() == 0);
        }
        None
    }

    /// The card currently winning the trick, if any card has been laid
    /// and marked master.
    pub fn master_card(&self) -> (r: Option<Card>)
        requires
            self.master_index matches Some(i) ==> i < self@.len(),
        ensures
            r == (match self.master_index {
                Some(i) => Some(self@[i as int]),
                None => None,
            }),
    {
        match self.master_index {
            Some(i) => Some(self.cards.get(i)),
            None => None,
        }
    }

    /// Take every card of the trick but the Fool, which never follows the
    /// trick's winner outside the final trick.
    pub fn take_cards_except_fool(self) -> (r: Deck)
        ensures
            r@ == without_fool(self@),
    {
        let mut out: Vec<Card> = Vec::new();
        let mut i: usize = 0;
        proof {
            reveal_with_fuel(Seq::<Card>::filter, 2);
            assert(self@.take(0).len() == 0);
        }
        let n = self.cards.len();
        while i < n
            invariant
                n == self@.len(),
                i <= self@.len(),
                out@ == without_fool(self@.take(i as int)),
            decreases self@.len() - i,
        {
            proof {
                reveal_with_fuel(Seq::<Card>::filter, 2);
                assert(self@.take(i + 1).drop_last() =~= self@.take(i as int));
                assert(self@.take(i + 1).last() == self@[i as int]);
            }
            let c = self.cards.get(i);
            if !c.is_fool() {
                out.push(c);
            }
            i = i + 1;
        }
        proof {
            assert(self@.take(self@.len() as int) =~= self@);
        }
        Deck::new(out)
    }

    /// Take every card of the trick, Fool included: used for the final
    /// trick, where the Fool is an ordinary card.
    pub fn take_all_cards(self) -> (r: Deck)
        ensures
            r@ == self@,
    {
        self.cards
    }
}

} // verus!
