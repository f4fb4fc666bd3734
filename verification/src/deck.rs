use crate::card::Card;
use crate::errors::TarotErrorKind;
use crate::points::{MAX_CARDS, MAX_POINTS, MAX_POINTS_WITHOUT_FOOL};
use crate::suit::Suit;
use crate::suit_value::SuitValue;
use crate::traits::Discardable;
use crate::trump::Trump;
use rand::seq::SliceRandom;
use vstd::prelude::*;
use vstd::seq_lib::group_to_multiset_ensures;

verus! {

/// Sum of the point values of the cards of `s`, in half-points.
pub open spec fn points_sum(s: Seq<Card>) -> int
    decreases s.len(),
{
    if s.len() == 0 {
        0
    } else {
        points_sum(s.drop_last()) + s.last().spec_points()
    }
}

/// The trumps of `s`, in order.
pub open spec fn trumps_of(s: Seq<Card>) -> Seq<Card> {
    s.filter(|c: Card| c.spec_is_trump())
}

/// The suited cards of `s`, in order.
pub open spec fn colors_of(s: Seq<Card>) -> Seq<Card> {
    s.filter(|c: Card| !c.spec_is_trump())
}

/// The oudlers of `s`, in order.
pub open spec fn oudlers_of(s: Seq<Card>) -> Seq<Card> {
    s.filter(|c: Card| c.spec_is_oudler())
}

/// The suited cards of `s` with the given rank, in order.
pub open spec fn tetes_of(s: Seq<Card>, value: SuitValue) -> Seq<Card> {
    s.filter(|c: Card| matches!(c, Card::Normal(n) if n.spec_value() == value))
}

/// The positions of `s` whose card may be discarded under the normal rule.
pub open spec fn discardable_positions(s: Seq<Card>) -> Seq<int> {
    Seq::new(s.len() as nat, |i: int| i).filter(|i: int| s[i].spec_discardable())
}

/// The positions of `s` whose card may be discarded under the forced rule.
pub open spec fn discardable_forced_positions(s: Seq<Card>) -> Seq<int> {
    Seq::new(s.len() as nat, |i: int| i).filter(|i: int| s[i].spec_discardable_forced())
}

/// Number of trumps in `s`, counted card by card: the recursive twin of
/// `trumps_of(s).len()`, convenient for induction.
pub open spec fn trump_count(s: Seq<Card>) -> int
    decreases s.len(),
{
    if s.len() == 0 {
        0
    } else {
        trump_count(s.drop_last()) + (if s.last().spec_is_trump() {
            1int
        } else {
            0int
        })
    }
}

/// The card-by-card trump count is the length of the filtered trumps.
pub proof fn lemma_trump_count_is_trumps_len(s: Seq<Card>)
    ensures
        trump_count(s) == trumps_of(s).len(),
    decreases s.len(),
{
    reveal(Seq::filter);
    if s.len() > 0 {
        lemma_trump_count_is_trumps_len(s.drop_last());
    }
}

/// Moves the trump count across removal of the card at `i`.
pub proof fn lemma_trump_count_remove(s: Seq<Card>, i: int)
    requires
        0 <= i < s.len(),
    ensures
        trump_count(s) == trump_count(s.remove(i)) + (if s[i].spec_is_trump() {
            1int
        } else {
            0int
        }),
    decreases s.len(),
{
    if i == s.len() - 1 {
        assert(s.remove(i) =~= s.drop_last());
    } else {
        assert(s.remove(i).drop_last() =~= s.drop_last().remove(i));
        assert(s.remove(i).last() == s.last());
        lemma_trump_count_remove(s.drop_last(), i);
    }
}

/// The trump count does not depend on the order of the cards.
pub proof fn lemma_trump_count_permutation(s1: Seq<Card>, s2: Seq<Card>)
    requires
        s1.to_multiset() == s2.to_multiset(),
    ensures
        trump_count(s1) == trump_count(s2),
    decreases s1.len(),
{
    broadcast use group_to_multiset_ensures;

    if s1.len() == 0 {
        assert(s1.to_multiset().len() == s1.len());
        assert(s2.to_multiset().len() == s2.len());
    } else {
        let c = s1.last();
        assert(s1[s1.len() - 1] == c);
        assert(s1.contains(c));
        assert(s2.to_multiset().count(c) > 0);
        assert(s2.contains(c));
        let i = choose|i: int| 0 <= i < s2.len() && s2[i] == c;
        assert(s1.drop_last() =~= s1.remove(s1.len() - 1));
        assert(s1.drop_last().to_multiset() == s1.to_multiset().remove(c));
        assert(s2.remove(i).to_multiset() == s2.to_multiset().remove(c));
        lemma_trump_count_permutation(s1.drop_last(), s2.remove(i));
        lemma_trump_count_remove(s2, i);
    }
}

/// Whether a hand is a "petit sec": the Petit is the only trump it holds —
/// even the Fool would protect it — and the deal is void.
pub open spec fn is_petit_sec(s: Seq<Card>) -> bool {
    trumps_of(s).len() == 1 && s.contains(Card::Trump(Trump::Petit))
}

/// Whether a hand is a petit sec does not depend on the order of its
/// cards.
pub proof fn lemma_petit_sec_permutation(s1: Seq<Card>, s2: Seq<Card>)
    requires
        s1.to_multiset() == s2.to_multiset(),
    ensures
        is_petit_sec(s1) == is_petit_sec(s2),
{
    broadcast use group_to_multiset_ensures;

    lemma_trump_count_is_trumps_len(s1);
    lemma_trump_count_is_trumps_len(s2);
    lemma_trump_count_permutation(s1, s2);
    let petit = Card::Trump(Trump::Petit);
    assert(s1.contains(petit) == (s1.to_multiset().count(petit) > 0));
    assert(s2.contains(petit) == (s2.to_multiset().count(petit) > 0));
}

/// Whether `s` holds the Fool.
pub open spec fn has_fool_in(s: Seq<Card>) -> bool {
    s.contains(Card::Trump(Trump::Fool))
}

/// Whether `s` is the Fool alone.
pub open spec fn only_fool_in(s: Seq<Card>) -> bool {
    s.len() == 1 && has_fool_in(s)
}

/// Point value of a whole deck, in half-points. Two special cases guard
/// slam scoring: a deck of 77 cards missing the Fool is worth the fixed
/// near-slam value, and the Fool alone is worth four points rather than
/// its half-point.
pub open spec fn spec_deck_points(s: Seq<Card>) -> int {
    if s.len() == MAX_CARDS - 1 && !has_fool_in(s) {
        MAX_POINTS_WITHOUT_FOOL as int
    } else if only_fool_in(s) {
        8
    } else {
        points_sum(s)
    }
}

/// Whether the cards of `s` stand in display order: trumps by rank first,
/// then each suit by rank.
pub open spec fn is_sorted(s: Seq<Card>) -> bool {
    forall|i: int, j: int|
        0 <= i < j < s.len() ==> #[trigger] s[i].spec_sort_key() <= #[trigger] s[j].spec_sort_key()
}

/// An ordered pile of cards: a hand, the dog, a discard pile or a pile of
/// won tricks.
#[derive(Debug, PartialEq, Eq, Clone)]
pub struct Deck {
    cards: Vec<Card>,
}

impl View for Deck {
    type V = Seq<Card>;

    closed spec fn view(&self) -> Seq<Card> {
        self.cards@
    }
}

impl Default for Deck {
    /// The empty pile.
    fn default() -> (r: Deck)
        ensures
            r@ == Seq::<Card>::empty(),
    {
        let cards: Vec<Card> = Vec::new();
        proof {
            assert(cards@ =~= Seq::<Card>::empty());
        }
        Deck { cards }
    }
}

/// Moves the sum of point values of `s` across removal of the card at `i`.
pub proof fn lemma_points_sum_remove(s: Seq<Card>, i: int)
    requires
        0 <= i < s.len(),
    ensures
        points_sum(s) == points_sum(s.remove(i)) + s[i].spec_points(),
    decreases s.len(),
{
    if i == s.len() - 1 {
        assert(s.remove(i) =~= s.drop_last());
    } else {
        assert(s.remove(i).drop_last() =~= s.drop_last().remove(i));
        assert(s.remove(i).last() == s.last());
        lemma_points_sum_remove(s.drop_last(), i);
    }
}

/// The sum of point values does not depend on the order of the cards: two
/// piles holding the same cards are worth the same.
pub proof fn lemma_points_sum_permutation(s1: Seq<Card>, s2: Seq<Card>)
    requires
        s1.to_multiset() == s2.to_multiset(),
    ensures
        points_sum(s1) == points_sum(s2),
    decreases s1.len(),
{
    broadcast use group_to_multiset_ensures;

    if s1.len() == 0 {
        assert(s1.to_multiset().len() == s1.len());
        assert(s2.to_multiset().len() == s2.len());
    } else {
        let c = s1.last();
        assert(s1[s1.len() - 1] == c);
        assert(s1.contains(c));
        assert(s2.to_multiset().count(c) > 0);
        assert(s2.contains(c));
        let i = choose|i: int| 0 <= i < s2.len() && s2[i] == c;
        assert(s1.drop_last() =~= s1.remove(s1.len() - 1));
        assert(s1.drop_last().to_multiset() == s1.to_multiset().remove(c));
        assert(s2.remove(i).to_multiset() == s2.to_multiset().remove(c));
        lemma_points_sum_permutation(s1.drop_last(), s2.remove(i));
        lemma_points_sum_remove(s2, i);
        assert(points_sum(s1) == points_sum(s1.drop_last()) + c.spec_points());
    }
}

/// Relies on rand's `SliceRandom::shuffle` with the thread rng: it permutes
/// the slice in place, so the cards afterwards are exactly the cards
/// before, in some order.
#[verifier::external_body]
fn shuffle_cards(cards: &mut Vec<Card>)
    ensures
        final(cards)@.to_multiset() == old(cards)@.to_multiset(),
{
    cards.shuffle(&mut rand::rng());
}

/// Whether `c` is among the first cards laid out for a fresh deck: every
/// trump below `t`, every suited card of a suit before `si`, and the cards
/// of suit `si` itself with rank below `v`.
spec fn built_prefix(c: Card, t: int, si: int, v: int) -> bool {
    match c {
        Card::Trump(tr) => tr.spec_rank() < t,
        Card::Normal(n) => n.spec_suit().spec_index() * 20 + n.spec_value().spec_rank() < si * 20
            + v,
    }
}

/// Point total of the suited cards of one suit with rank below `v`, in
/// half-points.
spec fn suited_prefix_points(v: int) -> int {
    if v <= 11 {
        v - 1
    } else if v == 12 {
        13
    } else if v == 13 {
        18
    } else if v == 14 {
        25
    } else {
        34
    }
}

/// Point total of the trumps with rank below `t`, in half-points.
spec fn trump_prefix_points(t: int) -> int {
    if t <= 2 {
        9 * t
    } else if t <= 21 {
        16 + t
    } else {
        46
    }
}

impl Deck {
    /// Build a pile from the given cards, in the given order.
    pub fn new(cards: Vec<Card>) -> (r: Deck)
        ensures
            r@ == cards@,
    {
        Deck { cards }
    }

    /// A full deck of 78 distinct cards in a random order: every card
    /// appears exactly once, and the deck is worth the full 182
    /// half-points.
    pub fn random() -> (r: Deck)
        ensures
            r@.len() == MAX_CARDS,
            forall|c: Card| r@.to_multiset().count(c) == 1,
            points_sum(r@) == MAX_POINTS,
    {
        proof {
            broadcast use group_to_multiset_ensures;

        }
        let mut cards: Vec<Card> = Vec::new();
        let mut t: u8 = 0;
        while t < 22
            invariant
                t <= 22,
                cards@.len() == t,
                forall|c: Card|
                    #[trigger] cards@.to_multiset().count(c) == if built_prefix(c, t as int, 0, 1) {
                        1int
                    } else {
                        0int
                    },
                points_sum(cards@) == trump_prefix_points(t as int),
            decreases 22 - t,
        {
            let card = Card::Trump(Trump::from_rank(t));
            let ghost before = cards@;
            cards.push(card);
            proof {
                broadcast use group_to_multiset_ensures;

                assert(cards@ == before.push(card));
                assert(cards@.drop_last() =~= before);
                lemma_trump_rank_injective();
            }
            t = t + 1;
        }
        let mut si: u8 = 0;
        while si < 4
            invariant
                si <= 4,
                cards@.len() == 22 + 14 * si,
                forall|c: Card|
                    #[trigger] cards@.to_multiset().count(c) == if built_prefix(
                        c,
                        22,
                        si as int,
                        1,
                    ) {
                        1int
                    } else {
                        0int
                    },
                points_sum(cards@) == 46 + 34 * si,
            decreases 4 - si,
        {
            let mut v: u8 = 1;
            while v <= 14
                invariant
                    si < 4,
                    1 <= v <= 15,
                    cards@.len() == 22 + 14 * si + (v - 1),
                    forall|c: Card|
                        #[trigger] cards@.to_multiset().count(c) == if built_prefix(
                            c,
                            22,
                            si as int,
                            v as int,
                        ) {
                            1int
                        } else {
                            0int
                        },
                    points_sum(cards@) == 46 + 34 * si + suited_prefix_points(v as int),
                decreases 15 - v,
            {
                let card = Card::normal(Suit::from_index(si), SuitValue::from_rank(v));
                let ghost before = cards@;
                cards.push(card);
                proof {
                    broadcast use group_to_multiset_ensures;

                    assert(cards@ == before.push(card));
                    assert(cards@.drop_last() =~= before);
                    lemma_normal_key_injective();
                }
                v = v + 1;
            }
            si = si + 1;
        }
        let ghost built = cards@;
        shuffle_cards(&mut cards);
        proof {
            broadcast use group_to_multiset_ensures;

            assert(forall|c: Card| cards@.to_multiset().count(c) == 1int ==> cards@.to_multiset()
                .contains(c));
            lemma_points_sum_permutation(built, cards@);
            assert(cards@.to_multiset().len() == built.to_multiset().len());
        }
        Deck { cards }
    }

    /// Number of cards in the pile.
    pub fn len(&self) -> (r: usize)
        ensures
            r == self@.len(),
    {
        self.cards.len()
    }

    /// Whether the pile holds no card.
    pub fn is_empty(&self) -> (r: bool)
        ensures
            r == (self@.len() == 0),
    {
        self.cards.len() == 0
    }

    /// The card at the given position.
    pub fn get(&self, index: usize) -> (r: Card)
        requires
            index < self@.len(),
        ensures
            r == self@[index as int],
    {
        self.cards[index]
    }

    /// Whether the pile holds the given card.
    pub fn has(&self, card: &Card) -> (r: bool)
        ensures
            r == self@.contains(*card),
    {
        let mut i: usize = 0;
        while i < self.cards.len()
            invariant
                i <= self@.len(),
                forall|j: int| 0 <= j < i ==> self@[j] != *card,
            decreases self@.len() - i,
        {
            if self.cards[i].sort_key() == card.sort_key() {
                if self.cards[i] == *card {
                    return true;
                }
            }
            i = i + 1;
        }
        false
    }

    /// Whether the pile holds the Fool.
    pub fn has_fool(&self) -> (r: bool)
        ensures
            r == has_fool_in(self@),
    {
        self.has(&Card::Trump(Trump::Fool))
    }

    /// Whether the pile holds the Petit.
    pub fn has_petit(&self) -> (r: bool)
        ensures
            r == self@.contains(Card::Trump(Trump::Petit)),
    {
        self.has(&Card::Trump(Trump::Petit))
    }

    /// Whether the pile is the Fool alone.
    pub fn only_fool(&self) -> (r: bool)
        ensures
            r == only_fool_in(self@),
    {
        self.cards.len() == 1 && self.has_fool()
    }

    /// Append a card at the back of the pile.
    pub fn push(&mut self, card: Card)
        ensures
            final(self)@ == old(self)@.push(card),
    {
        self.cards.push(card);
    }

    /// Remove and return the card at the given position.
    pub fn remove(&mut self, index: usize) -> (r: Card)
        requires
            index < old(self)@.len(),
        ensures
            r == old(self)@[index as int],
            final(self)@ == old(self)@.remove(index as int),
    {
        self.cards.remove(index)
    }

    /// Append a copy of every card of `deck`, keeping their order.
    pub fn extend(&mut self, deck: &Deck)
        ensures
            final(self)@ == old(self)@ + deck@,
    {
        let mut i: usize = 0;
        while i < deck.cards.len()
            invariant
                i <= deck@.len(),
                self@ == old(self)@ + deck@.take(i as int),
            decreases deck@.len() - i,
        {
            self.cards.push(deck.cards[i]);
            proof {
                assert(old(self)@ + deck@.take(i + 1) =~= (old(self)@ + deck@.take(i as int)).push(
                    deck@[i as int],
                ));
            }
            i = i + 1;
        }
        proof {
            assert(deck@.take(deck@.len() as int) =~= deck@);
        }
    }

    /// Remove and return the first `size` cards, keeping their order.
    pub fn give(&mut self, size: usize) -> (r: Deck)
        requires
            size <= old(self)@.len(),
        ensures
            r@ == old(self)@.take(size as int),
            final(self)@ == old(self)@.skip(size as int),
    {
        let mut head = self.cards.split_off(size);
        core::mem::swap(&mut self.cards, &mut head);
        proof {
            assert(old(self)@.subrange(0, size as int) =~= old(self)@.take(size as int));
            assert(old(self)@.subrange(size as int, old(self)@.len() as int) =~= old(self)@.skip(
                size as int,
            ));
        }
        Deck { cards: head }
    }

    /// Remove and return every card, keeping their order.
    pub fn give_all(&mut self) -> (r: Deck)
        ensures
            r@ == old(self)@,
            final(self)@ == Seq::<Card>::empty(),
    {
        let n = self.cards.len();
        let r = self.give(n);
        proof {
            assert(old(self)@.take(n as int) =~= old(self)@);
            assert(old(self)@.skip(n as int) =~= Seq::<Card>::empty());
        }
        r
    }

    /// Remove and return the first half-point card, if the pile holds one:
    /// the card given away in the owed-card exchange.
    pub fn give_low(&mut self) -> (r: Option<Card>)
        ensures
            match r {
                Some(c) => exists|i: int|
                    0 <= i < old(self)@.len() && old(self)@[i].spec_points() == 1 && (forall|j: int|
                        0 <= j < i ==> old(self)@[j].spec_points() != 1) && c == old(self)@[i]
                        && final(self)@ == old(self)@.remove(i),
                None => final(self)@ == old(self)@ && (forall|i: int|
                    0 <= i < old(self)@.len() ==> old(self)@[i].spec_points() != 1),
            },
    {
        let mut i: usize = 0;
        while i < self.cards.len()
            invariant
                i <= self@.len(),
                self@ == old(self)@,
                forall|j: int| 0 <= j < i ==> self@[j].spec_points() != 1,
            decreases self@.len() - i,
        {
            if self.cards[i].points() == 1 {
                let c = self.remove(i);
                return Some(c);
            }
            i = i + 1;
        }
        None
    }

    /// Point value of the whole pile, in half-points; see
    /// `spec_deck_points` for the two slam-guarding special cases.
    pub fn points(&self) -> (r: i64)
        requires
            self@.len() * 9 <= i64::MAX,
        ensures
            r == spec_deck_points(self@),
    {
        if self.cards.len() == MAX_CARDS - 1 && !self.has_fool() {
            MAX_POINTS_WITHOUT_FOOL
        } else if self.only_fool() {
            8
        } else {
            let mut total: i64 = 0;
            let mut i: usize = 0;
            while i < self.cards.len()
                invariant
                    self@.len() * 9 <= i64::MAX,
                    i <= self@.len(),
                    total == points_sum(self@.take(i as int)),
                    0 <= total <= 9 * i,
                decreases self@.len() - i,
            {
                proof {
                    assert(self@.take(i + 1).drop_last() =~= self@.take(i as int));
                    assert(self@.take(i + 1).last() == self@[i as int]);
                }
                total = total + self.cards[i].points();
                i = i + 1;
            }
            proof {
                assert(self@.take(self@.len() as int) =~= self@);
            }
            total
        }
    }

    /// Whether the pile is worth a grand slam: the full-deck total, or the
    /// fixed near-slam total when the Fool went to the other side.
    pub fn is_chelem(&self) -> (r: bool)
        requires
            self@.len() * 9 <= i64::MAX,
        ensures
            r == (spec_deck_points(self@) == MAX_POINTS || spec_deck_points(self@)
                == MAX_POINTS_WITHOUT_FOOL),
    {
        let p = self.points();
        p == MAX_POINTS || p == MAX_POINTS_WITHOUT_FOOL
    }

    /// A copy of the pile, card for card.
    pub fn duplicate(&self) -> (r: Deck)
        ensures
            r@ == self@,
    {
        let mut out: Vec<Card> = Vec::new();
        let mut i: usize = 0;
        while i < self.cards.len()
            invariant
                i <= self@.len(),
                out@ == self@.take(i as int),
            decreases self@.len() - i,
        {
            out.push(self.cards[i]);
            proof {
                assert(self@.take(i + 1) =~= self@.take(i as int).push(self@[i as int]));
            }
            i = i + 1;
        }
        proof {
            assert(self@.take(self@.len() as int) =~= self@);
        }
        Deck { cards: out }
    }

    /// Split the pile into its trumps and its suited cards, each in their
    /// original order.
    pub fn trumps_and_colors(&self) -> (r: (Vec<Card>, Vec<Card>))
        ensures
            r.0@ == trumps_of(self@),
            r.1@ == colors_of(self@),
    {
        let mut trumps: Vec<Card> = Vec::new();
        let mut colors: Vec<Card> = Vec::new();
        let mut i: usize = 0;
        proof {
            reveal_with_fuel(Seq::<Card>::filter, 2);
            assert(self@.take(0).len() == 0);
        }
        while i < self.cards.len()
            invariant
                i <= self@.len(),
                trumps@ == trumps_of(self@.take(i as int)),
                colors@ == colors_of(self@.take(i as int)),
            decreases self@.len() - i,
        {
            proof {
                reveal_with_fuel(Seq::<Card>::filter, 2);
                assert(self@.take(i + 1).drop_last() =~= self@.take(i as int));
                assert(self@.take(i + 1).last() == self@[i as int]);
            }
            let c = self.cards[i];
            if c.is_trump() {
                trumps.push(c);
            } else {
                colors.push(c);
            }
            i = i + 1;
        }
        proof {
            assert(self@.take(self@.len() as int) =~= self@);
        }
        (trumps, colors)
    }

    /// The trumps of the pile, in their original order.
    pub fn trumps(&self) -> (r: Vec<Card>)
        ensures
            r@ == trumps_of(self@),
    {
        let (trumps, _) = self.trumps_and_colors();
        trumps
    }

    /// The oudlers of the pile, in their original order.
    fn oudlers(&self) -> (r: Vec<Card>)
        ensures
            r@ == oudlers_of(self@),
    {
        let mut out: Vec<Card> = Vec::new();
        let mut i: usize = 0;
        proof {
            reveal_with_fuel(Seq::<Card>::filter, 2);
            assert(self@.take(0).len() == 0);
        }
        while i < self.cards.len()
            invariant
                i <= self@.len(),
                out@ == oudlers_of(self@.take(i as int)),
            decreases self@.len() - i,
        {
            proof {
                reveal_with_fuel(Seq::<Card>::filter, 2);
                assert(self@.take(i + 1).drop_last() =~= self@.take(i as int));
                assert(self@.take(i + 1).last() == self@[i as int]);
            }
            let c = self.cards[i];
            if c.is_oudler() {
                out.push(c);
            }
            i = i + 1;
        }
        proof {
            assert(self@.take(self@.len() as int) =~= self@);
        }
        out
    }

    /// How many trumps the pile holds.
    pub fn count_trumps(&self) -> (r: usize)
        ensures
            r == trumps_of(self@).len(),
    {
        self.trumps().len()
    }

    /// How many oudlers the pile holds.
    pub fn count_oudlers(&self) -> (r: usize)
        ensures
            r == oudlers_of(self@).len(),
    {
        self.oudlers().len()
    }

    /// How many suited cards of the given rank the pile holds.
    pub fn count_tete(&self, value: SuitValue) -> (r: usize)
        ensures
            r == tetes_of(self@, value).len(),
    {
        let mut n: usize = 0;
        let mut i: usize = 0;
        proof {
            reveal_with_fuel(Seq::<Card>::filter, 2);
            assert(self@.take(0).len() == 0);
        }
        while i < self.cards.len()
            invariant
                i <= self@.len(),
                n == tetes_of(self@.take(i as int), value).len(),
                n <= i,
            decreases self@.len() - i,
        {
            proof {
                reveal_with_fuel(Seq::<Card>::filter, 2);
                assert(self@.take(i + 1).drop_last() =~= self@.take(i as int));
                assert(self@.take(i + 1).last() == self@[i as int]);
            }
            let is_tete = match &self.cards[i] {
                Card::Normal(n) => n.value().rank() == value.rank(),
                Card::Trump(_) => false,
            };
            proof {
                lemma_normal_key_injective();
            }
            if is_tete {
                n = n + 1;
            }
            i = i + 1;
        }
        proof {
            assert(self@.take(self@.len() as int) =~= self@);
        }
        n
    }

    /// Whether the hand holds no half-point suited card at all: the misere
    /// of court cards.
    pub fn misere_tete(&self) -> (r: bool)
        ensures
            r == (forall|i: int| #![trigger self@[i]]
                0 <= i < self@.len() ==> !(self@[i] matches Card::Normal(n) && n.spec_points()
                    == 1)),
    {
        let mut i: usize = 0;
        while i < self.cards.len()
            invariant
                i <= self@.len(),
                forall|j: int| #![trigger self@[j]]
                    0 <= j < i ==> !(self@[j] matches Card::Normal(n) && n.spec_points() == 1),
            decreases self@.len() - i,
        {
            match &self.cards[i] {
                Card::Normal(n) => {
                    if n.points() == 1 {
                        return false;
                    }
                },
                Card::Trump(_) => {},
            }
            i = i + 1;
        }
        true
    }

    /// Whether the hand is a "petit sec": the Petit is the only trump it
    /// holds, which voids the deal.
    pub fn petit_sec(&self) -> (r: bool)
        ensures
            r == is_petit_sec(self@),
    {
        self.count_trumps() == 1 && self.has_petit()
    }

    /// The positions a discard may be taken from: the positions of the
    /// normally discardable cards when at least `discard` of them exist,
    /// otherwise the positions allowed under the forced rule.
    pub fn discardables(&self, discard: usize) -> (r: Vec<usize>)
        ensures
            ({
                let chosen = if discardable_positions(self@).len() >= discard {
                    discardable_positions(self@)
                } else {
                    discardable_forced_positions(self@)
                };
                r@.len() == chosen.len() && (forall|k: int|
                    #![trigger r@[k]]
                    0 <= k < r@.len() ==> r@[k] as int == chosen[k])
            }),
    {
        let ghost ids = Seq::new(self@.len() as nat, |i: int| i);
        let mut normal: Vec<usize> = Vec::new();
        let mut forced: Vec<usize> = Vec::new();
        let mut i: usize = 0;
        proof {
            reveal_with_fuel(Seq::<int>::filter, 2);
            assert(ids.take(0).len() == 0);
            assert(discardable_positions(self@) == ids.filter(
                |i: int| self@[i].spec_discardable(),
            ));
        }
        while i < self.cards.len()
            invariant
                i <= self@.len(),
                ids == Seq::new(self@.len() as nat, |i: int| i),
                ({
                    let pn = ids.take(i as int).filter(|i: int| self@[i].spec_discardable());
                    normal@.len() == pn.len() && (forall|k: int|
                        #![trigger normal@[k]]
                        0 <= k < normal@.len() ==> normal@[k] as int == pn[k])
                }),
                ({
                    let pf = ids.take(i as int).filter(|i: int| self@[i].spec_discardable_forced());
                    forced@.len() == pf.len() && (forall|k: int|
                        #![trigger forced@[k]]
                        0 <= k < forced@.len() ==> forced@[k] as int == pf[k])
                }),
            decreases self@.len() - i,
        {
            proof {
                reveal_with_fuel(Seq::<int>::filter, 2);
                assert(ids.take(i + 1).drop_last() =~= ids.take(i as int));
                assert(ids.take(i + 1).last() == i);
            }
            let c = self.cards[i];
            if c.discardable() {
                normal.push(i);
            }
            if c.discardable_forced() {
                forced.push(i);
            }
            i = i + 1;
        }
        proof {
            assert(ids.take(self@.len() as int) =~= ids);
        }
        if normal.len() >= discard {
            normal
        } else {
            forced
        }
    }

    /// How many cards of the pile may be discarded under the normal rule.
    pub fn count_discardable(&self) -> (r: usize)
        ensures
            r == discardable_positions(self@).len(),
    {
        let ghost ids = Seq::new(self@.len() as nat, |i: int| i);
        let mut n: usize = 0;
        let mut i: usize = 0;
        proof {
            reveal_with_fuel(Seq::<int>::filter, 2);
            assert(ids.take(0).len() == 0);
            assert(discardable_positions(self@) == ids.filter(
                |i: int| self@[i].spec_discardable(),
            ));
        }
        while i < self.cards.len()
            invariant
                i <= self@.len(),
                n <= i,
                ids == Seq::new(self@.len() as nat, |i: int| i),
                n == ids.take(i as int).filter(|i: int| self@[i].spec_discardable()).len(),
            decreases self@.len() - i,
        {
            proof {
                reveal_with_fuel(Seq::<int>::filter, 2);
                assert(ids.take(i + 1).drop_last() =~= ids.take(i as int));
                assert(ids.take(i + 1).last() == i);
            }
            if self.cards[i].discardable() {
                n = n + 1;
            }
            i = i + 1;
        }
        proof {
            assert(ids.take(self@.len() as int) =~= ids);
        }
        n
    }

    /// The score the taker must reach, decided by how many oudlers the pile
    /// holds: 56, 51, 41 or 36 points for zero to three oudlers, in
    /// half-points. More than three oudlers cannot occur in a lawful deal
    /// and is reported as an error carrying the offending cards.
    pub fn points_for_oudlers(&self) -> (r: Result<i64, TarotErrorKind>)
        ensures
            oudlers_of(self@).len() == 0 ==> r == Ok::<i64, TarotErrorKind>(112i64),
            oudlers_of(self@).len() == 1 ==> r == Ok::<i64, TarotErrorKind>(102i64),
            oudlers_of(self@).len() == 2 ==> r == Ok::<i64, TarotErrorKind>(82i64),
            oudlers_of(self@).len() == 3 ==> r == Ok::<i64, TarotErrorKind>(72i64),
            oudlers_of(self@).len() > 3 ==> (r matches Err(TarotErrorKind::InvalidOudlersCount(d))
                && d@ == oudlers_of(self@)),
    {
        let n = self.count_oudlers();
        if n == 0 {
            Ok(112)
        } else if n == 1 {
            Ok(102)
        } else if n == 2 {
            Ok(82)
        } else if n == 3 {
            Ok(72)
        } else {
            Err(TarotErrorKind::InvalidOudlersCount(Deck { cards: self.oudlers() }))
        }
    }

    /// Put the pile in display order: trumps by rank first, then each suit
    /// by rank; the cards themselves are unchanged.
    pub fn sort(&mut self)
        ensures
            final(self)@.to_multiset() == old(self)@.to_multiset(),
            final(self)@.len() == old(self)@.len(),
            is_sorted(final(self)@),
    {
        proof {
            broadcast use group_to_multiset_ensures;

        }
        let mut rest: Vec<Card> = Vec::new();
        core::mem::swap(&mut self.cards, &mut rest);
        let mut out: Vec<Card> = Vec::new();
        while rest.len() > 0
            invariant
                out@.to_multiset().add(rest@.to_multiset()) == old(self)@.to_multiset(),
                out@.len() + rest@.len() == old(self)@.len(),
                is_sorted(out@),
                forall|a: int, b: int|
                    0 <= a < out@.len() && 0 <= b < rest@.len() ==> #[trigger] out@[a].spec_sort_key()
                        <= #[trigger] rest@[b].spec_sort_key(),
            decreases rest@.len(),
        {
            let mut mi: usize = 0;
            let mut i: usize = 1;
            while i < rest.len()
                invariant
                    mi < i <= rest@.len(),
                    rest@.len() > 0,
                    forall|j: int|
                        0 <= j < i ==> rest@[mi as int].spec_sort_key() <= #[trigger] rest@[j].spec_sort_key(),
                decreases rest@.len() - i,
            {
                if rest[i].sort_key() < rest[mi].sort_key() {
                    mi = i;
                }
                i = i + 1;
            }
            let ghost old_rest = rest@;
            let ghost old_out = out@;
            let c = rest.remove(mi);
            out.push(c);
            proof {
                broadcast use group_to_multiset_ensures;

                assert(old_rest[mi as int] == c);
                assert(old_rest.contains(c));
                assert(old_rest.to_multiset().count(c) > 0);
                assert(rest@.to_multiset() == old_rest.to_multiset().remove(c));
                assert(out@.to_multiset() == old_out.to_multiset().insert(c));
                assert(out@.to_multiset().add(rest@.to_multiset()) =~= old_out.to_multiset().add(
                    old_rest.to_multiset(),
                ));
                assert(forall|b: int|
                    0 <= b < rest@.len() ==> #[trigger] rest@[b].spec_sort_key()
                        >= c.spec_sort_key()) by {
                    assert forall|b: int| 0 <= b < rest@.len() implies #[trigger] rest@[b].spec_sort_key()
                        >= c.spec_sort_key() by {
                        if b < mi {
                            assert(rest@[b] == old_rest[b]);
                        } else {
                            assert(rest@[b] == old_rest[b + 1]);
                        }
                    }
                }
            }
        }
        self.cards = out;
    }
}

/// Trumps of equal rank are the same trump.
pub proof fn lemma_trump_rank_injective()
    ensures
        forall|a: Trump, b: Trump| a.spec_rank() == b.spec_rank() ==> a == b,
{
}

/// Suited cards agreeing on the combined suit-and-rank key are the same
/// card.
pub proof fn lemma_normal_key_injective()
    ensures
        forall|a: Suit, b: Suit| a.spec_index() == b.spec_index() ==> a == b,
        forall|a: SuitValue, b: SuitValue| a.spec_rank() == b.spec_rank() ==> a == b,
{
}

} // verus!
