use crate::card::Card;
use crate::contract::Contract;
use crate::deck::{
    discardable_positions, has_fool_in, is_petit_sec, oudlers_of, spec_deck_points, tetes_of,
    trumps_of, Deck,
};
use crate::errors::TarotErrorKind;
use crate::handle::Handle;
use crate::mode::Mode;
use crate::options::Options;
use crate::player::Player;
use crate::role::Role;
use crate::suit::Suit;
use crate::suit_value::SuitValue;
use crate::team::Team;
use crate::trump::Trump;
use crate::turn::{spec_called, Turn};
use crate::traits::Discardable;
use vstd::prelude::*;

verus! {

/// A seat's state within one deal: its hand, the cards it won, its
/// discard, and the role, team and declarations the deal gave it.
#[derive(Debug, PartialEq, Eq, Clone)]
pub struct PlayerInGame {
    pub mode: Mode,
    pub options: Options,
    pub slam: bool,
    pub team: Option<Team>,
    pub role: Option<Role>,
    pub discard: Deck,
    pub hand: Deck,
    pub owned: Deck,
    pub callee: Option<Card>,
    pub handle: Option<Handle>,
}

impl PlayerInGame {
    /// A fresh seat with empty piles and nothing assigned.
    pub fn new(mode: Mode, options: Options) -> (r: PlayerInGame)
        ensures
            r.mode == mode,
            r.options == options,
            r.slam == false,
            r.team is None,
            r.role is None,
            r.discard@ == Seq::<Card>::empty(),
            r.hand@ == Seq::<Card>::empty(),
            r.owned@ == Seq::<Card>::empty(),
            r.callee is None,
            r.handle is None,
    {
        PlayerInGame {
            mode,
            options,
            slam: false,
            team: None,
            role: None,
            discard: Deck::default(),
            hand: Deck::default(),
            owned: Deck::default(),
            callee: None,
            handle: None,
        }
    }

    /// Whether the hand is a petit sec, which voids the deal.
    pub fn petit_sec(&self) -> (r: bool)
        ensures
            r == is_petit_sec(self.hand@),
    {
        self.hand.petit_sec()
    }

    /// Record the called card for this deal.
    pub fn set_callee(&mut self, callee: Option<Card>)
        ensures
            *final(self) == (PlayerInGame { callee, ..*old(self) }),
    {
        self.callee = callee;
    }

    /// Put the seat on a side of the deal.
    pub fn set_team(&mut self, team: Team)
        ensures
            *final(self) == (PlayerInGame { team: Some(team), ..*old(self) }),
    {
        self.team = Some(team);
    }

    /// Give the seat its role for the deal.
    pub fn set_role(&mut self, role: Role)
        ensures
            *final(self) == (PlayerInGame { role: Some(role), ..*old(self) }),
    {
        self.role = Some(role);
    }

    /// The called card, if one was named.
    pub fn callee(&self) -> (r: Option<Card>)
        ensures
            r == self.callee,
    {
        self.callee
    }

    /// Whether the hand holds the given card.
    pub fn has(&self, card: &Card) -> (r: bool)
        ensures
            r == self.hand@.contains(*card),
    {
        self.hand.has(card)
    }

    /// Replace the seat's discard pile with a copy of the given pile.
    pub fn set_discard(&mut self, discard: &Deck)
        ensures
            final(self).discard@ == discard@,
            *final(self) == (PlayerInGame { discard: final(self).discard, ..*old(self) }),
    {
        self.discard = discard.duplicate();
    }

    /// Everything the seat's side banks at scoring: the won cards and the
    /// discard.
    pub fn all_cards(&self) -> (r: Deck)
        ensures
            r@ == self.owned@ + self.discard@,
    {
        let mut all_cards = self.owned.duplicate();
        all_cards.extend(&self.discard);
        all_cards
    }

    /// Put one won card on the seat's pile.
    pub fn push_owned(&mut self, card: Card)
        ensures
            final(self).owned@ == old(self).owned@.push(card),
            *final(self) == (PlayerInGame { owned: final(self).owned, ..*old(self) }),
    {
        self.owned.push(card);
    }

    /// Add the given cards to the hand and put it back in display order.
    pub fn extend_hand(&mut self, deck: &Deck)
        ensures
            final(self).hand@.to_multiset() == old(self).hand@.to_multiset().add(
                deck@.to_multiset(),
            ),
            final(self).hand@.len() == old(self).hand@.len() + deck@.len(),
            crate::deck::is_sorted(final(self).hand@),
            *final(self) == (PlayerInGame { hand: final(self).hand, ..*old(self) }),
    {
        let ghost old_hand = self.hand@;
        self.hand.extend(deck);
        proof {
            vstd::seq_lib::lemma_multiset_commutative(old_hand, deck@);
        }
        self.hand.sort();
    }

    /// Add the given cards to the seat's pile of won cards.
    pub fn extend_owned(&mut self, deck: &Deck)
        ensures
            final(self).owned@ == old(self).owned@ + deck@,
            *final(self) == (PlayerInGame { owned: final(self).owned, ..*old(self) }),
    {
        self.owned.extend(deck);
    }

    /// Whether this seat took the bidding.
    pub fn is_taker(&self) -> (r: bool)
        ensures
            r == (self.role == Some(Role::Taker)),
    {
        matches!(self.role, Some(Role::Taker))
    }

    /// The seat's role, if assigned.
    pub fn role(&self) -> (r: &Option<Role>)
        ensures
            *r == self.role,
    {
        &self.role
    }

    /// Whether the seat fights on the taker's side.
    pub fn is_attack(&self) -> (r: bool)
        ensures
            r == (self.team == Some(Team::Attack)),
    {
        matches!(self.team, Some(Team::Attack))
    }

    /// The seat's side, if assigned.
    pub fn team(&self) -> (r: &Option<Team>)
        ensures
            *r == self.team,
    {
        &self.team
    }

    /// The seat's declared handle, if any.
    pub fn handle(&self) -> (r: &Option<Handle>)
        ensures
            *r == self.handle,
    {
        &self.handle
    }

    /// Point value of the seat's winnings, in half-points.
    pub fn points(&self) -> (r: i64)
        requires
            self.owned@.len() * 9 <= i64::MAX,
        ensures
            r == spec_deck_points(self.owned@),
    {
        self.owned.points()
    }

    /// The taker's target for this deal, read off the oudlers in the
    /// winnings.
    pub fn points_for_oudlers(&self) -> (r: Result<i64, TarotErrorKind>)
        ensures
            oudlers_of(self.owned@).len() == 0 ==> r == Ok::<i64, TarotErrorKind>(112i64),
            oudlers_of(self.owned@).len() == 1 ==> r == Ok::<i64, TarotErrorKind>(102i64),
            oudlers_of(self.owned@).len() == 2 ==> r == Ok::<i64, TarotErrorKind>(82i64),
            oudlers_of(self.owned@).len() == 3 ==> r == Ok::<i64, TarotErrorKind>(72i64),
            oudlers_of(self.owned@).len() > 3 ==> (r matches Err(
                TarotErrorKind::InvalidOudlersCount(_),
            )),
    {
        self.owned.points_for_oudlers()
    }

    /// Whether the seat won the Fool but a stray card count shows it owes
    /// the other side a card for it.
    pub fn owe_card(&self) -> (r: bool)
        ensures
            r == (has_fool_in(self.owned@) && self.owned@.len() > 1 && self.owned@.len() as int
                % self.mode.spec_players() == 1),
    {
        self.owned.has_fool() && self.owned.len() > 1 && (self.owned.len() % self.mode.players()
            == 1)
    }

    /// Whether the seat's card count shows a card is owed to it.
    pub fn missing_card(&self) -> (r: bool)
        ensures
            r == (!has_fool_in(self.owned@) && self.owned@.len() > 1 && self.owned@.len() as int
                % self.mode.spec_players() == self.mode.spec_players() - 1),
    {
        !self.owned.has_fool() && self.owned.len() > 1 && (self.owned.len() % self.mode.players()
            == self.mode.players() - 1)
    }

    /// Give away the first half-point card of the winnings, if any: the
    /// owed-card exchange.
    pub fn give_low(&mut self) -> (r: Option<Card>)
        ensures
            *final(self) == (PlayerInGame { owned: final(self).owned, ..*old(self) }),
            match r {
                Some(c) => exists|i: int|
                    0 <= i < old(self).owned@.len() && old(self).owned@[i].spec_points() == 1 && (
                    forall|j: int| 0 <= j < i ==> old(self).owned@[j].spec_points() != 1) && c
                        == old(self).owned@[i] && final(self).owned@ == old(self).owned@.remove(i),
                None => final(self).owned@ == old(self).owned@ && (forall|i: int|
                    0 <= i < old(self).owned@.len() ==> old(self).owned@[i].spec_points() != 1),
            },
    {
        self.owned.give_low()
    }

    /// How many oudlers the seat's winnings hold.
    pub fn count_oudlers(&self) -> (r: usize)
        ensures
            r == oudlers_of(self.owned@).len(),
    {
        self.owned.count_oudlers()
    }

    /// Whether the seat has not yet played a card this deal.
    pub fn is_first_turn(&self) -> (r: bool)
        ensures
            r == (self.hand@.len() == self.mode.spec_cards_per_player()),
    {
        self.mode.cards_per_player() == self.hand.len()
    }

    /// Whether the seat has played every card.
    pub fn last_turn(&self) -> (r: bool)
        ensures
            r == (self.hand@.len() == 0),
    {
        self.hand.is_empty()
    }

    /// Whether the seat is one card from the end of the deal.
    pub fn before_last_turn(&self) -> (r: bool)
        ensures
            r == (self.hand@.len() == 1),
    {
        self.hand.len() == 1
    }

    /// Record the seat's slam answer; the announcement stands only when
    /// the configuration allows slams at all.
    pub fn announce_slam(&mut self, choice: bool) -> (r: bool)
        ensures
            final(self).slam == (choice && !old(self).options.no_slam),
            r == final(self).slam,
            *final(self) == (PlayerInGame { slam: final(self).slam, ..*old(self) }),
    {
        self.slam = choice && !self.options.no_slam;
        self.slam
    }

    /// The slam bonus the winnings are worth, in half-points: an announced
    /// and achieved slam is worth 400 points, a failed announcement or an
    /// empty pile costs 200, an unannounced slam earns 200.
    pub open spec fn spec_slam_bonus(self) -> int {
        let chelem = spec_deck_points(self.owned@) == crate::points::MAX_POINTS
            || spec_deck_points(self.owned@) == crate::points::MAX_POINTS_WITHOUT_FOOL;
        if self.slam {
            if chelem {
                800
            } else {
                -400
            }
        } else if chelem {
            400
        } else if self.owned@.len() == 0 || crate::deck::only_fool_in(self.owned@) {
            -400
        } else {
            0
        }
    }

    /// The slam bonus the winnings are worth; see `spec_slam_bonus`.
    pub fn slam_bonus(&self) -> (r: i64)
        requires
            self.owned@.len() * 9 <= i64::MAX,
        ensures
            r == self.spec_slam_bonus(),
    {
        if self.slam {
            if self.owned.is_chelem() {
                800
            } else {
                -400
            }
        } else if self.owned.is_chelem() {
            400
        } else if self.owned.is_empty() || self.owned.only_fool() {
            -400
        } else {
            0
        }
    }

    /// The handle tier the seat could declare: its trumps in hand and in
    /// the revealed discard, held against the table's thresholds.
    pub fn handle_tier(&self) -> (r: Option<Handle>)
        requires
            self.hand@.len() + self.owned@.len() <= usize::MAX,
        ensures
            r == self.mode.spec_handle(
                trumps_of(self.hand@).len() + trumps_of(self.owned@).len() as int,
            ),
    {
        let in_hand = self.hand.count_trumps();
        let revealed = self.owned.count_trumps();
        proof {
            broadcast use vstd::seq_lib::group_filter_ensures;

            assert(trumps_of(self.hand@).len() <= self.hand@.len());
            assert(trumps_of(self.owned@).len() <= self.owned@.len());
        }
        self.mode.handle(in_hand + revealed)
    }

    /// Record the seat's handle declaration: the chosen tier stands when
    /// the trumps reach it, anything else counts as refused; with too few
    /// trumps for any tier nothing is declared at all.
    pub fn announce_handle(&mut self, chosen: Handle) -> (r: Option<Handle>)
        requires
            old(self).hand@.len() + old(self).owned@.len() <= usize::MAX,
        ensures
            final(self).handle == (match old(self).mode.spec_handle(
                trumps_of(old(self).hand@).len() + trumps_of(old(self).owned@).len() as int,
            ) {
                None => None::<Handle>,
                Some(tier) => Some(
                    if chosen.spec_points() <= tier.spec_points() {
                        chosen
                    } else {
                        Handle::Refused
                    },
                ),
            }),
            r == final(self).handle,
            *final(self) == (PlayerInGame { handle: final(self).handle, ..*old(self) }),
    {
        let tier = self.handle_tier();
        self.handle = match tier {
            None => None,
            Some(t) => {
                if chosen.points() <= t.points() {
                    Some(chosen)
                } else {
                    Some(Handle::Refused)
                }
            },
        };
        self.handle
    }

    /// Remove the card at `index` from the hand and lay it on the discard:
    /// one step of building the taker's discard. The card must be allowed
    /// out under the discard rule: normally discardable when the hand
    /// still holds enough such cards for a whole dog, discardable under
    /// the forced rule otherwise; anything else is refused and changes
    /// nothing.
    pub fn discard(&mut self, index: usize) -> (r: Result<Card, TarotErrorKind>)
        ensures
            ({
                let enough = discardable_positions(old(self).hand@).len()
                    >= old(self).mode.spec_dog_size();
                let lawful = index < old(self).hand@.len() && (if enough {
                    old(self).hand@[index as int].spec_discardable()
                } else {
                    old(self).hand@[index as int].spec_discardable_forced()
                });
                if lawful {
                    r == Ok::<Card, TarotErrorKind>(old(self).hand@[index as int])
                        && final(self).hand@ == old(self).hand@.remove(index as int)
                        && final(self).discard@ == old(self).discard@.push(
                        old(self).hand@[index as int],
                    ) && *final(self) == (PlayerInGame {
                        hand: final(self).hand,
                        discard: final(self).discard,
                        ..*old(self)
                    })
                } else {
                    r == Err::<Card, TarotErrorKind>(TarotErrorKind::NoCard(index as usize))
                        && *final(self) == *old(self)
                }
            }),
    {
        if index >= self.hand.len() {
            return Err(TarotErrorKind::NoCard(index));
        }
        let enough = self.hand.count_discardable() >= self.mode.dog_size();
        let card = self.hand.get(index);
        let lawful = if enough {
            card.discardable()
        } else {
            card.discardable_forced()
        };
        if !lawful {
            return Err(TarotErrorKind::NoCard(index));
        }
        let card = self.hand.remove(index);
        self.discard.push(card);
        Ok(card)
    }

    /// Put the hand back in display order.
    pub fn sort_hand(&mut self)
        ensures
            final(self).hand@.to_multiset() == old(self).hand@.to_multiset(),
            final(self).hand@.len() == old(self).hand@.len(),
            crate::deck::is_sorted(final(self).hand@),
            *final(self) == (PlayerInGame { hand: final(self).hand, ..*old(self) }),
    {
        self.hand.sort();
    }

    /// Validate a contract choice against the bids still open: a choice
    /// outside the open list counts as a pass.
    pub fn choose_contract_among(&self, contracts: &Vec<Contract>, choice: Option<Contract>) -> (r:
        Option<Contract>)
        ensures
            choice is None ==> r is None,
            choice matches Some(c) ==> r == (if contracts@.contains(c) {
                Some(c)
            } else {
                None::<Contract>
            }),
    {
        match choice {
            Some(c) => {
                let mut i: usize = 0;
                while i < contracts.len()
                    invariant
                        choice == Some(c),
                        i <= contracts@.len(),
                        forall|j: int| 0 <= j < i ==> contracts@[j] != c,
                    decreases contracts@.len() - i,
                {
                    if contracts[i] == c {
                        proof {
                            assert(contracts@[i as int] == c);
                        }
                        return Some(c);
                    }
                    i = i + 1;
                }
                None
            },
            None => None,
        }
    }
}

/// A sequence of machine indices, as mathematical integers.
pub open spec fn to_ints(s: Seq<usize>) -> Seq<int> {
    s.map_values(|x: usize| x as int)
}

/// The positions of `s`, in order.
pub open spec fn ids_of(s: Seq<Card>) -> Seq<int> {
    Seq::new(s.len() as nat, |i: int| i)
}

/// Positions holding a suited card of the given suit.
pub open spec fn idx_same_suit(s: Seq<Card>, suit: Suit) -> Seq<int> {
    ids_of(s).filter(|i: int| s[i] matches Card::Normal(n) && n.spec_suit() == suit)
}

/// Positions holding a suited card of any other suit.
pub open spec fn idx_other_suit(s: Seq<Card>, suit: Suit) -> Seq<int> {
    ids_of(s).filter(|i: int| s[i] matches Card::Normal(n) && n.spec_suit() != suit)
}

/// Positions holding a suited card.
pub open spec fn idx_normal(s: Seq<Card>) -> Seq<int> {
    ids_of(s).filter(|i: int| s[i] matches Card::Normal(_))
}

/// Positions holding a trump other than the Fool.
pub open spec fn idx_trump_nonfool(s: Seq<Card>) -> Seq<int> {
    ids_of(s).filter(|i: int| s[i] matches Card::Trump(t) && t != Trump::Fool)
}

/// Positions holding a non-Fool trump above the given rank.
pub open spec fn idx_trump_more(s: Seq<Card>, rank: int) -> Seq<int> {
    ids_of(s).filter(
        |i: int| s[i] matches Card::Trump(t) && t != Trump::Fool && t.spec_rank() > rank,
    )
}

/// Positions holding a non-Fool trump at or below the given rank.
pub open spec fn idx_trump_less(s: Seq<Card>, rank: int) -> Seq<int> {
    ids_of(s).filter(
        |i: int| s[i] matches Card::Trump(t) && t != Trump::Fool && t.spec_rank() <= rank,
    )
}

/// Position of the last Fool in `s`, or a negative value when it holds
/// none.
pub open spec fn last_fool_index(s: Seq<Card>) -> int
    decreases s.len(),
{
    if s.len() == 0 {
        -1
    } else if s.last().spec_is_fool() {
        s.len() - 1
    } else {
        last_fool_index(s.drop_last())
    }
}

/// The Fool is always a legal play: its position joins any non-empty or
/// empty legal set.
pub open spec fn append_fool(idx: Seq<int>, s: Seq<Card>) -> Seq<int> {
    if last_fool_index(s) >= 0 {
        idx.push(last_fool_index(s))
    } else {
        idx
    }
}

/// The first non-empty set of a fallback chain of three.
pub open spec fn first_nonempty3(a: Seq<int>, b: Seq<int>, c: Seq<int>) -> Seq<int> {
    if a.len() > 0 {
        a
    } else if b.len() > 0 {
        b
    } else {
        c
    }
}

/// The first non-empty set of a fallback chain of four.
pub open spec fn first_nonempty4(a: Seq<int>, b: Seq<int>, c: Seq<int>, d: Seq<int>) -> Seq<int> {
    if a.len() > 0 {
        a
    } else {
        first_nonempty3(b, c, d)
    }
}

/// Whether a card may lead the taker's very first trick at five players:
/// anything but a suited card of the called suit with a rank other than
/// the callee's.
pub open spec fn spec_lead_allowed(c: Card, callee: Option<Card>) -> bool {
    match (c, callee) {
        (Card::Normal(n), Some(Card::Normal(cn))) => cn.spec_suit() != n.spec_suit()
            || n.spec_value() == cn.spec_value(),
        _ => true,
    }
}

/// Positions a first five-player trick may be led from.
pub open spec fn idx_lead_allowed(s: Seq<Card>, callee: Option<Card>) -> Seq<int> {
    ids_of(s).filter(|i: int| spec_lead_allowed(s[i], callee))
}

/// Whether the pair of called card and master card is a state a trick can
/// lawfully be in: nothing played yet, or a called suit under a suited or
/// trump master, or a called trump under a trump master.
pub open spec fn turn_state_ok(called: Option<Card>, master: Option<Card>) -> bool {
    match (called, master) {
        (None, None) => true,
        (Some(Card::Normal(_)), Some(_)) => true,
        (Some(Card::Trump(_)), Some(Card::Trump(_))) => true,
        _ => false,
    }
}

/// The positions of `hand` that may lawfully be played, given the trick's
/// called card and master card. With a suited card called one must follow
/// suit, else trump, else discard; with a trump master one must overtrump
/// when able, else undertrump, else discard; leading is free apart from
/// the five-player callee rule on the taker's first trick; and the Fool is
/// always legal.
pub open spec fn legal_play_indices(
    hand: Seq<Card>,
    called: Option<Card>,
    master: Option<Card>,
    first_turn_five: bool,
    callee: Option<Card>,
) -> Seq<int> {
    match (called, master) {
        (Some(Card::Normal(cn)), Some(Card::Normal(_))) => append_fool(
            first_nonempty3(
                idx_same_suit(hand, cn.spec_suit()),
                idx_trump_nonfool(hand),
                idx_other_suit(hand, cn.spec_suit()),
            ),
            hand,
        ),
        (Some(Card::Normal(cn)), Some(Card::Trump(mt))) => append_fool(
            first_nonempty4(
                idx_same_suit(hand, cn.spec_suit()),
                idx_trump_more(hand, mt.spec_rank()),
                idx_trump_less(hand, mt.spec_rank()),
                idx_other_suit(hand, cn.spec_suit()),
            ),
            hand,
        ),
        (Some(Card::Trump(_)), Some(Card::Trump(mt))) => append_fool(
            first_nonempty3(
                idx_trump_more(hand, mt.spec_rank()),
                idx_trump_less(hand, mt.spec_rank()),
                idx_normal(hand),
            ),
            hand,
        ),
        (None, None) => if first_turn_five {
            idx_lead_allowed(hand, callee)
        } else {
            ids_of(hand)
        },
        _ => Seq::<int>::empty(),
    }
}

/// Whatever survives a filter was in the sequence and satisfies the
/// predicate.
pub proof fn lemma_filter_elements<A>(s: Seq<A>, pred: spec_fn(A) -> bool)
    ensures
        forall|x: A| #[trigger] s.filter(pred).contains(x) ==> s.contains(x) && pred(x),
    decreases s.len(),
{
    reveal(Seq::filter);
    if s.len() > 0 {
        lemma_filter_elements(s.drop_last(), pred);
        assert forall|x: A| #[trigger] s.filter(pred).contains(x) implies s.contains(x) && pred(
            x,
        ) by {
            let sub = s.drop_last().filter(pred);
            if pred(s.last()) {
                let k = choose|k: int| 0 <= k < s.filter(pred).len() && s.filter(pred)[k] == x;
                if k < sub.len() {
                    assert(sub.contains(x));
                } else {
                    assert(x == s.last());
                    assert(s[s.len() - 1] == x);
                }
            } else {
                assert(sub.contains(x));
            }
            if s.drop_last().contains(x) {
                let j = choose|j: int| 0 <= j < s.drop_last().len() && s.drop_last()[j] == x;
                assert(s[j] == x);
            }
        }
    }
}

/// The last-Fool position is a real position holding the Fool, whenever
/// it is non-negative.
pub proof fn lemma_last_fool_index(s: Seq<Card>)
    ensures
        last_fool_index(s) >= 0 ==> 0 <= last_fool_index(s) < s.len() && s[last_fool_index(
            s,
        )].spec_is_fool(),
    decreases s.len(),
{
    if s.len() > 0 && !s.last().spec_is_fool() {
        lemma_last_fool_index(s.drop_last());
        if last_fool_index(s) >= 0 {
            assert(s.drop_last()[last_fool_index(s)] == s[last_fool_index(s)]);
        }
    }
}

/// Every legal play is a real position of the hand.
pub proof fn lemma_legal_play_indices_in_range(
    hand: Seq<Card>,
    called: Option<Card>,
    master: Option<Card>,
    first_turn_five: bool,
    callee: Option<Card>,
)
    ensures
        forall|k: int|
            0 <= k < legal_play_indices(hand, called, master, first_turn_five, callee).len()
                ==> 0 <= #[trigger] legal_play_indices(
                hand,
                called,
                master,
                first_turn_five,
                callee,
            )[k] < hand.len(),
{
    let ids = ids_of(hand);
    assert(forall|x: int| ids.contains(x) ==> 0 <= x < hand.len()) by {
        assert forall|x: int| ids.contains(x) implies 0 <= x < hand.len() by {
            let j = choose|j: int| 0 <= j < ids.len() && ids[j] == x;
        }
    }
    lemma_last_fool_index(hand);
    let L = legal_play_indices(hand, called, master, first_turn_five, callee);
    assert forall|k: int| 0 <= k < L.len() implies 0 <= #[trigger] L[k] < hand.len() by {
        match (called, master) {
            (Some(Card::Normal(cn)), Some(Card::Normal(_))) => {
                lemma_filter_elements(
                    ids,
                    |j: int| hand[j] matches Card::Normal(n) && n.spec_suit() == cn.spec_suit(),
                );
                lemma_filter_elements(
                    ids,
                    |j: int| hand[j] matches Card::Trump(t) && t != Trump::Fool,
                );
                lemma_filter_elements(
                    ids,
                    |j: int| hand[j] matches Card::Normal(n) && n.spec_suit() != cn.spec_suit(),
                );
                let base = first_nonempty3(
                    idx_same_suit(hand, cn.spec_suit()),
                    idx_trump_nonfool(hand),
                    idx_other_suit(hand, cn.spec_suit()),
                );
                if k < base.len() {
                    assert(base.contains(base[k]));
                }
            },
            (Some(Card::Normal(cn)), Some(Card::Trump(mt))) => {
                lemma_filter_elements(
                    ids,
                    |j: int| hand[j] matches Card::Normal(n) && n.spec_suit() == cn.spec_suit(),
                );
                lemma_filter_elements(
                    ids,
                    |j: int| hand[j] matches Card::Trump(t) && t != Trump::Fool && t.spec_rank()
                        > mt.spec_rank(),
                );
                lemma_filter_elements(
                    ids,
                    |j: int| hand[j] matches Card::Trump(t) && t != Trump::Fool && t.spec_rank()
                        <= mt.spec_rank(),
                );
                lemma_filter_elements(
                    ids,
                    |j: int| hand[j] matches Card::Normal(n) && n.spec_suit() != cn.spec_suit(),
                );
                let base = first_nonempty4(
                    idx_same_suit(hand, cn.spec_suit()),
                    idx_trump_more(hand, mt.spec_rank()),
                    idx_trump_less(hand, mt.spec_rank()),
                    idx_other_suit(hand, cn.spec_suit()),
                );
                if k < base.len() {
                    assert(base.contains(base[k]));
                }
            },
            (Some(Card::Trump(_)), Some(Card::Trump(mt))) => {
                lemma_filter_elements(
                    ids,
                    |j: int| hand[j] matches Card::Trump(t) && t != Trump::Fool && t.spec_rank()
                        > mt.spec_rank(),
                );
                lemma_filter_elements(
                    ids,
                    |j: int| hand[j] matches Card::Trump(t) && t != Trump::Fool && t.spec_rank()
                        <= mt.spec_rank(),
                );
                lemma_filter_elements(ids, |j: int| hand[j] matches Card::Normal(_));
                let base = first_nonempty3(
                    idx_trump_more(hand, mt.spec_rank()),
                    idx_trump_less(hand, mt.spec_rank()),
                    idx_normal(hand),
                );
                if k < base.len() {
                    assert(base.contains(base[k]));
                }
            },
            (None, None) => {
                if first_turn_five {
                    lemma_filter_elements(ids, |j: int| spec_lead_allowed(hand[j], callee));
                    assert(L.contains(L[k]));
                }
            },
            _ => {},
        }
    }
}

/// Picks the first non-empty candidate list and appends the Fool's
/// position, if the hand holds one.
fn pick3(
    a: Vec<usize>,
    b: Vec<usize>,
    c: Vec<usize>,
    fool: Option<usize>,
    Ghost(hand): Ghost<Seq<Card>>,
) -> (r: Vec<usize>)
    requires
        match fool {
            Some(f) => last_fool_index(hand) == f,
            None => last_fool_index(hand) < 0,
        },
    ensures
        to_ints(r@) == append_fool(first_nonempty3(to_ints(a@), to_ints(b@), to_ints(c@)), hand),
{
    let mut out = if a.len() > 0 {
        a
    } else if b.len() > 0 {
        b
    } else {
        c
    };
    let ghost base = out@;
    match fool {
        Some(f) => {
            out.push(f);
            proof {
                assert(to_ints(out@) =~= to_ints(base).push(f as int));
            }
        },
        None => {},
    }
    out
}

/// Picks the first non-empty of four candidate lists and appends the
/// Fool's position, if the hand holds one.
fn pick4(
    a: Vec<usize>,
    b: Vec<usize>,
    c: Vec<usize>,
    d: Vec<usize>,
    fool: Option<usize>,
    Ghost(hand): Ghost<Seq<Card>>,
) -> (r: Vec<usize>)
    requires
        match fool {
            Some(f) => last_fool_index(hand) == f,
            None => last_fool_index(hand) < 0,
        },
    ensures
        to_ints(r@) == append_fool(
            first_nonempty4(to_ints(a@), to_ints(b@), to_ints(c@), to_ints(d@)),
            hand,
        ),
{
    if a.len() > 0 {
        pick3(a, b, c, fool, Ghost(hand))
    } else {
        pick3(b, c, d, fool, Ghost(hand))
    }
}

impl PlayerInGame {
    /// The positions of the hand that may lawfully be played into the
    /// given trick; see `legal_play_indices`. A trick whose called card
    /// and master card disagree is reported as an inconsistent state.
    pub fn choices(&self, turn: &Turn) -> (r: Result<Vec<usize>, TarotErrorKind>)
        requires
            turn.master_index matches Some(i) ==> i < turn@.len(),
        ensures
            ({
                let called = spec_called(turn@);
                let master = turn.spec_master_card();
                if turn_state_ok(called, master) {
                    r matches Ok(v) && to_ints(v@) == legal_play_indices(
                        self.hand@,
                        called,
                        master,
                        self.hand@.len() == self.mode.spec_cards_per_player() && self.mode
                            == Mode::Five,
                        self.callee,
                    )
                } else {
                    r matches Err(TarotErrorKind::InvalidCase(_))
                }
            }),
    {
        let ghost hand = self.hand@;
        let ghost ids = ids_of(self.hand@);
        let called = turn.called();
        let master = turn.master_card();
        let n = self.hand.len();
        match (called, master) {
            (Some(Card::Normal(called_normal)), Some(Card::Normal(_))) => {
                let suit = *called_normal.suit();
                let mut same_color: Vec<usize> = Vec::new();
                let mut trumps: Vec<usize> = Vec::new();
                let mut other_colors: Vec<usize> = Vec::new();
                let mut and_fool: Option<usize> = None;
                let mut i: usize = 0;
                proof {
                    reveal_with_fuel(Seq::<int>::filter, 2);
                    assert(ids.take(0).len() == 0);
                    assert(hand.take(0).len() == 0);
                    assert(idx_same_suit(hand, suit) == ids.filter(
                        |j: int| hand[j] matches Card::Normal(n) && n.spec_suit() == suit,
                    ));
                    assert(idx_trump_nonfool(hand) == ids.filter(
                        |j: int| hand[j] matches Card::Trump(t) && t != Trump::Fool,
                    ));
                    assert(idx_other_suit(hand, suit) == ids.filter(
                        |j: int| hand[j] matches Card::Normal(n) && n.spec_suit() != suit,
                    ));
                }
                while i < n
                    invariant
                        n == hand.len(),
                        hand == self.hand@,
                        ids == ids_of(hand),
                        i <= n,
                        to_ints(same_color@) =~= ids.take(i as int).filter(
                            |j: int| hand[j] matches Card::Normal(n) && n.spec_suit() == suit,
                        ),
                        to_ints(trumps@) =~= ids.take(i as int).filter(
                            |j: int| hand[j] matches Card::Trump(t) && t != Trump::Fool,
                        ),
                        to_ints(other_colors@) =~= ids.take(i as int).filter(
                            |j: int| hand[j] matches Card::Normal(n) && n.spec_suit() != suit,
                        ),
                        match and_fool {
                            Some(f) => last_fool_index(hand.take(i as int)) == f,
                            None => last_fool_index(hand.take(i as int)) < 0,
                        },
                    decreases n - i,
                {
                    proof {
                        reveal_with_fuel(Seq::<int>::filter, 2);
                        assert(ids.take(i + 1).drop_last() =~= ids.take(i as int));
                        assert(ids.take(i + 1).last() == i);
                        assert(hand.take(i + 1).drop_last() =~= hand.take(i as int));
                        assert(hand.take(i + 1).last() == hand[i as int]);
                        crate::deck::lemma_trump_rank_injective();
                    }
                    let ghost sc = same_color@;
                    let ghost tr = trumps@;
                    let ghost oc = other_colors@;
                    let card = self.hand.get(i);
                    match card {
                        Card::Trump(t) => {
                            if t.rank() == 0 {
                                and_fool = Some(i);
                            } else {
                                trumps.push(i);
                                proof {
                                    assert(to_ints(trumps@) =~= to_ints(tr).push(i as int));
                                }
                            }
                        },
                        Card::Normal(card_normal) => {
                            if card_normal.suit().index() == suit.index() {
                                same_color.push(i);
                                proof {
                                    crate::deck::lemma_normal_key_injective();
                                    assert(to_ints(same_color@) =~= to_ints(sc).push(i as int));
                                }
                            } else {
                                other_colors.push(i);
                                proof {
                                    crate::deck::lemma_normal_key_injective();
                                    assert(to_ints(other_colors@) =~= to_ints(oc).push(i as int));
                                }
                            }
                        },
                    }
                    i = i + 1;
                }
                proof {
                    assert(ids.take(n as int) =~= ids);
                    assert(hand.take(n as int) =~= hand);
                }
                Ok(pick3(same_color, trumps, other_colors, and_fool, Ghost(hand)))
            },
            (Some(Card::Normal(called_normal)), Some(Card::Trump(master_trump))) => {
                let suit = *called_normal.suit();
                let master_rank = master_trump.rank();
                let ghost mrank = master_trump.spec_rank();
                let mut same_color: Vec<usize> = Vec::new();
                let mut trumps_more: Vec<usize> = Vec::new();
                let mut trumps_less: Vec<usize> = Vec::new();
                let mut other_colors: Vec<usize> = Vec::new();
                let mut and_fool: Option<usize> = None;
                let mut i: usize = 0;
                proof {
                    reveal_with_fuel(Seq::<int>::filter, 2);
                    assert(ids.take(0).len() == 0);
                    assert(hand.take(0).len() == 0);
                    assert(idx_same_suit(hand, suit) == ids.filter(
                        |j: int| hand[j] matches Card::Normal(n) && n.spec_suit() == suit,
                    ));
                    assert(idx_trump_more(hand, mrank) == ids.filter(
                        |j: int| hand[j] matches Card::Trump(t) && t != Trump::Fool
                            && t.spec_rank() > mrank,
                    ));
                    assert(idx_trump_less(hand, mrank) == ids.filter(
                        |j: int| hand[j] matches Card::Trump(t) && t != Trump::Fool
                            && t.spec_rank() <= mrank,
                    ));
                    assert(idx_other_suit(hand, suit) == ids.filter(
                        |j: int| hand[j] matches Card::Normal(n) && n.spec_suit() != suit,
                    ));
                }
                while i < n
                    invariant
                        n == hand.len(),
                        hand == self.hand@,
                        ids == ids_of(hand),
                        i <= n,
                        master_rank == mrank,
                        to_ints(same_color@) =~= ids.take(i as int).filter(
                            |j: int| hand[j] matches Card::Normal(n) && n.spec_suit() == suit,
                        ),
                        to_ints(trumps_more@) =~= ids.take(i as int).filter(
                            |j: int| hand[j] matches Card::Trump(t) && t != Trump::Fool
                                && t.spec_rank() > mrank,
                        ),
                        to_ints(trumps_less@) =~= ids.take(i as int).filter(
                            |j: int| hand[j] matches Card::Trump(t) && t != Trump::Fool
                                && t.spec_rank() <= mrank,
                        ),
                        to_ints(other_colors@) =~= ids.take(i as int).filter(
                            |j: int| hand[j] matches Card::Normal(n) && n.spec_suit() != suit,
                        ),
                        match and_fool {
                            Some(f) => last_fool_index(hand.take(i as int)) == f,
                            None => last_fool_index(hand.take(i as int)) < 0,
                        },
                    decreases n - i,
                {
                    proof {
                        reveal_with_fuel(Seq::<int>::filter, 2);
                        assert(ids.take(i + 1).drop_last() =~= ids.take(i as int));
                        assert(ids.take(i + 1).last() == i);
                        assert(hand.take(i + 1).drop_last() =~= hand.take(i as int));
                        assert(hand.take(i + 1).last() == hand[i as int]);
                        crate::deck::lemma_trump_rank_injective();
                    }
                    let ghost sc = same_color@;
                    let ghost tm = trumps_more@;
                    let ghost tl = trumps_less@;
                    let ghost oc = other_colors@;
                    let card = self.hand.get(i);
                    match card {
                        Card::Trump(t) => {
                            if t.rank() == 0 {
                                and_fool = Some(i);
                            } else if t.rank() > master_rank {
                                trumps_more.push(i);
                                proof {
                                    assert(to_ints(trumps_more@) =~= to_ints(tm).push(i as int));
                                }
                            } else {
                                trumps_less.push(i);
                                proof {
                                    assert(to_ints(trumps_less@) =~= to_ints(tl).push(i as int));
                                }
                            }
                        },
                        Card::Normal(card_normal) => {
                            if card_normal.suit().index() == suit.index() {
                                same_color.push(i);
                                proof {
                                    crate::deck::lemma_normal_key_injective();
                                    assert(to_ints(same_color@) =~= to_ints(sc).push(i as int));
                                }
                            } else {
                                other_colors.push(i);
                                proof {
                                    crate::deck::lemma_normal_key_injective();
                                    assert(to_ints(other_colors@) =~= to_ints(oc).push(i as int));
                                }
                            }
                        },
                    }
                    i = i + 1;
                }
                proof {
                    assert(ids.take(n as int) =~= ids);
                    assert(hand.take(n as int) =~= hand);
                }
                Ok(pick4(same_color, trumps_more, trumps_less, other_colors, and_fool, Ghost(hand)))
            },
            (Some(Card::Trump(_)), Some(Card::Trump(master_trump))) => {
                let master_rank = master_trump.rank();
                let ghost mrank = master_trump.spec_rank();
                let mut trumps_more: Vec<usize> = Vec::new();
                let mut trumps_less: Vec<usize> = Vec::new();
                let mut normals: Vec<usize> = Vec::new();
                let mut and_fool: Option<usize> = None;
                let mut i: usize = 0;
                proof {
                    reveal_with_fuel(Seq::<int>::filter, 2);
                    assert(ids.take(0).len() == 0);
                    assert(hand.take(0).len() == 0);
                    assert(idx_trump_more(hand, mrank) == ids.filter(
                        |j: int| hand[j] matches Card::Trump(t) && t != Trump::Fool
                            && t.spec_rank() > mrank,
                    ));
                    assert(idx_trump_less(hand, mrank) == ids.filter(
                        |j: int| hand[j] matches Card::Trump(t) && t != Trump::Fool
                            && t.spec_rank() <= mrank,
                    ));
                    assert(idx_normal(hand) == ids.filter(
                        |j: int| hand[j] matches Card::Normal(_),
                    ));
                }
                while i < n
                    invariant
                        n == hand.len(),
                        hand == self.hand@,
                        ids == ids_of(hand),
                        i <= n,
                        master_rank == mrank,
                        to_ints(trumps_more@) =~= ids.take(i as int).filter(
                            |j: int| hand[j] matches Card::Trump(t) && t != Trump::Fool
                                && t.spec_rank() > mrank,
                        ),
                        to_ints(trumps_less@) =~= ids.take(i as int).filter(
                            |j: int| hand[j] matches Card::Trump(t) && t != Trump::Fool
                                && t.spec_rank() <= mrank,
                        ),
                        to_ints(normals@) =~= ids.take(i as int).filter(
                            |j: int| hand[j] matches Card::Normal(_),
                        ),
                        match and_fool {
                            Some(f) => last_fool_index(hand.take(i as int)) == f,
                            None => last_fool_index(hand.take(i as int)) < 0,
                        },
                    decreases n - i,
                {
                    proof {
                        reveal_with_fuel(Seq::<int>::filter, 2);
                        assert(ids.take(i + 1).drop_last() =~= ids.take(i as int));
                        assert(ids.take(i + 1).last() == i);
                        assert(hand.take(i + 1).drop_last() =~= hand.take(i as int));
                        assert(hand.take(i + 1).last() == hand[i as int]);
                        crate::deck::lemma_trump_rank_injective();
                    }
                    let ghost tm = trumps_more@;
                    let ghost tl = trumps_less@;
                    let ghost nm = normals@;
                    let card = self.hand.get(i);
                    match card {
                        Card::Trump(t) => {
                            if t.rank() == 0 {
                                and_fool = Some(i);
                            } else if t.rank() > master_rank {
                                trumps_more.push(i);
                                proof {
                                    assert(to_ints(trumps_more@) =~= to_ints(tm).push(i as int));
                                }
                            } else {
                                trumps_less.push(i);
                                proof {
                                    assert(to_ints(trumps_less@) =~= to_ints(tl).push(i as int));
                                }
                            }
                        },
                        Card::Normal(_) => {
                            normals.push(i);
                            proof {
                                assert(to_ints(normals@) =~= to_ints(nm).push(i as int));
                            }
                        },
                    }
                    i = i + 1;
                }
                proof {
                    assert(ids.take(n as int) =~= ids);
                    assert(hand.take(n as int) =~= hand);
                }
                Ok(pick3(trumps_more, trumps_less, normals, and_fool, Ghost(hand)))
            },
            (None, None) => {
                let first_turn_five = self.is_first_turn() && matches!(self.mode, Mode::Five);
                let mut out: Vec<usize> = Vec::new();
                let mut i: usize = 0;
                if first_turn_five {
                    proof {
                        reveal_with_fuel(Seq::<int>::filter, 2);
                        assert(ids.take(0).len() == 0);
                        assert(idx_lead_allowed(hand, self.callee) == ids.filter(
                            |j: int| spec_lead_allowed(hand[j], self.callee),
                        ));
                    }
                    while i < n
                        invariant
                            n == hand.len(),
                            hand == self.hand@,
                            ids == ids_of(hand),
                            i <= n,
                            to_ints(out@) =~= ids.take(i as int).filter(
                                |j: int| spec_lead_allowed(hand[j], self.callee),
                            ),
                        decreases n - i,
                    {
                        proof {
                            reveal_with_fuel(Seq::<int>::filter, 2);
                            assert(ids.take(i + 1).drop_last() =~= ids.take(i as int));
                            assert(ids.take(i + 1).last() == i);
                        }
                        let ghost ot = out@;
                        let card = self.hand.get(i);
                        let allowed = match (card, self.callee) {
                            (Card::Normal(normal), Some(Card::Normal(callee_normal))) => {
                                callee_normal.suit().index() != normal.suit().index()
                                    || normal.value().rank() == callee_normal.value().rank()
                            },
                            _ => true,
                        };
                        proof {
                            crate::deck::lemma_normal_key_injective();
                            assert(allowed == spec_lead_allowed(hand[i as int], self.callee));
                        }
                        if allowed {
                            out.push(i);
                            proof {
                                assert(to_ints(out@) =~= to_ints(ot).push(i as int));
                            }
                        }
                        i = i + 1;
                    }
                    proof {
                        assert(ids.take(n as int) =~= ids);
                    }
                } else {
                    while i < n
                        invariant
                            n == hand.len(),
                            hand == self.hand@,
                            ids == ids_of(hand),
                            i <= n,
                            to_ints(out@) =~= ids.take(i as int),
                        decreases n - i,
                    {
                        let ghost ot = out@;
                        out.push(i);
                        proof {
                            assert(to_ints(out@) =~= to_ints(ot).push(i as int));
                            assert(ids.take(i + 1) =~= ids.take(i as int).push(i as int));
                        }
                        i = i + 1;
                    }
                    proof {
                        assert(ids.take(n as int) =~= ids);
                    }
                }
                Ok(out)
            },
            _ => Err(TarotErrorKind::InvalidCase(String::new())),
        }
    }

    /// Whether the count of won cards is consistent with whole tricks
    /// having been banked, the returned Fool counting as one extra card.
    pub open spec fn spec_owned_count_ok(self) -> bool {
        if has_fool_in(self.owned@) {
            self.owned@.len() as int % self.mode.spec_players() == 1
        } else {
            self.owned@.len() as int % self.mode.spec_players() == 0
        }
    }

    /// Play the card at position `choice` of the hand into the trick. The
    /// seat must have a role and a team, its winnings must show whole
    /// tricks, and the position must be a lawful play; the card leaves the
    /// hand and is returned.
    pub fn play_card(&mut self, player: &Player, turn: &Turn, choice: usize) -> (r: Result<
        Card,
        TarotErrorKind,
    >)
        requires
            turn.master_index matches Some(i) ==> i < turn@.len(),
        ensures
            ({
                let called = spec_called(turn@);
                let master = turn.spec_master_card();
                let legal = legal_play_indices(
                    old(self).hand@,
                    called,
                    master,
                    old(self).hand@.len() == old(self).mode.spec_cards_per_player() && old(
                        self,
                    ).mode == Mode::Five,
                    old(self).callee,
                );
                if old(self).role is None {
                    r matches Err(TarotErrorKind::NoRoleForPlayer(_)) && *final(self) == *old(self)
                } else if old(self).team is None {
                    r matches Err(TarotErrorKind::NoTeamForPlayer(_)) && *final(self) == *old(self)
                } else if !old(self).spec_owned_count_ok() {
                    r matches Err(TarotErrorKind::InvalidDeck(_)) && *final(self) == *old(self)
                } else if !turn_state_ok(called, master) {
                    r matches Err(TarotErrorKind::InvalidCase(_)) && *final(self) == *old(self)
                } else if legal.contains(choice as int) {
                    r == Ok::<Card, TarotErrorKind>(old(self).hand@[choice as int])
                        && final(self).hand@ == old(self).hand@.remove(choice as int)
                        && *final(self) == (PlayerInGame { hand: final(self).hand, ..*old(self) })
                } else {
                    r matches Err(TarotErrorKind::NoCard(_)) && *final(self) == *old(self)
                }
            }),
    {
        if self.role.is_none() {
            return Err(TarotErrorKind::NoRoleForPlayer(player.name().to_owned()));
        }
        if self.team.is_none() {
            return Err(TarotErrorKind::NoTeamForPlayer(player.name().to_owned()));
        }
        let players = self.mode.players();
        let fool_owned = self.owned.has_fool();
        let rem = self.owned.len() % players;
        if (!fool_owned && rem != 0) || (fool_owned && rem != 1) {
            return Err(TarotErrorKind::InvalidDeck(self.owned.duplicate()));
        }
        let legal = match self.choices(turn) {
            Ok(v) => v,
            Err(e) => {
                return Err(e);
            },
        };
        let ghost called = spec_called(turn@);
        let ghost master = turn.spec_master_card();
        let ghost lseq = legal_play_indices(
            self.hand@,
            called,
            master,
            self.hand@.len() == self.mode.spec_cards_per_player() && self.mode == Mode::Five,
            self.callee,
        );
        let mut k: usize = 0;
        let mut found = false;
        while k < legal.len() && !found
            invariant
                to_ints(legal@) == lseq,
                k <= legal@.len(),
                !found ==> forall|j: int| 0 <= j < k ==> legal@[j] != choice,
                found ==> lseq.contains(choice as int),
            decreases legal@.len() - k, (if found { 0int } else { 1int }),
        {
            if legal[k] == choice {
                found = true;
                proof {
                    assert(to_ints(legal@)[k as int] == choice as int);
                }
            } else {
                k = k + 1;
            }
        }
        if !found {
            proof {
                assert forall|j: int| 0 <= j < lseq.len() implies #[trigger] lseq[j] != choice
                    as int by {
                    assert(to_ints(legal@)[j] == legal@[j] as int);
                }
            }
            return Err(TarotErrorKind::NoCard(choice));
        }
        proof {
            lemma_legal_play_indices_in_range(
                self.hand@,
                called,
                master,
                self.hand@.len() == self.mode.spec_cards_per_player() && self.mode == Mode::Five,
                self.callee,
            );
            let j = choose|j: int| 0 <= j < lseq.len() && lseq[j] == choice as int;
        }
        Ok(self.hand.remove(choice))
    }

    /// The court ranks the taker may call at five players: normally the
    /// Kings, escalating rank by rank while the taker holds all four of
    /// the one before; a taker somehow holding all sixteen court cards is
    /// an impossible state and reported as such.
    pub fn callable_values(&self) -> (r: Result<Vec<SuitValue>, TarotErrorKind>)
        ensures
            (match spec_callable_values(self.hand@) {
                Some(vals) => r matches Ok(v) && v@ == vals,
                None => r matches Err(TarotErrorKind::InvalidCase(_)),
            }),
    {
        let mut values: Vec<SuitValue> = Vec::new();
        values.push(SuitValue::King);
        if self.hand.count_tete(SuitValue::King) == 4 {
            values.push(SuitValue::Queen);
            if self.hand.count_tete(SuitValue::Queen) == 4 {
                values.push(SuitValue::Knight);
                if self.hand.count_tete(SuitValue::Knight) == 4 {
                    values.push(SuitValue::Jack);
                    if self.hand.count_tete(SuitValue::Jack) == 4 {
                        return Err(TarotErrorKind::InvalidCase(String::new()));
                    }
                }
            }
        }
        proof {
            let vals = spec_callable_values(self.hand@)->Some_0;
            assert(values@ =~= vals);
        }
        Ok(values)
    }

    /// The cards the taker may call at five players: every suit crossed
    /// with every callable rank, suits in display order.
    pub fn call_choices(&self) -> (r: Result<Vec<Card>, TarotErrorKind>)
        ensures
            (match spec_callable_values(self.hand@) {
                Some(vals) => r matches Ok(v) && v@ == cross_suits(vals),
                None => r matches Err(TarotErrorKind::InvalidCase(_)),
            }),
    {
        let values = match self.callable_values() {
            Ok(v) => v,
            Err(e) => {
                return Err(e);
            },
        };
        let mut out: Vec<Card> = Vec::new();
        let mut si: u8 = 0;
        while si < 4
            invariant
                si <= 4,
                spec_callable_values(self.hand@) == Some(values@),
                out@ =~= cross_prefix(values@, si as int),
            decreases 4 - si,
        {
            let suit = crate::suit::Suit::from_index(si);
            let ghost row_start = out@;
            let mut vi: usize = 0;
            while vi < values.len()
                invariant
                    si < 4,
                    vi <= values@.len(),
                    suit.spec_index() == si,
                    out@ =~= row_start + suit_row(suit, values@.take(vi as int)),
                    row_start == cross_prefix(values@, si as int),
                decreases values@.len() - vi,
            {
                out.push(Card::normal(suit, values[vi]));
                proof {
                    assert(values@.take(vi + 1) =~= values@.take(vi as int).push(
                        values@[vi as int],
                    ));
                    assert(suit_row(suit, values@.take(vi as int).push(values@[vi as int])) =~=
                        suit_row(suit, values@.take(vi as int)).push(
                        Card::Normal(crate::normal::Normal { suit, value: values@[vi as int] }),
                    ));
                }
                vi = vi + 1;
            }
            proof {
                assert(values@.take(values@.len() as int) =~= values@);
                crate::deck::lemma_normal_key_injective();
                assert(out@ =~= cross_prefix(values@, si + 1));
            }
            si = si + 1;
        }
        proof {
            assert(cross_prefix(values@, 4) == cross_suits(values@));
        }
        Ok(out)
    }

    /// Name the callee for a five-player deal: the card at the chosen
    /// position of `call_choices`. At three or four players nothing is
    /// called.
    pub fn call(&self, choice: usize) -> (r: Result<Option<Card>, TarotErrorKind>)
        ensures
            self.mode != Mode::Five ==> r == Ok::<Option<Card>, TarotErrorKind>(None),
            self.mode == Mode::Five ==> (match spec_callable_values(self.hand@) {
                Some(vals) => if choice < cross_suits(vals).len() {
                    r == Ok::<Option<Card>, TarotErrorKind>(Some(cross_suits(vals)[choice as int]))
                } else {
                    r matches Err(TarotErrorKind::NoCard(_))
                },
                None => r matches Err(TarotErrorKind::InvalidCase(_)),
            }),
    {
        if !matches!(self.mode, Mode::Five) {
            return Ok(None);
        }
        let choices = match self.call_choices() {
            Ok(v) => v,
            Err(e) => {
                return Err(e);
            },
        };
        if choice < choices.len() {
            Ok(Some(choices[choice]))
        } else {
            Err(TarotErrorKind::NoCard(choice))
        }
    }
}

/// The callable court ranks of a hand: Kings first, escalating while all
/// four of the previous rank are held; nothing when even the Jacks are
/// complete.
pub open spec fn spec_callable_values(hand: Seq<Card>) -> Option<Seq<SuitValue>> {
    if tetes_of(hand, SuitValue::King).len() != 4 {
        Some(seq![SuitValue::King])
    } else if tetes_of(hand, SuitValue::Queen).len() != 4 {
        Some(seq![SuitValue::King, SuitValue::Queen])
    } else if tetes_of(hand, SuitValue::Knight).len() != 4 {
        Some(seq![SuitValue::King, SuitValue::Queen, SuitValue::Knight])
    } else if tetes_of(hand, SuitValue::Jack).len() != 4 {
        Some(seq![SuitValue::King, SuitValue::Queen, SuitValue::Knight, SuitValue::Jack])
    } else {
        None
    }
}

/// One suit's row of callable cards.
pub open spec fn suit_row(suit: Suit, vals: Seq<SuitValue>) -> Seq<Card> {
    vals.map_values(|v: SuitValue| Card::Normal(crate::normal::Normal { suit, value: v }))
}

/// The callable cards of the suits before position `n`, row after row.
pub open spec fn cross_prefix(vals: Seq<SuitValue>, n: int) -> Seq<Card>
    decreases n,
{
    if n <= 0 {
        Seq::<Card>::empty()
    } else {
        cross_prefix(vals, n - 1) + suit_row(spec_suit_at(n - 1), vals)
    }
}

/// The suit at a given position of display order.
pub open spec fn spec_suit_at(i: int) -> Suit {
    if i == 0 {
        Suit::Heart
    } else if i == 1 {
        Suit::Spade
    } else if i == 2 {
        Suit::Diamond
    } else {
        Suit::Club
    }
}

/// Every suit crossed with every callable rank, suits in display order.
pub open spec fn cross_suits(vals: Seq<SuitValue>) -> Seq<Card> {
    cross_prefix(vals, 4)
}

} // verus!
