use crate::card::Card;
use crate::contract::Contract;
use crate::deck::{is_sorted, Deck};
use crate::errors::TarotErrorKind;
use crate::game::Game;
use crate::mode::Mode;
use crate::options::Options;
use crate::player_in_game::PlayerInGame;
use crate::role::Role;
use crate::team::Team;
use vstd::multiset::Multiset;
use vstd::prelude::*;
use vstd::seq_lib::group_to_multiset_ensures;

verus! {

/// All cards a seat holds in any of its piles: hand, winnings and
/// discard.
pub open spec fn player_cards(p: PlayerInGame) -> Multiset<Card> {
    p.hand@.to_multiset().add(p.owned@.to_multiset()).add(p.discard@.to_multiset())
}

/// All cards held by a row of seats.
pub open spec fn piles_multiset(players: Seq<PlayerInGame>) -> Multiset<Card>
    decreases players.len(),
{
    if players.len() == 0 {
        Multiset::<Card>::empty()
    } else {
        piles_multiset(players.drop_last()).add(player_cards(players.last()))
    }
}

/// All cards of a deal in flight: the dog together with every seat's
/// piles.
pub open spec fn deal_multiset(dog: Seq<Card>, players: Seq<PlayerInGame>) -> Multiset<Card> {
    dog.to_multiset().add(piles_multiset(players))
}

/// Replacing one seat's piles moves the total by exactly the difference.
pub proof fn lemma_piles_multiset_update(players: Seq<PlayerInGame>, i: int, p: PlayerInGame)
    requires
        0 <= i < players.len(),
    ensures
        piles_multiset(players.update(i, p)).add(player_cards(players[i])) =~= piles_multiset(
            players,
        ).add(player_cards(p)),
    decreases players.len(),
{
    broadcast use vstd::multiset::group_multiset_axioms;

    if i == players.len() - 1 {
        assert(players.update(i, p).drop_last() =~= players.drop_last());
        assert(players.update(i, p).last() == p);
        assert(piles_multiset(players.update(i, p)) == piles_multiset(
            players.drop_last(),
        ).add(player_cards(p)));
        assert(piles_multiset(players) == piles_multiset(players.drop_last()).add(
            player_cards(players.last()),
        ));
    } else {
        assert(players.update(i, p).drop_last() =~= players.drop_last().update(i, p));
        assert(players.update(i, p).last() == players.last());
        lemma_piles_multiset_update(players.drop_last(), i, p);
        assert(piles_multiset(players.update(i, p)) == piles_multiset(
            players.drop_last().update(i, p),
        ).add(player_cards(players.last())));
        assert(piles_multiset(players) == piles_multiset(players.drop_last()).add(
            player_cards(players.last()),
        ));
        assert(players[i] == players.drop_last()[i]);
    }
    assert forall|x: Card|
        piles_multiset(players.update(i, p)).add(player_cards(players[i])).count(x)
            == piles_multiset(players).add(player_cards(p)).count(x) by {
        if i != players.len() - 1 {
            assert(piles_multiset(players.drop_last().update(i, p)).add(
                player_cards(players.drop_last()[i]),
            ).count(x) == piles_multiset(players.drop_last()).add(player_cards(p)).count(x));
        }
    }
}

/// Law: a lawful play conserves the deal's cards. The piles lose exactly
/// the played card, which lies in the trick until the trick is banked —
/// or lose nothing at all when the Fool goes straight home to its
/// owner's pile.
pub proof fn lemma_play_conserves_cards(
    players: Seq<PlayerInGame>,
    fp: Seq<PlayerInGame>,
    seat: int,
    choice: int,
    fool_returned: bool,
)
    requires
        0 <= seat < players.len(),
        0 <= choice < players[seat].hand@.len(),
        fp == players.update(seat, fp[seat]),
        fp[seat].hand@ == players[seat].hand@.remove(choice),
        fool_returned ==> fp[seat] == (PlayerInGame {
            hand: fp[seat].hand,
            owned: fp[seat].owned,
            ..players[seat]
        }) && fp[seat].owned@ == players[seat].owned@.push(players[seat].hand@[choice]),
        !fool_returned ==> fp[seat] == (PlayerInGame { hand: fp[seat].hand, ..players[seat] }),
    ensures
        fool_returned ==> piles_multiset(fp) =~= piles_multiset(players),
        !fool_returned ==> piles_multiset(fp).insert(players[seat].hand@[choice])
            =~= piles_multiset(players),
{
    broadcast use vstd::multiset::group_multiset_axioms;
    broadcast use vstd::seq_lib::group_to_multiset_ensures;

    lemma_piles_multiset_update(players, seat, fp[seat]);
    let card = players[seat].hand@[choice];
    assert(fp[seat].hand@.to_multiset() == players[seat].hand@.to_multiset().remove(card));
    assert(players[seat].hand@.to_multiset().count(card) > 0) by {
        assert(players[seat].hand@.contains(card));
    }
    if fool_returned {
        assert(fp[seat].owned@.to_multiset() == players[seat].owned@.to_multiset().insert(card));
        assert forall|x: Card| piles_multiset(fp).count(x) == piles_multiset(players).count(
            x,
        ) by {
            assert(piles_multiset(fp).add(player_cards(players[seat])).count(x) == piles_multiset(
                players,
            ).add(player_cards(fp[seat])).count(x));
        }
    } else {
        assert forall|x: Card|
            piles_multiset(fp).insert(card).count(x) == piles_multiset(players).count(x) by {
            assert(piles_multiset(fp).add(player_cards(players[seat])).count(x) == piles_multiset(
                players,
            ).add(player_cards(fp[seat])).count(x));
        }
    }
}

/// Law: banking a trick conserves the deal's cards: the winner's pile
/// gains exactly the trick's cards and every other pile is untouched.
pub proof fn lemma_banked_trick_conserves_cards(
    players: Seq<PlayerInGame>,
    fp: Seq<PlayerInGame>,
    winner: int,
    cards: Seq<Card>,
)
    requires
        0 <= winner < players.len(),
        fp == players.update(winner, fp[winner]),
        fp[winner].owned@ == players[winner].owned@ + cards,
        fp[winner] == (PlayerInGame { owned: fp[winner].owned, ..players[winner] }),
    ensures
        piles_multiset(fp) =~= piles_multiset(players).add(cards.to_multiset()),
{
    broadcast use vstd::multiset::group_multiset_axioms;
    broadcast use vstd::seq_lib::group_to_multiset_ensures;

    lemma_piles_multiset_update(players, winner, fp[winner]);
    vstd::seq_lib::lemma_multiset_commutative(players[winner].owned@, cards);
    assert forall|x: Card|
        piles_multiset(fp).count(x) == piles_multiset(players).add(cards.to_multiset()).count(
            x,
        ) by {
        assert(piles_multiset(fp).add(player_cards(players[winner])).count(x) == piles_multiset(
            players,
        ).add(player_cards(fp[winner])).count(x));
    }
}

/// The piles after the cards of `s` have left them one at a time: the
/// state of the table's cards mid-trick, at the multiset level.
pub open spec fn multiset_remove_seq(m: Multiset<Card>, s: Seq<Card>) -> Multiset<Card>
    decreases s.len(),
{
    if s.len() == 0 {
        m
    } else {
        multiset_remove_seq(m.remove(s[0]), s.drop_first())
    }
}

/// Law: a whole trick conserves the deal's cards. Each play takes one
/// card out of the piles (`lemma_play_conserves_cards` relates one play
/// to one removal); banking the trick puts exactly those cards back
/// (`lemma_banked_trick_conserves_cards`); composed, the piles end the
/// trick holding precisely the cards they began it with.
pub proof fn lemma_trick_conserves_cards(m: Multiset<Card>, s: Seq<Card>)
    requires
        s.to_multiset().subset_of(m),
    ensures
        multiset_remove_seq(m, s).add(s.to_multiset()) =~= m,
    decreases s.len(),
{
    broadcast use vstd::multiset::group_multiset_axioms;
    broadcast use vstd::seq_lib::group_to_multiset_ensures;

    if s.len() > 0 {
        let c = s[0];
        assert(s.contains(c));
        assert(s.to_multiset().count(c) > 0);
        let rest = s.drop_first();
        assert(s =~= seq![c] + rest);
        vstd::seq_lib::lemma_multiset_commutative(seq![c], rest);
        assert(seq![c].to_multiset() =~= Multiset::<Card>::empty().insert(c));
        assert(s.to_multiset() =~= rest.to_multiset().insert(c));
        assert(rest.to_multiset().subset_of(m.remove(c))) by {
            assert(forall|x: Card|
                #[trigger] rest.to_multiset().count(x) <= m.remove(c).count(x));
        }
        lemma_trick_conserves_cards(m.remove(c), rest);
        assert(multiset_remove_seq(m, s).add(s.to_multiset()) =~= m) by {
            assert(multiset_remove_seq(m.remove(c), rest).add(rest.to_multiset()) =~= m.remove(
                c,
            ));
        }
    }
}

/// The bid leading after the first `n` seats have spoken: a bid leads
/// only with a strictly greater multiplier than the leader before it, so
/// a pass never leads and ties go to the earlier bidder.
pub open spec fn bid_leader(bids: Seq<Contract>, n: int) -> Option<(Contract, int)>
    decreases n,
{
    if n <= 0 {
        None
    } else {
        let prev = bid_leader(bids, n - 1);
        let lead_mult = match prev {
            None => 0int,
            Some(p) => p.0.spec_multiplier(),
        };
        if bids[n - 1].spec_multiplier() > lead_mult {
            Some((bids[n - 1], n - 1))
        } else {
            prev
        }
    }
}

/// Whether the seat at `i` took the lead with its bid.
pub open spec fn took_lead(bids: Seq<Contract>, i: int) -> bool {
    bid_leader(bids, i + 1) == Some((bids[i], i))
}

/// The last seat whose leading bid came with a standing slam
/// announcement, among the first `n`.
pub open spec fn slam_announcer(bids: Seq<Contract>, eff: Seq<bool>, n: int) -> Option<int>
    decreases n,
{
    if n <= 0 {
        None
    } else if took_lead(bids, n - 1) && eff[n - 1] {
        Some(n - 1)
    } else {
        slam_announcer(bids, eff, n - 1)
    }
}

/// A seat's slam answer stands only when its configuration allows slams.
pub open spec fn effective_slams(players: Seq<PlayerInGame>, slams: Seq<bool>) -> Seq<bool> {
    Seq::new(players.len(), |i: int| slams[i] && !players[i].options.no_slam)
}

/// The row of seats with their slam flags settled by the bidding: a
/// seat's flag is set exactly when its bid took the lead and its slam
/// answer stood.
pub open spec fn flagged_players(
    players: Seq<PlayerInGame>,
    bids: Seq<Contract>,
    slams: Seq<bool>,
) -> Seq<PlayerInGame> {
    Seq::new(
        players.len(),
        |i: int| PlayerInGame {
            slam: if took_lead(bids, i) {
                slams[i] && !players[i].options.no_slam
            } else {
                players[i].slam
            },
            ..players[i]
        },
    )
}

/// One deal in its distribution and bidding phase: the dog and every
/// seat's in-deal state. The table itself is passed alongside where seats
/// or scores must move with the deal.
#[derive(Debug)]
pub struct GameDistributed {
    pub mode: Mode,
    pub options: Options,
    pub dog: Deck,
    pub players_in_game: Vec<PlayerInGame>,
}

impl GameDistributed {
    /// Whether every hand has been played out.
    pub fn finished(&self) -> (r: bool)
        ensures
            r == (forall|i: int|
                0 <= i < self.players_in_game@.len() ==> (
                #[trigger] self.players_in_game@[i]).hand@.len() == 0),
    {
        let mut i: usize = 0;
        let n = self.players_in_game.len();
        while i < n
            invariant
                n == self.players_in_game@.len(),
                i <= n,
                forall|j: int|
                    0 <= j < i ==> (#[trigger] self.players_in_game@[j]).hand@.len() == 0,
            decreases n - i,
        {
            if !self.players_in_game[i].last_turn() {
                return false;
            }
            i = i + 1;
        }
        true
    }

    /// The seat state at the given position, or an error past the last.
    pub fn player_in_game(&self, index: usize) -> (r: Result<&PlayerInGame, TarotErrorKind>)
        ensures
            index < self.players_in_game@.len() ==> (r matches Ok(p) && *p
                == self.players_in_game@[index as int]),
            index >= self.players_in_game@.len() ==> r matches Err(TarotErrorKind::NoPlayer(_)),
    {
        if index < self.players_in_game.len() {
            Ok(&self.players_in_game[index])
        } else {
            Err(TarotErrorKind::NoPlayer(index))
        }
    }

    /// Rotate the seats left so the seat at `index` leads, both in the
    /// deal and at the table.
    pub fn rotate_at(&mut self, game: &mut Game, index: usize)
        requires
            index <= old(self).players_in_game@.len(),
            index <= old(game).players@.len(),
        ensures
            final(self).players_in_game@ == old(self).players_in_game@.skip(index as int) + old(
                self,
            ).players_in_game@.take(index as int),
            final(self).dog == old(self).dog,
            final(self).mode == old(self).mode,
            final(self).options == old(self).options,
            final(game).players@ == old(game).players@.skip(index as int) + old(
                game,
            ).players@.take(index as int),
            final(game).mode == old(game).mode,
            final(game).options == old(game).options,
            final(game).dealer == old(game).dealer,
    {
        let mut tail = self.players_in_game.split_off(index);
        core::mem::swap(&mut self.players_in_game, &mut tail);
        self.players_in_game.append(&mut tail);
        proof {
            assert(old(self).players_in_game@.subrange(0, index as int) =~= old(
                self,
            ).players_in_game@.take(index as int));
            assert(old(self).players_in_game@.subrange(
                index as int,
                old(self).players_in_game@.len() as int,
            ) =~= old(self).players_in_game@.skip(index as int));
        }
        game.rotate_at(index);
    }

    /// Run the bidding over one answer per seat: a bid leads only by
    /// strictly outbidding the leader, a leading bidder's slam answer is
    /// recorded, and when a slam stands the announcing seat is rotated to
    /// lead, the reported taker position moving with it. Nothing is
    /// returned when every seat passed: the deal is void.
    pub fn bidding(&mut self, game: &mut Game, bids: &Vec<Contract>, slams: &Vec<bool>) -> (r:
        Option<(Contract, usize)>)
        requires
            bids@.len() == old(self).players_in_game@.len(),
            slams@.len() == old(self).players_in_game@.len(),
            old(game).players@.len() == old(self).players_in_game@.len(),
        ensures
            final(self).dog == old(self).dog,
            final(self).mode == old(self).mode,
            final(self).options == old(self).options,
            final(game).mode == old(game).mode,
            final(game).options == old(game).options,
            final(game).dealer == old(game).dealer,
            ({
                let n = old(self).players_in_game@.len() as int;
                let flagged = flagged_players(old(self).players_in_game@, bids@, slams@);
                let eff = effective_slams(old(self).players_in_game@, slams@);
                match bid_leader(bids@, n) {
                    None => r is None && final(self).players_in_game@ == flagged && final(game).players@ == old(game).players@,
                    Some((c, t)) => match slam_announcer(bids@, eff, n) {
                        None => r == Some((c, t as usize)) && final(self).players_in_game@
                            == flagged && final(game).players@ == old(game).players@,
                        Some(s) => r == Some(
                            (c, (if t >= s { t - s } else { t + (n - s) }) as usize),
                        ) && final(self).players_in_game@ == flagged.skip(s) + flagged.take(s) && final(game).players@ == old(game).players@.skip(s) + old(game).players@.take(s),
                    },
                }
            }),
    {
        let n = self.players_in_game.len();
        let ghost old_players = self.players_in_game@;
        let ghost flagged = flagged_players(old_players, bids@, slams@);
        let ghost eff = effective_slams(old_players, slams@);
        let mut leader: Option<(Contract, usize)> = None;
        let mut slammer: Option<usize> = None;
        let mut i: usize = 0;
        while i < n
            invariant
                n == old_players.len(),
                bids@.len() == n,
                slams@.len() == n,
                i <= n,
                flagged == flagged_players(old_players, bids@, slams@),
                eff == effective_slams(old_players, slams@),
                self.players_in_game@.len() == n,
                self.dog == old(self).dog,
                self.mode == old(self).mode,
                self.options == old(self).options,
                forall|j: int|
                    0 <= j < i ==> #[trigger] self.players_in_game@[j] == flagged[j],
                forall|j: int|
                    i <= j < n ==> #[trigger] self.players_in_game@[j] == old_players[j],
                ({
                    match leader {
                        None => bid_leader(bids@, i as int) is None,
                        Some((c, t)) => bid_leader(bids@, i as int) == Some((c, t as int)) && t
                            < i,
                    }
                }),
                ({
                    match slammer {
                        None => slam_announcer(bids@, eff, i as int) is None,
                        Some(s) => slam_announcer(bids@, eff, i as int) == Some(s as int) && s
                            < i,
                    }
                }),
            decreases n - i,
        {
            let bid = bids[i];
            let lead_mult = match leader {
                None => 0,
                Some((c, _)) => c.multiplier(),
            };
            if bid.multiplier() > lead_mult {
                leader = Some((bid, i));
                let announced = self.players_in_game[i].announce_slam(slams[i]);
                if announced {
                    slammer = Some(i);
                }
                proof {
                    assert(self.players_in_game@[i as int] == flagged[i as int]);
                }
            } else {
                proof {
                    assert(self.players_in_game@[i as int] == old_players[i as int]);
                    assert(flagged[i as int] == old_players[i as int]);
                }
            }
            i = i + 1;
        }
        proof {
            assert(self.players_in_game@ =~= flagged);
        }
        let (contract, taker_index) = match leader {
            None => {
                return None;
            },
            Some((c, t)) => (c, t),
        };
        match slammer {
            None => Some((contract, taker_index)),
            Some(s) => {
                self.rotate_at(game, s);
                let adjusted = if taker_index >= s {
                    taker_index - s
                } else {
                    taker_index + (n - s)
                };
                Some((contract, adjusted))
            },
        }
    }

    /// Assign every seat its side and role: the taker attacks; at five
    /// players whoever holds the called card joins the attack as ally;
    /// everyone else defends. The called card is recorded at every seat.
    pub fn set_teams_and_roles(&mut self, taker_index: usize, callee: Option<Card>)
        requires
            taker_index < old(self).players_in_game@.len(),
        ensures
            final(self).dog == old(self).dog,
            final(self).mode == old(self).mode,
            final(self).options == old(self).options,
            final(self).players_in_game@.len() == old(self).players_in_game@.len(),
            forall|i: int|
                0 <= i < final(self).players_in_game@.len()
                    ==> #[trigger] final(self).players_in_game@[i] == (PlayerInGame {
                    callee,
                    team: Some(spec_team_of(old(self).players_in_game@[i], i, taker_index as int, callee)),
                    role: Some(spec_role_of(old(self).players_in_game@[i], i, taker_index as int, callee)),
                    ..old(self).players_in_game@[i]
                }),
    {
        let n = self.players_in_game.len();
        let mut i: usize = 0;
        while i < n
            invariant
                n == self.players_in_game@.len(),
                n == old(self).players_in_game@.len(),
                taker_index < n,
                i <= n,
                self.dog == old(self).dog,
                self.mode == old(self).mode,
                self.options == old(self).options,
                forall|j: int|
                    0 <= j < i ==> #[trigger] self.players_in_game@[j] == (PlayerInGame {
                        callee,
                        team: Some(
                            spec_team_of(
                                old(self).players_in_game@[j],
                                j,
                                taker_index as int,
                                callee,
                            ),
                        ),
                        role: Some(
                            spec_role_of(
                                old(self).players_in_game@[j],
                                j,
                                taker_index as int,
                                callee,
                            ),
                        ),
                        ..old(self).players_in_game@[j]
                    }),
                forall|j: int|
                    i <= j < n ==> #[trigger] self.players_in_game@[j] == old(
                        self,
                    ).players_in_game@[j],
            decreases n - i,
        {
            self.players_in_game[i].set_callee(callee);
            self.players_in_game[i].set_team(Team::Defense);
            self.players_in_game[i].set_role(Role::Defenser);
            if i == taker_index {
                self.players_in_game[i].set_team(Team::Attack);
                self.players_in_game[i].set_role(Role::Taker);
            } else {
                let is_ally = match &callee {
                    Some(card) => self.players_in_game[i].has(card),
                    None => false,
                };
                if is_ally {
                    self.players_in_game[i].set_team(Team::Attack);
                    self.players_in_game[i].set_role(Role::Ally);
                }
            }
            i = i + 1;
        }
    }
}

/// The first seat not on the attack, scanning the first `n` seats.
pub open spec fn first_non_attack(players: Seq<PlayerInGame>, n: int) -> Option<int>
    decreases n,
{
    if n <= 0 {
        None
    } else {
        match first_non_attack(players, n - 1) {
            Some(j) => Some(j),
            None => if players[n - 1].team != Some(Team::Attack) {
                Some(n - 1)
            } else {
                None
            },
        }
    }
}

impl GameDistributed {
    /// Hand the dog out according to the contract: a petite or garde puts
    /// it in the taker's hand (the taker must then discard as many cards
    /// back); a garde sans banks it unseen in the taker's discard, which
    /// scoring tallies with the taker's winnings; a garde contre banks it
    /// likewise for the first defender, out of the taker's tally. Either
    /// way the dog itself is emptied.
    pub fn resolve_dog(&mut self, contract: Contract, taker_index: usize)
        requires
            contract != Contract::Pass,
            taker_index < old(self).players_in_game@.len(),
        ensures
            final(self).mode == old(self).mode,
            final(self).options == old(self).options,
            ({
                let players = old(self).players_in_game@;
                let taker = players[taker_index as int];
                let dog = old(self).dog@;
                match contract {
                    Contract::GardeSans => final(self).dog@.len() == 0 && final(self).players_in_game@ == players.update(
                        taker_index as int,
                        (PlayerInGame {
                            discard: final(self).players_in_game@[taker_index as int].discard,
                            ..taker
                        }),
                    ) && final(self).players_in_game@[taker_index as int].discard@ == dog,
                    Contract::GardeContre => match first_non_attack(players, players.len() as int) {
                        Some(j) => final(self).dog@.len() == 0 && final(self).players_in_game@
                            == players.update(
                            j,
                            (PlayerInGame {
                                discard: final(self).players_in_game@[j].discard,
                                ..players[j]
                            }),
                        ) && final(self).players_in_game@[j].discard@ == dog,
                        None => *final(self) == *old(self),
                    },
                    _ => final(self).dog@.len() == 0 && final(self).players_in_game@
                        == players.update(
                        taker_index as int,
                        (PlayerInGame {
                            hand: final(self).players_in_game@[taker_index as int].hand,
                            ..taker
                        }),
                    ) && final(self).players_in_game@[taker_index as int].hand@.to_multiset()
                        == taker.hand@.to_multiset().add(dog.to_multiset()) && final(self).players_in_game@[taker_index as int].hand@.len() == taker.hand@.len()
                        + dog.len() && is_sorted(
                        final(self).players_in_game@[taker_index as int].hand@,
                    ),
                }
            }),
    {
        match contract {
            Contract::GardeSans => {
                let dog = self.dog.give_all();
                self.players_in_game[taker_index].set_discard(&dog);
            },
            Contract::GardeContre => {
                let n = self.players_in_game.len();
                let mut defender: Option<usize> = None;
                let mut i: usize = 0;
                while i < n && defender.is_none()
                    invariant
                        n == self.players_in_game@.len(),
                        i <= n,
                        match defender {
                            None => first_non_attack(self.players_in_game@, i as int) is None,
                            Some(j) => i == j + 1 && j < n && first_non_attack(
                                self.players_in_game@,
                                i as int,
                            ) == Some(j as int),
                        },
                    decreases n - i,
                {
                    if !self.players_in_game[i].is_attack() {
                        defender = Some(i);
                    }
                    i = i + 1;
                }
                match defender {
                    Some(j) => {
                        proof {
                            lemma_first_non_attack_stable(
                                self.players_in_game@,
                                j as int,
                                n as int,
                            );
                        }
                        let dog = self.dog.give_all();
                        self.players_in_game[j].set_discard(&dog);
                    },
                    None => {},
                }
            },
            _ => {
                let dog = self.dog.give_all();
                self.players_in_game[taker_index].extend_hand(&dog);
            },
        }
    }
}

/// Once the scan has found the first non-attacking seat, scanning further
/// never changes it.
proof fn lemma_first_non_attack_stable(players: Seq<PlayerInGame>, j: int, m: int)
    requires
        0 <= j,
        j + 1 <= m,
        first_non_attack(players, j + 1) == Some(j),
    ensures
        first_non_attack(players, m) == Some(j),
    decreases m - j,
{
    if m > j + 1 {
        lemma_first_non_attack_stable(players, j, m - 1);
    }
}

/// The side a seat ends on once teams are formed: the taker and the
/// holder of the called card attack, the rest defend.
pub open spec fn spec_team_of(p: PlayerInGame, i: int, taker: int, callee: Option<Card>) -> Team {
    if i == taker {
        Team::Attack
    } else if (match callee {
        Some(c) => p.hand@.contains(c),
        None => false,
    }) {
        Team::Attack
    } else {
        Team::Defense
    }
}

/// The role a seat ends with once teams are formed.
pub open spec fn spec_role_of(p: PlayerInGame, i: int, taker: int, callee: Option<Card>) -> Role {
    if i == taker {
        Role::Taker
    } else if (match callee {
        Some(c) => p.hand@.contains(c),
        None => false,
    }) {
        Role::Ally
    } else {
        Role::Defenser
    }
}

} // verus!
