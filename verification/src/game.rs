use crate::card::Card;
use crate::deck::{is_petit_sec, is_sorted, Deck};
use crate::errors::TarotErrorKind;
use crate::game_distributed::{deal_multiset, piles_multiset, player_cards, GameDistributed};
use crate::mode::Mode;
use crate::points::MAX_CARDS;
use crate::player_in_game::PlayerInGame;
use crate::options::Options;
use crate::player::Player;
use vstd::multiset::Multiset;
use vstd::prelude::*;

verus! {

broadcast use vstd::seq_lib::group_to_multiset_ensures, vstd::multiset::group_multiset_axioms;

/// Sum of the accumulated scores of the seats, in half-points.
pub open spec fn scores_sum(players: Seq<Player>) -> int
    decreases players.len(),
{
    if players.len() == 0 {
        0
    } else {
        scores_sum(players.drop_last()) + players.last().score
    }
}

/// Replacing one seat's score moves the sum by exactly the difference.
pub proof fn lemma_scores_sum_update(players: Seq<Player>, i: int, p: Player)
    requires
        0 <= i < players.len(),
    ensures
        scores_sum(players.update(i, p)) == scores_sum(players) - players[i].score + p.score,
    decreases players.len(),
{
    if i == players.len() - 1 {
        assert(players.update(i, p).drop_last() =~= players.drop_last());
        assert(players.update(i, p).last() == p);
    } else {
        assert(players.update(i, p).drop_last() =~= players.drop_last().update(i, p));
        assert(players.update(i, p).last() == players.last());
        lemma_scores_sum_update(players.drop_last(), i, p);
    }
}

/// The dog and the hands of a deal together use the deck exactly: dog
/// size plus players times hand size is 78 in every mode.
pub proof fn lemma_mode_deal_sizes(m: Mode)
    ensures
        m.spec_dog_size() + m.spec_players() * m.spec_cards_per_player() == 78,
{
    match m {
        Mode::Three => {
            assert(6 + 3 * 24 == 78);
        },
        Mode::Four => {
            assert(6 + 4 * 18 == 78);
        },
        Mode::Five => {
            assert(3 + 5 * 15 == 78);
        },
    }
}

/// The table across deals: the seats, the mode and the configuration.
#[derive(Debug, Clone)]
pub struct Game {
    pub options: Options,
    pub mode: Mode,
    pub players: Vec<Player>,
    pub dealer: usize,
}

impl Game {
    /// Seat the table: one named player per seat, each with a zero score.
    /// Every seat but South plays on its own (randomly, in a simulation);
    /// in test mode South does too.
    pub fn new(mode: Mode, options: Options) -> (r: Game)
        ensures
            r.mode == mode,
            r.options == options,
            r.dealer == 0,
            r.players@.len() == mode.spec_players(),
            forall|i: int|
                0 <= i < r.players@.len() ==> #[trigger] r.players@[i] == (Player {
                    name: r.players@[i].name,
                    mode: mode,
                    options: (Options { random: options.test || i != 2, ..options }),
                    score: 0,
                }),
            forall|i: int|
                0 <= i < r.players@.len() ==> (#[trigger] r.players@[i].name)@
                    == mode.spec_player_name(i),
    {
        let n = mode.players();
        let mut players: Vec<Player> = Vec::new();
        let mut i: usize = 0;
        while i < n
            invariant
                n == mode.spec_players(),
                i <= n,
                players@.len() == i,
                forall|j: int|
                    0 <= j < i ==> #[trigger] players@[j] == (Player {
                        name: players@[j].name,
                        mode: mode,
                        options: (Options { random: options.test || j != 2, ..options }),
                        score: 0,
                    }),
                forall|j: int|
                    0 <= j < i ==> (#[trigger] players@[j].name)@ == mode.spec_player_name(j),
            decreases n - i,
        {
            let name = match mode.player_name(i) {
                Ok(s) => s,
                Err(_) => {
                    proof {
                        assert(false);
                    }
                    ""
                },
            };
            let random = options.test || i != 2;
            let player_options = Options { random, ..options };
            players.push(Player::new(name.to_owned(), mode, player_options));
            i = i + 1;
        }
        Game { options, mode, players, dealer: 0 }
    }

    /// The table's mode.
    pub fn mode(&self) -> (r: &Mode)
        ensures
            *r == self.mode,
    {
        &self.mode
    }

    /// Scores across the table must cancel out exactly: every deal moves
    /// points around, it never creates any.
    pub fn is_consistent(&self) -> (r: Result<(), TarotErrorKind>)
        requires
            self.players@.len() < 0x8000000000000000,
        ensures
            scores_sum(self.players@) == 0 <==> r is Ok,
            r is Err ==> r matches Err(TarotErrorKind::InvalidScores(_)),
    {
        let mut sum: i128 = 0;
        let mut i: usize = 0;
        let n = self.players.len();
        while i < n
            invariant
                n == self.players@.len() < 0x8000000000000000,
                i <= n,
                sum == scores_sum(self.players@.take(i as int)),
                -(i as int) * 0x8000000000000000 <= sum <= (i as int) * 0x8000000000000000,
            decreases n - i,
        {
            proof {
                assert(self.players@.take(i + 1).drop_last() =~= self.players@.take(i as int));
                assert(self.players@.take(i + 1).last() == self.players@[i as int]);
                assert((i as int + 1) * 0x8000000000000000 == (i as int) * 0x8000000000000000
                    + 0x8000000000000000) by (nonlinear_arith);
                assert((i as int) * 0x8000000000000000 <= 0x8000000000000000
                    * 0x8000000000000000) by (nonlinear_arith)
                    requires
                        0 <= i < 0x8000000000000000,
                ;
            }
            sum = sum + self.players[i].score as i128;
            i = i + 1;
        }
        proof {
            assert(self.players@.take(n as int) =~= self.players@);
        }
        if sum != 0 {
            return Err(TarotErrorKind::InvalidScores(String::new()));
        }
        Ok(())
    }

    /// The seat at the given position, or an error past the last one.
    pub fn player(&self, index: usize) -> (r: Result<&Player, TarotErrorKind>)
        ensures
            index < self.players@.len() ==> (r matches Ok(p) && *p == self.players@[index as int]),
            index >= self.players@.len() ==> r == Err::<&Player, TarotErrorKind>(
                TarotErrorKind::NoPlayer(index as usize),
            ),
    {
        if index < self.players.len() {
            Ok(&self.players[index])
        } else {
            Err(TarotErrorKind::NoPlayer(index))
        }
    }

    /// All seats, in current order.
    pub fn players(&self) -> (r: &Vec<Player>)
        ensures
            r@ == self.players@,
    {
        &self.players
    }

    /// Add a deal's delta to the score of the seat at `index`.
    pub fn add_score_at(&mut self, index: usize, points: i64)
        requires
            index < old(self).players@.len(),
            i64::MIN <= old(self).players@[index as int].score + points <= i64::MAX,
        ensures
            final(self).players@ == old(self).players@.update(
                index as int,
                (Player {
                    score: (old(self).players@[index as int].score + points) as i64,
                    ..old(self).players@[index as int]
                }),
            ),
            final(self).mode == old(self).mode,
            final(self).options == old(self).options,
            final(self).dealer == old(self).dealer,
    {
        self.players[index].add_score(points);
    }

    /// Rotate the seats left so the seat at `index` comes first; the deal
    /// order moves with it.
    pub fn rotate_at(&mut self, index: usize)
        requires
            index <= old(self).players@.len(),
        ensures
            final(self).players@ == old(self).players@.skip(index as int) + old(
                self,
            ).players@.take(index as int),
            final(self).mode == old(self).mode,
            final(self).options == old(self).options,
            final(self).dealer == old(self).dealer,
    {
        let mut tail = self.players.split_off(index);
        core::mem::swap(&mut self.players, &mut tail);
        self.players.append(&mut tail);
        proof {
            assert(old(self).players@.subrange(0, index as int) =~= old(self).players@.take(
                index as int,
            ));
            assert(old(self).players@.subrange(index as int, old(self).players@.len() as int)
                =~= old(self).players@.skip(index as int));
        }
    }

    /// Advance the deal to the next dealer: the dealer position moves one
    /// seat round the table and the seats rotate so play starts after it,
    /// as at the end of every deal.
    pub fn rotate_dealer(&mut self)
        requires
            old(self).players@.len() > 0,
            old(self).dealer < old(self).players@.len(),
        ensures
            final(self).dealer == (if old(self).dealer == old(self).players@.len() - 1 {
                0int
            } else {
                old(self).dealer + 1
            }),
            final(self).dealer < final(self).players@.len(),
            final(self).players@ == old(self).players@.skip(final(self).dealer as int) + old(
                self,
            ).players@.take(final(self).dealer as int),
            final(self).mode == old(self).mode,
            final(self).options == old(self).options,
    {
        if self.dealer == self.players.len() - 1 {
            self.dealer = 0;
        } else {
            self.dealer = self.dealer + 1;
        }
        let dealer = self.dealer;
        self.rotate_at(dealer);
    }

    /// Deal a given deck of 78 cards out, in order: the dog off the top,
    /// then every hand, each sorted for display. Nothing is returned —
    /// the deal is void and must be redealt — exactly when one of the
    /// dealt hands is a petit sec.
    #[verifier::rlimit(50)]
    pub fn deal(&self, deck_in: Deck) -> (r: Option<GameDistributed>)
        requires
            self.players@.len() == self.mode.spec_players(),
            deck_in@.len() == MAX_CARDS,
        ensures
            ({
                let d = self.mode.spec_dog_size();
                let cpp = self.mode.spec_cards_per_player();
                let n = self.mode.spec_players();
                &&& (r is None <==> exists|j: int|
                    0 <= j < n && is_petit_sec(
                        #[trigger] deck_in@.subrange(d + j * cpp, d + (j + 1) * cpp),
                    ))
                &&& (match r {
                    Some(gd) => {
                        &&& gd.mode == self.mode
                        &&& gd.options == self.options
                        &&& gd.players_in_game@.len() == n
                        &&& gd.dog@.len() == d
                        &&& is_sorted(gd.dog@)
                        &&& forall|i: int|
                            0 <= i < gd.players_in_game@.len() ==> {
                                let p = #[trigger] gd.players_in_game@[i];
                                &&& p.mode == self.mode
                                &&& p.options == self.players@[i].options
                                &&& p.slam == false
                                &&& p.team is None
                                &&& p.role is None
                                &&& p.callee is None
                                &&& p.handle is None
                                &&& p.owned@.len() == 0
                                &&& p.discard@.len() == 0
                                &&& p.hand@.len() == cpp
                                &&& is_sorted(p.hand@)
                                &&& p.hand@.to_multiset() == deck_in@.subrange(
                                    d + i * cpp,
                                    d + (i + 1) * cpp,
                                ).to_multiset()
                                &&& !is_petit_sec(p.hand@)
                            }
                        &&& forall|c: Card|
                            #[trigger] deal_multiset(gd.dog@, gd.players_in_game@).count(c)
                                == deck_in@.to_multiset().count(c)
                    },
                    None => true,
                })
            }),
    {
        let mut deck = deck_in;
        let ghost full = deck@;
        let dog_size = self.mode.dog_size();
        let mut dog = deck.give(dog_size);
        dog.sort();
        proof {
            vstd::seq_lib::lemma_multiset_commutative(
                full.take(dog_size as int),
                full.skip(dog_size as int),
            );
            assert(full.take(dog_size as int) + full.skip(dog_size as int) =~= full);
        }
        let n = self.mode.players();
        let cpp = self.mode.cards_per_player();
        let mut players_in_game: Vec<PlayerInGame> = Vec::new();
        let mut i: usize = 0;
        proof {
            assert(players_in_game@.len() == 0);
            assert(piles_multiset(players_in_game@) == Multiset::<Card>::empty());
            assert(dog@.to_multiset() == full.take(dog_size as int).to_multiset());
            assert(deck@ == full.skip(dog_size as int));
            assert(full.to_multiset() == full.take(dog_size as int).to_multiset().add(
                full.skip(dog_size as int).to_multiset(),
            ));
            assert forall|c: Card|
                #[trigger] deal_multiset(dog@, players_in_game@).add(deck@.to_multiset()).count(c)
                    == full.to_multiset().count(c) by {}
        }
        while i < n
            invariant
                n == self.mode.spec_players(),
                cpp == self.mode.spec_cards_per_player(),
                dog_size == self.mode.spec_dog_size(),
                full == deck_in@,
                full.len() == MAX_CARDS,
                self.players@.len() == n,
                dog@.len() == self.mode.spec_dog_size(),
                is_sorted(dog@),
                i <= n,
                players_in_game@.len() == i,
                deck@ == full.skip(dog_size + i * cpp),
                deck@.len() == 78 - self.mode.spec_dog_size() - i * cpp,
                forall|j: int|
                    0 <= j < i ==> {
                        let p = #[trigger] players_in_game@[j];
                        &&& p.mode == self.mode
                        &&& p.options == self.players@[j].options
                        &&& p.slam == false
                        &&& p.team is None
                        &&& p.role is None
                        &&& p.callee is None
                        &&& p.handle is None
                        &&& p.owned@.len() == 0
                        &&& p.discard@.len() == 0
                        &&& p.hand@.len() == cpp
                        &&& is_sorted(p.hand@)
                        &&& p.hand@.to_multiset() == full.subrange(
                            dog_size + j * cpp,
                            dog_size + (j + 1) * cpp,
                        ).to_multiset()
                    },
                forall|c: Card|
                    #[trigger] deal_multiset(dog@, players_in_game@).add(
                        deck@.to_multiset(),
                    ).count(c) == full.to_multiset().count(c),
            decreases n - i,
        {
            proof {
                broadcast use vstd::seq_lib::group_to_multiset_ensures;
                broadcast use vstd::multiset::group_multiset_axioms;

                assert((i + 1) * cpp == i * cpp + cpp) by (nonlinear_arith);
                assert(i * cpp + cpp <= n * cpp) by (nonlinear_arith)
                    requires
                        0 <= i < n,
                        0 <= cpp,
                ;
            }
            let options = *match self.player(i) {
                Ok(p) => p.options(),
                Err(_) => {
                    proof {
                        assert(false);
                    }
                    &self.options
                },
            };
            let mut pig = PlayerInGame::new(self.mode, options);
            let ghost deck_before = deck@;
            let buffer = deck.give(cpp);
            pig.extend_hand(&buffer);
            let ghost pigs_before = players_in_game@;
            players_in_game.push(pig);
            proof {
                vstd::seq_lib::lemma_multiset_commutative(
                    deck_before.take(cpp as int),
                    deck_before.skip(cpp as int),
                );
                assert(deck_before.take(cpp as int) + deck_before.skip(cpp as int)
                    =~= deck_before);
                assert(deck_before.take(cpp as int) =~= full.subrange(
                    dog_size + i * cpp,
                    dog_size + (i + 1) * cpp,
                ));
                assert(deck@ =~= full.skip(dog_size + (i + 1) * cpp));
                assert(players_in_game@.drop_last() =~= pigs_before);
                assert(piles_multiset(players_in_game@) == piles_multiset(pigs_before).add(
                    player_cards(pig),
                ));
                assert(pig.hand@.to_multiset() =~= Seq::<Card>::empty().to_multiset().add(
                    buffer@.to_multiset(),
                ));
                assert(player_cards(pig) =~= buffer@.to_multiset());
                assert forall|c: Card|
                    #[trigger] deal_multiset(dog@, players_in_game@).add(
                        deck@.to_multiset(),
                    ).count(c) == full.to_multiset().count(c) by {
                    assert(deal_multiset(dog@, pigs_before).add(deck_before.to_multiset()).count(
                        c,
                    ) == full.to_multiset().count(c));
                }
            }
            i = i + 1;
        }
        proof {
            lemma_mode_deal_sizes(self.mode);
            assert(deck@.len() == 0);
            assert forall|j: int|
                0 <= j < n implies is_petit_sec((#[trigger] players_in_game@[j]).hand@)
                == is_petit_sec(
                full.subrange(dog_size + j * cpp, dog_size + (j + 1) * cpp),
            ) by {
                crate::deck::lemma_petit_sec_permutation(
                    players_in_game@[j].hand@,
                    full.subrange(dog_size + j * cpp, dog_size + (j + 1) * cpp),
                );
            }
        }
        let mut k: usize = 0;
        while k < n
            invariant
                n == self.mode.spec_players(),
                cpp == self.mode.spec_cards_per_player(),
                dog_size == self.mode.spec_dog_size(),
                n == players_in_game@.len(),
                k <= n,
                full == deck_in@,
                deck@.len() == 0,
                dog@.len() == self.mode.spec_dog_size(),
                is_sorted(dog@),
                forall|j: int|
                    0 <= j < n ==> {
                        let p = #[trigger] players_in_game@[j];
                        &&& p.mode == self.mode
                        &&& p.options == self.players@[j].options
                        &&& p.slam == false
                        &&& p.team is None
                        &&& p.role is None
                        &&& p.callee is None
                        &&& p.handle is None
                        &&& p.owned@.len() == 0
                        &&& p.discard@.len() == 0
                        &&& p.hand@.len() == cpp
                        &&& is_sorted(p.hand@)
                    },
                forall|c: Card|
                    #[trigger] deal_multiset(dog@, players_in_game@).add(
                        deck@.to_multiset(),
                    ).count(c) == full.to_multiset().count(c),
                forall|j: int|
                    0 <= j < n ==> (#[trigger] players_in_game@[j]).hand@.to_multiset()
                        == full.subrange(
                        dog_size + j * cpp,
                        dog_size + (j + 1) * cpp,
                    ).to_multiset(),
                forall|j: int|
                    0 <= j < k ==> !is_petit_sec(
                        #[trigger] full.subrange(dog_size + j * cpp, dog_size + (j + 1) * cpp),
                    ),
                forall|j: int|
                    0 <= j < n ==> is_petit_sec((#[trigger] players_in_game@[j]).hand@)
                        == is_petit_sec(
                        full.subrange(dog_size + j * cpp, dog_size + (j + 1) * cpp),
                    ),
            decreases n - k,
        {
            if players_in_game[k].petit_sec() {
                proof {
                    assert(full == deck_in@);
                    let d = self.mode.spec_dog_size();
                    let cppi = self.mode.spec_cards_per_player();
                    assert(dog_size + k * cpp == d + (k as int) * cppi);
                    assert(dog_size + (k + 1) * cpp == d + (k as int + 1) * cppi);
                    assert(is_petit_sec(
                        deck_in@.subrange(d + (k as int) * cppi, d + (k as int + 1) * cppi),
                    ));
                }
                return None;
            }
            k = k + 1;
        }
        proof {
            assert(deck@.len() == 0);
            assert(deck@.to_multiset().len() == 0);
            assert forall|c: Card|
                #[trigger] deal_multiset(dog@, players_in_game@).count(c)
                    == full.to_multiset().count(c) by {
                assert(deal_multiset(dog@, players_in_game@).add(deck@.to_multiset()).count(c)
                    == full.to_multiset().count(c));
                assert(deck@.to_multiset().count(c) == 0);
            }
        }
        Some(GameDistributed { mode: self.mode, options: self.options, dog, players_in_game })
    }

    /// Deal a fresh shuffled deck out: the dog first, then every hand,
    /// so that together they hold each of the 78 cards exactly once. A
    /// hand dealt a petit sec voids the deal and nothing is returned.
    pub fn distribute(&self) -> (r: Option<GameDistributed>)
        requires
            self.players@.len() == self.mode.spec_players(),
        ensures
            (match r {
                Some(gd) => {
                    &&& gd.mode == self.mode
                    &&& gd.options == self.options
                    &&& gd.players_in_game@.len() == self.mode.spec_players()
                    &&& gd.dog@.len() == self.mode.spec_dog_size()
                    &&& is_sorted(gd.dog@)
                    &&& forall|i: int|
                        0 <= i < gd.players_in_game@.len() ==> {
                            let p = #[trigger] gd.players_in_game@[i];
                            &&& p.mode == self.mode
                            &&& p.options == self.players@[i].options
                            &&& p.slam == false
                            &&& p.team is None
                            &&& p.role is None
                            &&& p.callee is None
                            &&& p.handle is None
                            &&& p.owned@.len() == 0
                            &&& p.discard@.len() == 0
                            &&& p.hand@.len() == self.mode.spec_cards_per_player()
                            &&& is_sorted(p.hand@)
                            &&& !is_petit_sec(p.hand@)
                        }
                    &&& forall|c: Card| deal_multiset(gd.dog@, gd.players_in_game@).count(c) == 1
                },
                None => true,
            }),
    {
        let deck = Deck::random();
        let ghost shuffled = deck@;
        let r = self.deal(deck);
        proof {
            match &r {
                Some(gd) => {
                    assert forall|c: Card|
                        #[trigger] deal_multiset(gd.dog@, gd.players_in_game@).count(c) == 1 by {
                        assert(shuffled.to_multiset().count(c) == 1);
                    }
                },
                None => {},
            }
        }
        r
    }
}

} // verus!
