use crate::card::Card;
use crate::contract::Contract;
use crate::deck::{has_fool_in, oudlers_of, spec_deck_points};
use crate::errors::TarotErrorKind;
use crate::game::{scores_sum, Game};
use crate::game_distributed::GameDistributed;
use crate::mode::Mode;
use crate::options::Options;
use crate::player::Player;
use crate::player_in_game::{legal_play_indices, turn_state_ok, PlayerInGame};
use crate::points::{BASE_CONTRACT_POINTS, MAX_CARDS};
use crate::role::Role;
use crate::team::Team;
use crate::turn::{spec_called, without_fool, Turn};
use vstd::prelude::*;

verus! {

/// One deal in play: the distributed deal, who took it and at what
/// contract, plus the running trick bookkeeping for the petit-au-bout
/// rule.
#[derive(Debug)]
pub struct GameStarted {
    pub game_distributed: GameDistributed,
    pub taker_index: usize,
    pub contract: Contract,
    pub options: Options,
    pub petit_au_bout_for_team: Option<Team>,
    pub defense_cards: usize,
    pub attack_cards: usize,
}

/// Whether winning this trick books the petit-au-bout bonus: the Petit is
/// among the banked cards, and this is the final trick, or the one before
/// it while one side stands to sweep the rest.
pub open spec fn spec_petit_award(
    cards: Seq<Card>,
    last: bool,
    before_last: bool,
    attack_near: bool,
    defense_near: bool,
) -> bool {
    cards.contains(Card::Trump(crate::trump::Trump::Petit)) && (last || (before_last && (
    attack_near || defense_near)))
}

/// Whether this seat won the Fool and owes the other side a card for it:
/// its pile is one card over whole tricks.
pub open spec fn spec_owes(p: PlayerInGame) -> bool {
    has_fool_in(p.owned@) && p.owned@.len() > 1 && p.owned@.len() as int % p.mode.spec_players()
        == 1
}

/// Whether this seat's pile is one card short of whole tricks: the Fool
/// went home from a trick this seat won.
pub open spec fn spec_missing(p: PlayerInGame) -> bool {
    !has_fool_in(p.owned@) && p.owned@.len() > 1 && p.owned@.len() as int % p.mode.spec_players()
        == p.mode.spec_players() - 1
}

/// The last seat among the first `n` that owes a card.
pub open spec fn last_owing_idx(players: Seq<PlayerInGame>, n: int) -> Option<int>
    decreases n,
{
    if n <= 0 {
        None
    } else if spec_owes(players[n - 1]) {
        Some(n - 1)
    } else {
        last_owing_idx(players, n - 1)
    }
}

/// The last seat among the first `n` that is owed a card.
pub open spec fn last_missing_idx(players: Seq<PlayerInGame>, n: int) -> Option<int>
    decreases n,
{
    if n <= 0 {
        None
    } else if spec_missing(players[n - 1]) {
        Some(n - 1)
    } else {
        last_missing_idx(players, n - 1)
    }
}

/// The last seat among the first `n` playing as ally.
pub open spec fn last_ally_idx(players: Seq<PlayerInGame>, n: int) -> Option<int>
    decreases n,
{
    if n <= 0 {
        None
    } else if players[n - 1].role == Some(Role::Ally) {
        Some(n - 1)
    } else {
        last_ally_idx(players, n - 1)
    }
}

/// Position of the first half-point card of `s`, or a negative value when
/// it holds none.
pub open spec fn first_low_index(s: Seq<Card>) -> int
    decreases s.len(),
{
    if s.len() == 0 {
        -1
    } else if s[0].spec_points() == 1 {
        0
    } else {
        let rest = first_low_index(s.drop_first());
        if rest < 0 {
            -1
        } else {
            rest + 1
        }
    }
}

/// The first-low position really is the first half-point card.
pub proof fn lemma_first_low_characterize(s: Seq<Card>)
    ensures
        first_low_index(s) >= 0 ==> 0 <= first_low_index(s) < s.len() && s[first_low_index(
            s,
        )].spec_points() == 1 && (forall|j: int|
            0 <= j < first_low_index(s) ==> s[j].spec_points() != 1),
        first_low_index(s) < 0 ==> (forall|j: int| 0 <= j < s.len() ==> s[j].spec_points() != 1),
    decreases s.len(),
{
    if s.len() > 0 && s[0].spec_points() != 1 {
        lemma_first_low_characterize(s.drop_first());
        let d = s.drop_first();
        if first_low_index(s) >= 0 {
            let fl = first_low_index(s);
            assert(first_low_index(d) == fl - 1);
            assert(s[fl] == d[fl - 1]);
            assert forall|j: int| 0 <= j < fl implies s[j].spec_points() != 1 by {
                if j >= 1 {
                    assert(s[j] == d[j - 1]);
                }
            }
        } else {
            assert(first_low_index(d) < 0);
            assert forall|j: int| 0 <= j < s.len() implies s[j].spec_points() != 1 by {
                if j >= 1 {
                    assert(s[j] == d[j - 1]);
                }
            }
        }
    }
}

/// Sum of the handle bonuses declared by the first `n` seats, in
/// half-points.
pub open spec fn handles_points(players: Seq<PlayerInGame>, n: int) -> int
    decreases n,
{
    if n <= 0 {
        0
    } else {
        handles_points(players, n - 1) + (match players[n - 1].handle {
            Some(h) => h.spec_points(),
            None => 0,
        })
    }
}

/// The piles of won cards after the owed-card exchange: when one seat owes
/// a card and another misses one, the first half-point card moves between
/// them; with no half-point card to give, nothing moves.
#[verifier::opaque]
pub open spec fn exchanged_owneds(players: Seq<PlayerInGame>) -> Seq<Seq<Card>> {
    let base = Seq::new(players.len(), |i: int| players[i].owned@);
    let n = players.len() as int;
    match (last_owing_idx(players, n), last_missing_idx(players, n)) {
        (Some(o), Some(m)) => {
            let fl = first_low_index(players[o].owned@);
            if fl >= 0 {
                base.update(o, players[o].owned@.remove(fl)).update(
                    m,
                    players[m].owned@.push(players[o].owned@[fl]),
                )
            } else {
                base
            }
        },
        _ => base,
    }
}

/// The piles of won cards as scoring tallies them, after the owed-card
/// exchange: the taker's own discard — the banked dog under a garde sans,
/// the taker's lawful discard otherwise — counts with the taker's
/// winnings, and so do the ally's winnings and discard when an ally
/// exists.
#[verifier::opaque]
pub open spec fn merged_owneds(players: Seq<PlayerInGame>, taker: int) -> Seq<Seq<Card>> {
    let ex = exchanged_owneds(players);
    let banked = ex.update(taker, ex[taker] + players[taker].discard@);
    match last_ally_idx(players, players.len() as int) {
        Some(a) => banked.update(taker, banked[taker] + (ex[a] + players[a].discard@)),
        None => banked,
    }
}

/// Composes the owed-card exchange and the ally merge: a state whose
/// piles match the exchange, then the merge, holds exactly the piles
/// `merged_owneds` describes.
pub proof fn lemma_merged_composition(
    players: Seq<PlayerInGame>,
    taker: int,
    ally: Option<int>,
    s1: Seq<PlayerInGame>,
    s2: Seq<PlayerInGame>,
)
    requires
        0 <= taker < players.len(),
        last_ally_idx(players, players.len() as int) == ally,
        s1.len() == players.len(),
        forall|k: int|
            0 <= k < s1.len() ==> (#[trigger] s1[k]) == (PlayerInGame {
                owned: s1[k].owned,
                ..players[k]
            }) && s1[k].owned@ == exchanged_owneds(players)[k],
        s2 == s1.update(taker, s2[taker]),
        s2[taker] == (PlayerInGame { owned: s2[taker].owned, ..s1[taker] }),
        (match ally {
            None => s2[taker].owned@ == s1[taker].owned@ + s1[taker].discard@,
            Some(a) => 0 <= a < s1.len() && s2[taker].owned@ == s1[taker].owned@
                + s1[taker].discard@ + (s1[a].owned@ + s1[a].discard@),
        }),
    ensures
        s2.len() == players.len(),
        forall|k: int|
            0 <= k < s2.len() ==> (#[trigger] s2[k]) == (PlayerInGame {
                owned: s2[k].owned,
                ..players[k]
            }) && s2[k].owned@ == merged_owneds(players, taker)[k],
        merged_owneds(players, taker)[taker].len() <= players[taker].owned@.len()
            + players[taker].discard@.len() + (match ally {
            Some(a) => players[a].owned@.len() + players[a].discard@.len() + 2,
            None => 1,
        }),
{
    reveal(exchanged_owneds);
    reveal(merged_owneds);
    let n = players.len() as int;
    let ex = exchanged_owneds(players);
    lemma_last_scan_props(players, n);
    assert forall|k: int| 0 <= k < n implies #[trigger] ex[k].len() <= players[k].owned@.len()
        + 1 by {
        match (last_owing_idx(players, n), last_missing_idx(players, n)) {
            (Some(o), Some(m)) => {
                let fl = first_low_index(players[o].owned@);
                lemma_first_low_characterize(players[o].owned@);
                if fl >= 0 {
                    if k == o {
                        assert(ex[k] == players[o].owned@.remove(fl));
                    } else if k == m {
                        assert(ex[k] == players[m].owned@.push(players[o].owned@[fl]));
                    } else {
                        assert(ex[k] == players[k].owned@);
                    }
                } else {
                    assert(ex[k] == players[k].owned@);
                }
            },
            _ => {
                assert(ex[k] == players[k].owned@);
            },
        }
    }
    assert(s1[taker].discard@ == players[taker].discard@);
    match ally {
        None => {
            assert(s2[taker].owned@ =~= ex[taker] + players[taker].discard@);
        },
        Some(a) => {
            assert(s1[a].discard@ == players[a].discard@);
            assert(s2[taker].owned@ =~= (ex[taker] + players[taker].discard@) + (ex[a]
                + players[a].discard@));
        },
    }
}

/// Sum of the score deltas of the first `k` seats.
pub open spec fn delta_sum(
    players: Seq<PlayerInGame>,
    taker: int,
    ally: Option<int>,
    pos: bool,
    ratio: int,
    pts: int,
    k: int,
) -> int
    decreases k,
{
    if k <= 0 {
        0
    } else {
        delta_sum(players, taker, ally, pos, ratio, pts, k - 1) + spec_delta(
            k - 1,
            taker,
            ally,
            players[k - 1].role,
            pos,
            ratio,
            pts,
        )
    }
}

/// Law: the score deltas of a completed deal cancel out exactly, for
/// every mode and every contract or ally configuration: the taker's
/// ratioed share is balanced by the ally's and the defenders' shares.
pub proof fn lemma_deal_scores_zero_sum(
    players: Seq<PlayerInGame>,
    mode: Mode,
    taker: int,
    ally: Option<int>,
    pos: bool,
    pts: int,
)
    requires
        players.len() == mode.spec_players(),
        0 <= taker < players.len(),
        players[taker].role == Some(Role::Taker),
        match ally {
            Some(a) => 0 <= a < players.len() && a != taker && players[a].role == Some(Role::Ally)
                && mode == Mode::Five,
            None => true,
        },
        forall|i: int|
            0 <= i < players.len() && i != taker && ally != Some(i) ==> (
            #[trigger] players[i]).role == Some(Role::Defenser),
    ensures
        delta_sum(
            players,
            taker,
            ally,
            pos,
            mode.spec_ratio(ally is Some),
            pts,
            players.len() as int,
        ) == 0,
{
    let n = players.len() as int;
    let ratio = mode.spec_ratio(ally is Some);
    reveal_with_fuel(delta_sum, 6);
    assert(2 * pts == pts + pts) by (nonlinear_arith);
    assert(3 * pts == pts + pts + pts) by (nonlinear_arith);
    assert(4 * pts == pts + pts + pts + pts) by (nonlinear_arith);
    match mode {
        Mode::Three => {
            assert(delta_sum(players, taker, ally, pos, ratio, pts, 3) == spec_delta(
                0,
                taker,
                ally,
                players[0].role,
                pos,
                ratio,
                pts,
            ) + spec_delta(1, taker, ally, players[1].role, pos, ratio, pts) + spec_delta(
                2,
                taker,
                ally,
                players[2].role,
                pos,
                ratio,
                pts,
            ));
        },
        Mode::Four => {
            assert(delta_sum(players, taker, ally, pos, ratio, pts, 4) == spec_delta(
                0,
                taker,
                ally,
                players[0].role,
                pos,
                ratio,
                pts,
            ) + spec_delta(1, taker, ally, players[1].role, pos, ratio, pts) + spec_delta(
                2,
                taker,
                ally,
                players[2].role,
                pos,
                ratio,
                pts,
            ) + spec_delta(3, taker, ally, players[3].role, pos, ratio, pts));
        },
        Mode::Five => {
            assert(delta_sum(players, taker, ally, pos, ratio, pts, 5) == spec_delta(
                0,
                taker,
                ally,
                players[0].role,
                pos,
                ratio,
                pts,
            ) + spec_delta(1, taker, ally, players[1].role, pos, ratio, pts) + spec_delta(
                2,
                taker,
                ally,
                players[2].role,
                pos,
                ratio,
                pts,
            ) + spec_delta(3, taker, ally, players[3].role, pos, ratio, pts) + spec_delta(
                4,
                taker,
                ally,
                players[4].role,
                pos,
                ratio,
                pts,
            ));
        },
    }
}

/// Applying the per-seat deltas moves the table's score sum by exactly
/// the delta sum.
pub proof fn lemma_scores_sum_with_deltas(
    scores0: Seq<Player>,
    gp: Seq<Player>,
    players: Seq<PlayerInGame>,
    taker: int,
    ally: Option<int>,
    pos: bool,
    ratio: int,
    pts: int,
    k: int,
)
    requires
        0 <= k <= scores0.len(),
        gp.len() == scores0.len(),
        scores0.len() == players.len(),
        forall|i: int|
            0 <= i < gp.len() ==> (#[trigger] gp[i]).score == scores0[i].score + spec_delta(
                i,
                taker,
                ally,
                players[i].role,
                pos,
                ratio,
                pts,
            ),
    ensures
        scores_sum(gp.take(k)) == scores_sum(scores0.take(k)) + delta_sum(
            players,
            taker,
            ally,
            pos,
            ratio,
            pts,
            k,
        ),
    decreases k,
{
    if k > 0 {
        lemma_scores_sum_with_deltas(scores0, gp, players, taker, ally, pos, ratio, pts, k - 1);
        assert(gp.take(k).drop_last() =~= gp.take(k - 1));
        assert(scores0.take(k).drop_last() =~= scores0.take(k - 1));
        assert(gp.take(k).last() == gp[k - 1]);
        assert(scores0.take(k).last() == scores0[k - 1]);
    }
}

/// Law: replaying a deal is deterministic. The scoring contract pins the
/// final scores as a function of the piles, the decisions and the deal's
/// bookkeeping alone, so two tables that finish a deal in the same state
/// show the same scores.
pub proof fn lemma_replay_deterministic(
    gp1: Seq<Player>,
    gp2: Seq<Player>,
    scores0: Seq<Player>,
    players: Seq<PlayerInGame>,
    taker: int,
    ally: Option<int>,
    pos: bool,
    ratio: int,
    pts: int,
)
    requires
        gp1.len() == scores0.len(),
        gp2.len() == scores0.len(),
        forall|i: int|
            0 <= i < gp1.len() ==> (#[trigger] gp1[i]) == (Player {
                score: (scores0[i].score + spec_delta(
                    i,
                    taker,
                    ally,
                    players[i].role,
                    pos,
                    ratio,
                    pts,
                )) as i64,
                ..scores0[i]
            }),
        forall|i: int|
            0 <= i < gp2.len() ==> (#[trigger] gp2[i]) == (Player {
                score: (scores0[i].score + spec_delta(
                    i,
                    taker,
                    ally,
                    players[i].role,
                    pos,
                    ratio,
                    pts,
                )) as i64,
                ..scores0[i]
            }),
    ensures
        gp1 == gp2,
{
    assert(gp1 =~= gp2);
}

/// The taker's target in half-points, from the number of oudlers banked.
pub open spec fn spec_target(oudlers: int) -> int {
    if oudlers == 0 {
        112
    } else if oudlers == 1 {
        102
    } else if oudlers == 2 {
        82
    } else {
        72
    }
}

/// The contract's raw outcome: the margin over the target plus the base
/// stake when the target is met, minus it otherwise, times the contract
/// multiplier.
pub open spec fn spec_contract_points(taker_points: int, target: int, mult: int) -> int {
    if taker_points >= target {
        (taker_points - target + BASE_CONTRACT_POINTS) * mult
    } else {
        (taker_points - target - BASE_CONTRACT_POINTS) * mult
    }
}

/// The petit-au-bout bonus, signed for the attack: ten points times the
/// multiplier, credited to the attack or the defense.
pub open spec fn spec_petit_bonus(team: Option<Team>, mult: int) -> int {
    match team {
        Some(Team::Attack) => 20 * mult,
        Some(Team::Defense) => -20 * mult,
        None => 0,
    }
}

/// The slam bonus of a pile, in half-points: an announced and achieved
/// slam earns 400 points, a failed announcement or an empty pile costs
/// 200, an unannounced slam still earns 200.
pub open spec fn slam_bonus_of(slam: bool, pile: Seq<Card>) -> int {
    let chelem = spec_deck_points(pile) == crate::points::MAX_POINTS || spec_deck_points(pile)
        == crate::points::MAX_POINTS_WITHOUT_FOOL;
    if slam {
        if chelem {
            800
        } else {
            -400
        }
    } else if chelem {
        400
    } else if pile.len() == 0 || crate::deck::only_fool_in(pile) {
        -400
    } else {
        0
    }
}

/// One seat's score delta for the deal: the taker's share times the
/// ratio, the ally's raw share, the defenders' opposite share — all
/// signed by whether the contract was made (`pos`).
pub open spec fn spec_delta(
    i: int,
    taker: int,
    ally: Option<int>,
    role: Option<Role>,
    pos: bool,
    ratio: int,
    pts: int,
) -> int {
    (if i == taker {
        if pos {
            ratio * pts
        } else {
            -(ratio * pts)
        }
    } else {
        0
    }) + (if ally == Some(i) {
        if pos {
            pts
        } else {
            -pts
        }
    } else {
        0
    }) + (if role == Some(Role::Defenser) {
        if pos {
            -pts
        } else {
            pts
        }
    } else {
        0
    })
}

/// A scan that reports the last owing seat really found one.
pub proof fn lemma_last_scan_props(players: Seq<PlayerInGame>, n: int)
    requires
        n <= players.len(),
    ensures
        last_owing_idx(players, n) matches Some(o) ==> 0 <= o < n && spec_owes(players[o]),
        last_missing_idx(players, n) matches Some(m) ==> 0 <= m < n && spec_missing(players[m]),
        last_ally_idx(players, n) matches Some(a) ==> 0 <= a < n && players[a].role == Some(
            Role::Ally,
        ),
    decreases n,
{
    if n > 0 {
        lemma_last_scan_props(players, n - 1);
    }
}

/// The sum of card points lies between one and nine half-points per card.
pub proof fn lemma_points_sum_bounds(s: Seq<Card>)
    ensures
        s.len() <= crate::deck::points_sum(s) <= 9 * s.len(),
    decreases s.len(),
{
    if s.len() > 0 {
        lemma_points_sum_bounds(s.drop_last());
    }
}

impl GameStarted {
    /// Open play on a distributed deal.
    pub fn new(game_distributed: GameDistributed, taker_index: usize, contract: Contract) -> (r:
        GameStarted)
        ensures
            r.game_distributed == game_distributed,
            r.taker_index == taker_index,
            r.contract == contract,
            r.options == game_distributed.options,
            r.petit_au_bout_for_team is None,
            r.defense_cards == 0,
            r.attack_cards == 0,
    {
        let options = game_distributed.options;
        GameStarted {
            game_distributed,
            taker_index,
            contract,
            options,
            petit_au_bout_for_team: None,
            defense_cards: 0,
            attack_cards: 0,
        }
    }

    /// Whether every hand has been played out.
    pub fn finished(&self) -> (r: bool)
        ensures
            r == (forall|i: int|
                0 <= i < self.game_distributed.players_in_game@.len() ==> (
                #[trigger] self.game_distributed.players_in_game@[i]).hand@.len() == 0),
    {
        self.game_distributed.finished()
    }

    /// The next seat of the trick plays the card at position `choice` of
    /// its hand. The card joins the trick; a non-Fool card takes the
    /// master mark when it beats the standing master. The Fool goes
    /// straight back to its owner's pile except in the deal's final
    /// trick, where it stays in play and takes the master mark exactly
    /// when its side has banked every card of the previous tricks — a
    /// slam in progress.
    pub fn play_step(&mut self, game: &Game, turn: &mut Turn, choice: usize) -> (r: Result<
        (),
        TarotErrorKind,
    >)
        requires
            old(turn)@.len() < old(self).game_distributed.players_in_game@.len(),
            game.players@.len() == old(self).game_distributed.players_in_game@.len(),
            old(turn).master_index matches Some(i) ==> i < old(turn)@.len(),
        ensures
            final(self).taker_index == old(self).taker_index,
            final(self).contract == old(self).contract,
            final(self).options == old(self).options,
            final(self).petit_au_bout_for_team == old(self).petit_au_bout_for_team,
            final(self).defense_cards == old(self).defense_cards,
            final(self).attack_cards == old(self).attack_cards,
            final(self).game_distributed.dog == old(self).game_distributed.dog,
            final(self).game_distributed.mode == old(self).game_distributed.mode,
            final(self).game_distributed.options == old(self).game_distributed.options,
            ({
                let seat = old(turn)@.len() as int;
                let players = old(self).game_distributed.players_in_game@;
                let pig = players[seat];
                let called = spec_called(old(turn)@);
                let master = old(turn).spec_master_card();
                let legal = legal_play_indices(
                    pig.hand@,
                    called,
                    master,
                    pig.hand@.len() == pig.mode.spec_cards_per_player() && pig.mode == Mode::Five,
                    pig.callee,
                );
                if pig.team is None {
                    r matches Err(TarotErrorKind::NoTeamForPlayer(_)) && final(self).game_distributed.players_in_game@ == players && *final(turn) == *old(turn)
                } else if pig.role is None {
                    r matches Err(TarotErrorKind::NoRoleForPlayer(_)) && final(self).game_distributed.players_in_game@ == players && *final(turn) == *old(turn)
                } else if !pig.spec_owned_count_ok() {
                    r matches Err(TarotErrorKind::InvalidDeck(_)) && final(self).game_distributed.players_in_game@ == players && *final(turn) == *old(turn)
                } else if !turn_state_ok(called, master) {
                    r matches Err(TarotErrorKind::InvalidCase(_)) && final(self).game_distributed.players_in_game@ == players && *final(turn) == *old(turn)
                } else if !legal.contains(choice as int) {
                    r matches Err(TarotErrorKind::NoCard(_)) && final(self).game_distributed.players_in_game@ == players && *final(turn) == *old(turn)
                } else {
                    let card = pig.hand@[choice as int];
                    let hand2 = pig.hand@.remove(choice as int);
                    let fool_returned = card.spec_is_fool() && hand2.len() > 0;
                    let fp = final(self).game_distributed.players_in_game@;
                    &&& r is Ok
                    &&& final(turn)@ == old(turn)@.push(card)
                    &&& fp == players.update(seat, fp[seat])
                    &&& fp[seat].hand@ == hand2
                    &&& (if fool_returned {
                        fp[seat] == (PlayerInGame {
                            hand: fp[seat].hand,
                            owned: fp[seat].owned,
                            ..pig
                        }) && fp[seat].owned@ == pig.owned@.push(card)
                    } else {
                        fp[seat] == (PlayerInGame { hand: fp[seat].hand, ..pig })
                    })
                    &&& final(turn).master_index == (if card.spec_is_fool() {
                        if hand2.len() == 0 && ((pig.team == Some(Team::Attack) && old(self).attack_cards == MAX_CARDS - old(self).game_distributed.mode.spec_dog_size() - old(self).game_distributed.mode.spec_players()) || (pig.team == Some(
                            Team::Defense,
                        ) && old(self).defense_cards == MAX_CARDS - old(self).game_distributed.mode.spec_dog_size() - old(self).game_distributed.mode.spec_players())) {
                            Some(old(turn)@.len() as usize)
                        } else {
                            old(turn).master_index
                        }
                    } else {
                        match master {
                            None => Some(old(turn)@.len() as usize),
                            Some(mc) => if mc.spec_master(card) {
                                old(turn).master_index
                            } else {
                                Some(old(turn)@.len() as usize)
                            },
                        }
                    })
                }
            }),
    {
        let ghost players0 = old(self).game_distributed.players_in_game@;
        let seat = turn.len();
        let team = match self.game_distributed.players_in_game[seat].team {
            Some(t) => t,
            None => {
                let name = match game.player(seat) {
                    Ok(p) => p.name().to_owned(),
                    Err(_) => String::new(),
                };
                return Err(TarotErrorKind::NoTeamForPlayer(name));
            },
        };
        let player = match game.player(seat) {
            Ok(p) => p,
            Err(e) => {
                proof {
                    assert(false);
                }
                return Err(e);
            },
        };
        let card = match self.game_distributed.players_in_game[seat].play_card(
            player,
            turn,
            choice,
        ) {
            Ok(c) => c,
            Err(e) => {
                proof {
                    assert(self.game_distributed.players_in_game@ =~= players0);
                }
                return Err(e);
            },
        };
        proof {
            assert(self.game_distributed.players_in_game@ =~= players0.update(
                seat as int,
                self.game_distributed.players_in_game@[seat as int],
            ));
        }
        if card.is_fool() {
            if self.game_distributed.players_in_game[seat].last_turn() {
                turn.put(card);
                proof {
                    assert(turn@ == old(turn)@.push(card));
                }
                let near = MAX_CARDS - self.game_distributed.mode.dog_size()
                    - self.game_distributed.mode.players();
                let counter = match team {
                    Team::Attack => self.attack_cards,
                    Team::Defense => self.defense_cards,
                };
                if counter == near {
                    let len = turn.len();
                    turn.master_index = Some(len - 1);
                }
            } else {
                self.game_distributed.players_in_game[seat].push_owned(card);
                turn.put(card);
                proof {
                    assert(turn@ == old(turn)@.push(card));
                    assert(self.game_distributed.players_in_game@ =~= players0.update(
                        seat as int,
                        self.game_distributed.players_in_game@[seat as int],
                    ));
                }
            }
        } else {
            turn.put(card);
            proof {
                assert(turn@ == old(turn)@.push(card));
            }
            let len = turn.len();
            match turn.master_card() {
                Some(master) => {
                    if !master.master(card) {
                        turn.master_index = Some(len - 1);
                    }
                },
                None => {
                    turn.master_index = Some(len - 1);
                },
            }
        }
        proof {
            let seat_i = seat as int;
            let pig = players0[seat_i];
            let card_s = pig.hand@[choice as int];
            let hand2 = pig.hand@.remove(choice as int);
            let fp = self.game_distributed.players_in_game@;
            assert(card_s == card);
            assert(fp == players0.update(seat_i, fp[seat_i]));
            assert(fp[seat_i].hand@ == hand2);
            assert(turn@ == old(turn)@.push(card_s));
        }
        Ok(())
    }

    /// Close a finished trick: the seat holding the master mark wins it
    /// and banks its cards — all of them in the deal's final trick, all
    /// but the Fool otherwise. Winning the Petit in the final trick, or in
    /// the trick before it while one side is about to sweep the rest,
    /// books the petit-au-bout bonus for the winner's side. The winner's
    /// seat is returned so play can rotate to it.
    #[verifier::rlimit(100)]
    pub fn finish_turn(&mut self, game: &Game, turn: Turn) -> (r: Result<usize, TarotErrorKind>)
        requires
            turn@.len() == old(self).game_distributed.players_in_game@.len(),
            game.players@.len() == old(self).game_distributed.players_in_game@.len(),
            old(self).game_distributed.players_in_game@.len() <= MAX_CARDS,
            old(self).attack_cards <= MAX_CARDS,
            old(self).defense_cards <= MAX_CARDS,
            turn.master_index matches Some(i) ==> i < turn@.len(),
        ensures
            final(self).contract == old(self).contract,
            final(self).options == old(self).options,
            final(self).taker_index == old(self).taker_index,
            final(self).game_distributed.dog == old(self).game_distributed.dog,
            final(self).game_distributed.mode == old(self).game_distributed.mode,
            final(self).game_distributed.options == old(self).game_distributed.options,
            ({
                let players = old(self).game_distributed.players_in_game@;
                match turn.master_index {
                    None => r matches Err(TarotErrorKind::NoMaster(_)),
                    Some(m) => {
                        let winner = players[m as int];
                        if winner.team is None {
                            r matches Err(TarotErrorKind::NoTeamForPlayer(_))
                        } else {
                            let last = winner.hand@.len() == 0;
                            let cards = if last {
                                turn@
                            } else {
                                without_fool(turn@)
                            };
                            let fp = final(self).game_distributed.players_in_game@;
                            &&& r == Ok::<usize, TarotErrorKind>(m)
                            &&& fp == players.update(m as int, fp[m as int])
                            &&& fp[m as int].owned@ == winner.owned@ + cards
                            &&& fp[m as int] == (PlayerInGame {
                                owned: fp[m as int].owned,
                                ..winner
                            })
                            &&& final(self).petit_au_bout_for_team == (if spec_petit_award(
                                cards,
                                last,
                                winner.hand@.len() == 1,
                                old(self).attack_cards == MAX_CARDS - old(self).game_distributed.mode.spec_dog_size() - old(self).game_distributed.mode.spec_players(),
                                old(self).defense_cards == MAX_CARDS - old(self).game_distributed.mode.spec_dog_size() - old(self).game_distributed.mode.spec_players(),
                            ) {
                                winner.team
                            } else {
                                old(self).petit_au_bout_for_team
                            })
                            &&& final(self).attack_cards == old(self).attack_cards + (if winner.team
                                == Some(Team::Attack) {
                                cards.len() as int
                            } else {
                                0
                            })
                            &&& final(self).defense_cards == old(self).defense_cards + (
                            if winner.team == Some(Team::Defense) {
                                cards.len() as int
                            } else {
                                0
                            })
                        }
                    },
                }
            }),
    {
        let m = match turn.master_index {
            Some(m) => m,
            None => {
                return Err(TarotErrorKind::NoMaster(0));
            },
        };
        let team = match self.game_distributed.players_in_game[m].team {
            Some(t) => t,
            None => {
                let name = match game.player(m) {
                    Ok(p) => p.name().to_owned(),
                    Err(_) => String::new(),
                };
                return Err(TarotErrorKind::NoTeamForPlayer(name));
            },
        };
        let last = self.game_distributed.players_in_game[m].last_turn();
        let before_last = self.game_distributed.players_in_game[m].before_last_turn();
        let near = MAX_CARDS - self.game_distributed.mode.dog_size()
            - self.game_distributed.mode.players();
        let attack_near = self.attack_cards == near;
        let defense_near = self.defense_cards == near;
        let turn_cards = if last {
            turn.take_all_cards()
        } else {
            turn.take_cards_except_fool()
        };
        proof {
            assert(turn_cards@.len() <= turn@.len()) by {
                broadcast use vstd::seq_lib::group_filter_ensures;

            }
        }
        if turn_cards.has_petit() && (last || (before_last && (attack_near || defense_near))) {
            self.petit_au_bout_for_team = Some(team);
        }
        let won = turn_cards.len();
        let ghost players1 = self.game_distributed.players_in_game@;
        self.game_distributed.players_in_game[m].extend_owned(&turn_cards);
        proof {
            assert(self.game_distributed.players_in_game@ =~= players1.update(
                m as int,
                self.game_distributed.players_in_game@[m as int],
            ));
        }
        match team {
            Team::Attack => {
                self.attack_cards = self.attack_cards + won;
            },
            Team::Defense => {
                self.defense_cards = self.defense_cards + won;
            },
        }
        Ok(m)
    }

    /// One pass over the seats before scoring: every seat must have a
    /// role; the scan reports the last ally, the last seat owing a card,
    /// the last seat owed one, and the declared handle bonuses.
    fn scan_seats(&self, game: &Game) -> (r: Result<
        (Option<usize>, Option<usize>, Option<usize>, i64),
        TarotErrorKind,
    >)
        requires
            game.players@.len() == self.game_distributed.players_in_game@.len(),
            self.game_distributed.players_in_game@.len() <= MAX_CARDS,
        ensures
            ({
                let players = self.game_distributed.players_in_game@;
                let n = players.len() as int;
                if exists|j: int| 0 <= j < n && (#[trigger] players[j]).role is None {
                    r matches Err(TarotErrorKind::NoRoleForPlayer(_))
                } else {
                    r matches Ok(t) && (match t.0 {
                        None => last_ally_idx(players, n) is None,
                        Some(a) => last_ally_idx(players, n) == Some(a as int) && a < n,
                    }) && (match t.1 {
                        None => last_owing_idx(players, n) is None,
                        Some(o) => last_owing_idx(players, n) == Some(o as int) && o < n,
                    }) && (match t.2 {
                        None => last_missing_idx(players, n) is None,
                        Some(m) => last_missing_idx(players, n) == Some(m as int) && m < n,
                    }) && t.3 == handles_points(players, n) && 0 <= t.3 <= 80 * n
                }
            }),
    {
        let ghost players = self.game_distributed.players_in_game@;
        let n = self.game_distributed.players_in_game.len();
        let mut ally_index: Option<usize> = None;
        let mut owing: Option<usize> = None;
        let mut missing: Option<usize> = None;
        let mut handle_bonuses: i64 = 0;
        let mut i: usize = 0;
        while i < n
            invariant
                n == players.len(),
                n <= MAX_CARDS,
                players == self.game_distributed.players_in_game@,
                i <= n,
                forall|j: int| 0 <= j < i ==> (#[trigger] players[j]).role is Some,
                match ally_index {
                    None => last_ally_idx(players, i as int) is None,
                    Some(a) => last_ally_idx(players, i as int) == Some(a as int) && a < i,
                },
                match owing {
                    None => last_owing_idx(players, i as int) is None,
                    Some(o) => last_owing_idx(players, i as int) == Some(o as int) && o < i,
                },
                match missing {
                    None => last_missing_idx(players, i as int) is None,
                    Some(m) => last_missing_idx(players, i as int) == Some(m as int) && m < i,
                },
                handle_bonuses == handles_points(players, i as int),
                0 <= handle_bonuses <= 80 * i,
            decreases n - i,
        {
            if self.game_distributed.players_in_game[i].role().is_none() {
                let name = match game.player(i) {
                    Ok(p) => p.name().to_owned(),
                    Err(_) => String::new(),
                };
                return Err(TarotErrorKind::NoRoleForPlayer(name));
            }
            if self.game_distributed.players_in_game[i].owe_card() {
                owing = Some(i);
            }
            if self.game_distributed.players_in_game[i].missing_card() {
                missing = Some(i);
            }
            match self.game_distributed.players_in_game[i].handle() {
                Some(h) => {
                    let bonus = h.points();
                    handle_bonuses = handle_bonuses + bonus;
                },
                None => {},
            }
            let is_ally = matches!(self.game_distributed.players_in_game[i].role, Some(Role::Ally));
            if is_ally {
                ally_index = Some(i);
            }
            i = i + 1;
        }
        Ok((ally_index, owing, missing, handle_bonuses))
    }

    /// Apply one deal's score deltas across the table; see `spec_delta`.
    fn apply_deltas(
        &self,
        game: &mut Game,
        ally_index: Option<usize>,
        ratio: i64,
        points: i64,
        sign_pos: bool,
    )
        requires
            old(game).players@.len() == self.game_distributed.players_in_game@.len(),
            self.game_distributed.players_in_game@.len() <= MAX_CARDS,
            self.taker_index < self.game_distributed.players_in_game@.len(),
            -30000 <= points <= 30000,
            2 <= ratio <= 4,
            ally_index matches Some(a) ==> a < self.game_distributed.players_in_game@.len(),
            forall|i: int|
                0 <= i < old(game).players@.len() ==> -(i64::MAX - 0x40000) <= (#[trigger] old(game).players@[i]).score <= i64::MAX - 0x40000,
        ensures
            final(game).mode == old(game).mode,
            final(game).options == old(game).options,
            final(game).dealer == old(game).dealer,
            final(game).players@.len() == old(game).players@.len(),
            ({
                let n = old(game).players@.len() as int;
                let scores0 = old(game).players@;
                let ally = match ally_index {
                    Some(a) => Some(a as int),
                    None => None::<int>,
                };
                forall|j: int|
                    0 <= j < n ==> (#[trigger] final(game).players@[j]) == (Player {
                        score: (scores0[j].score + spec_delta(
                            j,
                            self.taker_index as int,
                            ally,
                            self.game_distributed.players_in_game@[j].role,
                            sign_pos,
                            ratio as int,
                            points as int,
                        )) as i64,
                        ..scores0[j]
                    })
            }),
    {
        let ghost scores0 = old(game).players@;
        let n = game.players.len();
        let taker_index = self.taker_index;
        let mut k: usize = 0;
        while k < n
            invariant
                n == scores0.len(),
                n <= MAX_CARDS,
                n == self.game_distributed.players_in_game@.len(),
                k <= n,
                taker_index == self.taker_index < n,
                game.players@.len() == n,
                game.mode == old(game).mode,
                game.options == old(game).options,
                game.dealer == old(game).dealer,
                -30000 <= points <= 30000,
                2 <= ratio <= 4,
                ally_index matches Some(a) ==> a < n,
                forall|j: int|
                    0 <= j < n ==> -(i64::MAX - 0x40000) <= (#[trigger] scores0[j]).score
                        <= i64::MAX - 0x40000,
                ({
                    let ally = match ally_index {
                        Some(a) => Some(a as int),
                        None => None::<int>,
                    };
                    &&& (forall|j: int|
                        0 <= j < k ==> (#[trigger] game.players@[j]) == (Player {
                            score: (scores0[j].score + spec_delta(
                                j,
                                taker_index as int,
                                ally,
                                self.game_distributed.players_in_game@[j].role,
                                sign_pos,
                                ratio as int,
                                points as int,
                            )) as i64,
                            ..scores0[j]
                        }))
                    &&& (forall|j: int| k <= j < n ==> (#[trigger] game.players@[j]) == scores0[j])
                }),
            decreases n - k,
        {
            proof {
                assert(-120000 <= ratio * points <= 120000) by (nonlinear_arith)
                    requires
                        2 <= ratio <= 4,
                        -30000 <= points <= 30000,
                ;
            }
            let mut delta: i64 = 0;
            if k == taker_index {
                let t = ratio * points;
                delta = if sign_pos {
                    t
                } else {
                    -t
                };
            }
            let is_a = match ally_index {
                Some(a) => a == k,
                None => false,
            };
            if is_a {
                delta = delta + (if sign_pos {
                    points
                } else {
                    -points
                });
            }
            let is_def = matches!(
                self.game_distributed.players_in_game[k].role,
                Some(Role::Defenser)
            );
            if is_def {
                delta = delta - (if sign_pos {
                    points
                } else {
                    -points
                });
            }
            game.add_score_at(k, delta);
            k = k + 1;
        }
    }

    /// Move the first half-point card from the seat owing one to the seat
    /// missing one, when both exist: the owed-card exchange for a
    /// travelled Fool. With no half-point card to give, nothing moves.
    #[verifier::rlimit(100)]
    fn do_exchange(&mut self, owing: Option<usize>, missing: Option<usize>)
        requires
            ({
                let players = old(self).game_distributed.players_in_game@;
                let n = players.len() as int;
                &&& (match owing {
                    None => last_owing_idx(players, n) is None,
                    Some(o) => last_owing_idx(players, n) == Some(o as int) && o < n,
                })
                &&& (match missing {
                    None => last_missing_idx(players, n) is None,
                    Some(m) => last_missing_idx(players, n) == Some(m as int) && m < n,
                })
            }),
        ensures
            final(self).taker_index == old(self).taker_index,
            final(self).contract == old(self).contract,
            final(self).options == old(self).options,
            final(self).petit_au_bout_for_team == old(self).petit_au_bout_for_team,
            final(self).attack_cards == old(self).attack_cards,
            final(self).defense_cards == old(self).defense_cards,
            final(self).game_distributed.dog == old(self).game_distributed.dog,
            final(self).game_distributed.mode == old(self).game_distributed.mode,
            final(self).game_distributed.options == old(self).game_distributed.options,
            ({
                let players = old(self).game_distributed.players_in_game@;
                let n = players.len() as int;
                let ex = exchanged_owneds(players);
                let fp = final(self).game_distributed.players_in_game@;
                &&& fp.len() == n
                &&& (forall|k: int|
                    0 <= k < n ==> (#[trigger] fp[k]) == (PlayerInGame {
                        owned: fp[k].owned,
                        ..players[k]
                    }) && fp[k].owned@ == ex[k])
            }),
    {
        let ghost players = self.game_distributed.players_in_game@;
        let n = self.game_distributed.players_in_game.len();
        let ghost ex = exchanged_owneds(players);
        proof {
            reveal(exchanged_owneds);
            lemma_last_scan_props(players, n as int);
        }
        match (owing, missing) {
            (Some(o), Some(m)) => {
                proof {
                    lemma_first_low_characterize(players[o as int].owned@);
                    assert(spec_owes(players[o as int]) && spec_missing(players[m as int]));
                    assert(o != m);
                }
                let low = self.game_distributed.players_in_game[o].give_low();
                match low {
                    Some(lc) => {
                        proof {
                            let owned0 = players[o as int].owned@;
                            let fl = first_low_index(owned0);
                            let i0 = choose|i0: int|
                                0 <= i0 < owned0.len() && owned0[i0].spec_points() == 1 && (
                                forall|j: int| 0 <= j < i0 ==> owned0[j].spec_points() != 1) && lc
                                    == owned0[i0]
                                    && self.game_distributed.players_in_game@[o as int].owned@
                                    == owned0.remove(i0);
                            assert(i0 == fl) by {
                                if i0 < fl {
                                    assert(owned0[i0].spec_points() != 1);
                                } else if i0 > fl {
                                    assert(owned0[fl].spec_points() != 1);
                                }
                            }
                        }
                        self.game_distributed.players_in_game[m].push_owned(lc);
                        proof {
                            reveal(exchanged_owneds);
                            let fl = first_low_index(players[o as int].owned@);
                            assert forall|k: int|
                                0 <= k < n implies
                                #[trigger] self.game_distributed.players_in_game@[k].owned@
                                == ex[k] by {
                                if k == o as int {
                                    assert(ex[k] == players[o as int].owned@.remove(fl));
                                } else if k == m as int {
                                    assert(ex[k] == players[m as int].owned@.push(
                                        players[o as int].owned@[fl],
                                    ));
                                } else {
                                    assert(ex[k] == players[k].owned@);
                                }
                            }
                        }
                    },
                    None => {
                        proof {
                            reveal(exchanged_owneds);
                            assert(first_low_index(players[o as int].owned@) < 0);
                            assert forall|k: int|
                                0 <= k < n implies
                                #[trigger] self.game_distributed.players_in_game@[k].owned@
                                == ex[k] by {}
                        }
                    },
                }
            },
            _ => {
                proof {
                    reveal(exchanged_owneds);
                    assert forall|k: int|
                        0 <= k < n implies
                        #[trigger] self.game_distributed.players_in_game@[k].owned@ == ex[k] by {}
                }
            },
        }
    }

    /// Fold into the taker's pile everything scoring counts with it: the
    /// taker's own discard, and the ally's winnings and discard when an
    /// ally exists. The donors keep their own copies; only the taker's
    /// tally grows.
    #[verifier::rlimit(100)]
    fn fold_taker_cards(&mut self, ally_index: Option<usize>)
        requires
            old(self).taker_index < old(self).game_distributed.players_in_game@.len(),
            ally_index matches Some(a) ==> a < old(self).game_distributed.players_in_game@.len(),
        ensures
            final(self).taker_index == old(self).taker_index,
            final(self).contract == old(self).contract,
            final(self).options == old(self).options,
            final(self).petit_au_bout_for_team == old(self).petit_au_bout_for_team,
            final(self).attack_cards == old(self).attack_cards,
            final(self).defense_cards == old(self).defense_cards,
            final(self).game_distributed.dog == old(self).game_distributed.dog,
            final(self).game_distributed.mode == old(self).game_distributed.mode,
            final(self).game_distributed.options == old(self).game_distributed.options,
            ({
                let players = old(self).game_distributed.players_in_game@;
                let taker = old(self).taker_index as int;
                let fp = final(self).game_distributed.players_in_game@;
                &&& fp == players.update(taker, fp[taker])
                &&& fp[taker] == (PlayerInGame { owned: fp[taker].owned, ..players[taker] })
                &&& (match ally_index {
                    None => fp[taker].owned@ == players[taker].owned@ + players[taker].discard@,
                    Some(a) => fp[taker].owned@ == players[taker].owned@
                        + players[taker].discard@ + (players[a as int].owned@
                        + players[a as int].discard@),
                })
            }),
    {
        let ghost players = self.game_distributed.players_in_game@;
        let taker_index = self.taker_index;
        let ally_cards = match ally_index {
            Some(a) => Some(self.game_distributed.players_in_game[a].all_cards()),
            None => None,
        };
        let own_discard = self.game_distributed.players_in_game[taker_index].discard.duplicate();
        self.game_distributed.players_in_game[taker_index].extend_owned(&own_discard);
        match ally_cards {
            Some(cards) => {
                self.game_distributed.players_in_game[taker_index].extend_owned(&cards);
            },
            None => {},
        }
        proof {
            assert(self.game_distributed.players_in_game@ =~= players.update(
                taker_index as int,
                self.game_distributed.players_in_game@[taker_index as int],
            ));
        }
    }

    /// Score the finished deal. The taker's own discard and, when an ally
    /// exists, the ally's winnings and discard are counted with the
    /// taker's, after the owed-card exchange for a travelled Fool; the taker's points are held against the oudler
    /// target; contract outcome, petit au bout, handles and slam bonus are
    /// combined into one stake, which the taker wins or loses at the
    /// table's ratio, the ally at face value and each defender against.
    /// The deltas must cancel out over the table, or the deal is reported
    /// inconsistent.
    #[verifier::rlimit(100)]
    pub fn count_points(&mut self, game: &mut Game) -> (r: Result<(), TarotErrorKind>)
        requires
            old(game).players@.len() == old(self).game_distributed.players_in_game@.len(),
            old(self).game_distributed.players_in_game@.len() <= MAX_CARDS,
            old(self).taker_index < old(self).game_distributed.players_in_game@.len(),
            forall|i: int|
                0 <= i < old(self).game_distributed.players_in_game@.len() ==> (#[trigger] old(self).game_distributed.players_in_game@[i]).owned@.len() <= MAX_CARDS && old(self).game_distributed.players_in_game@[i].discard@.len() <= MAX_CARDS,
            forall|i: int|
                0 <= i < old(game).players@.len() ==> -(i64::MAX - 0x40000) <= (#[trigger] old(game).players@[i]).score <= i64::MAX - 0x40000,
        ensures
            final(self).taker_index == old(self).taker_index,
            final(self).contract == old(self).contract,
            final(self).options == old(self).options,
            final(self).petit_au_bout_for_team == old(self).petit_au_bout_for_team,
            final(self).attack_cards == old(self).attack_cards,
            final(self).defense_cards == old(self).defense_cards,
            final(self).game_distributed.dog == old(self).game_distributed.dog,
            final(self).game_distributed.mode == old(self).game_distributed.mode,
            final(self).game_distributed.options == old(self).game_distributed.options,
            final(game).mode == old(game).mode,
            final(game).options == old(game).options,
            final(game).dealer == old(game).dealer,
            ({
                let n = old(self).game_distributed.players_in_game@.len() as int;
                let players = old(self).game_distributed.players_in_game@;
                let scores0 = old(game).players@;
                let taker = old(self).taker_index as int;
                if exists|j: int| 0 <= j < n && (#[trigger] players[j]).role is None {
                    r matches Err(TarotErrorKind::NoRoleForPlayer(_)) && final(self).game_distributed.players_in_game@ == players && final(game).players@
                        == scores0
                } else {
                    let merged = merged_owneds(players, taker);
                    let fp = final(self).game_distributed.players_in_game@;
                    let pile = merged[taker];
                    &&& fp.len() == n
                    &&& (forall|i: int|
                        0 <= i < n ==> (#[trigger] fp[i]) == (PlayerInGame {
                            owned: fp[i].owned,
                            ..players[i]
                        }) && fp[i].owned@ == merged[i])
                    &&& (if oudlers_of(pile).len() > 3 {
                        (r matches Err(TarotErrorKind::InvalidOudlersCount(_))) && final(game).players@ == scores0
                    } else {
                        let target = spec_target(oudlers_of(pile).len() as int);
                        let mult = old(self).contract.spec_multiplier();
                        let cp = spec_contract_points(spec_deck_points(pile), target, mult);
                        let pts = cp + spec_petit_bonus(old(self).petit_au_bout_for_team, mult)
                            + handles_points(players, n) + slam_bonus_of(players[taker].slam, pile);
                        let ally = last_ally_idx(players, n);
                        let ratio = old(self).game_distributed.mode.spec_ratio(ally is Some);
                        let gp = final(game).players@;
                        &&& gp.len() == n
                        &&& (forall|i: int|
                            0 <= i < n ==> (#[trigger] gp[i]) == (Player {
                                score: (scores0[i].score + spec_delta(
                                    i,
                                    taker,
                                    ally,
                                    players[i].role,
                                    cp >= 0,
                                    ratio,
                                    pts,
                                )) as i64,
                                ..scores0[i]
                            }))
                        &&& (r is Ok <==> scores_sum(gp) == 0)
                        &&& (r is Ok || r matches Err(TarotErrorKind::InvalidScores(_)))
                    })
                }
            }),
    {
        let ghost players = old(self).game_distributed.players_in_game@;
        let ghost scores0 = old(game).players@;
        let n = self.game_distributed.players_in_game.len();
        let taker_index = self.taker_index;
        let (ally_index, owing, missing, handle_bonuses) = match self.scan_seats(game) {
            Ok(t) => t,
            Err(e) => {
                return Err(e);
            },
        };
        self.do_exchange(owing, missing);
        let ghost s1 = self.game_distributed.players_in_game@;
        self.fold_taker_cards(ally_index);
        let ghost s2 = self.game_distributed.players_in_game@;
        let ghost merged = merged_owneds(players, taker_index as int);
        proof {
            let ally = match ally_index {
                Some(a) => Some(a as int),
                None => None::<int>,
            };
            lemma_merged_composition(players, taker_index as int, ally, s1, s2);
            assert(merged[taker_index as int].len() <= 4 * MAX_CARDS + 2);
            lemma_points_sum_bounds(merged[taker_index as int]);
        }
        let slam_bonus = self.game_distributed.players_in_game[taker_index].slam_bonus();
        let taker_points = self.game_distributed.players_in_game[taker_index].points();
        let target = match self.game_distributed.players_in_game[taker_index].points_for_oudlers()
        {
            Ok(t) => t,
            Err(e) => {
                return Err(e);
            },
        };
        proof {
            assert(0 <= taker_points <= 9 * (4 * MAX_CARDS + 2));
            assert(72 <= target <= 112);
            assert(0 <= handle_bonuses <= 80 * n);
            assert(-400 <= slam_bonus <= 800);
        }
        let mult = self.contract.multiplier();
        proof {
            assert(0 <= mult <= 6);
            let base_up = taker_points - target + BASE_CONTRACT_POINTS;
            let base_dn = taker_points - target - BASE_CONTRACT_POINTS;
            assert(-3000 <= base_up <= 3000 && -3000 <= base_dn <= 3000);
            assert(-18000 <= base_up * mult <= 18000 && -18000 <= base_dn * mult <= 18000)
                by (nonlinear_arith)
                requires
                    0 <= mult <= 6,
                    -3000 <= base_up <= 3000,
                    -3000 <= base_dn <= 3000,
            ;
        }
        let contract_points = if taker_points >= target {
            (taker_points - target + BASE_CONTRACT_POINTS) * mult
        } else {
            (taker_points - target - BASE_CONTRACT_POINTS) * mult
        };
        let points_petit_au_bout = 20 * mult;
        let petit_au_bout_bonus = match self.petit_au_bout_for_team {
            Some(Team::Defense) => -points_petit_au_bout,
            Some(Team::Attack) => points_petit_au_bout,
            None => 0,
        };
        let ratio = self.game_distributed.mode.ratio(ally_index.is_some());
        let points = contract_points + petit_au_bout_bonus + handle_bonuses + slam_bonus;
        let sign_pos = contract_points >= 0;
        self.apply_deltas(game, ally_index, ratio, points, sign_pos);
        proof {
            assert forall|i: int|
                0 <= i < n implies (#[trigger] game.players@[i]) == (Player {
                score: (scores0[i].score + spec_delta(
                    i,
                    taker_index as int,
                    last_ally_idx(players, n as int),
                    players[i].role,
                    sign_pos,
                    ratio as int,
                    points as int,
                )) as i64,
                ..scores0[i]
            }) by {}
        }
        match game.is_consistent() {
            Ok(u) => Ok(u),
            Err(e) => Err(e),
        }
    }

    /// Rotate the seats so the given winner leads the next trick, both in
    /// the deal and at the table, the taker position moving with them.
    pub fn rotate_to_winner(&mut self, game: &mut Game, winner: usize)
        requires
            winner < old(self).game_distributed.players_in_game@.len(),
            old(game).players@.len() == old(self).game_distributed.players_in_game@.len(),
            old(self).taker_index < old(self).game_distributed.players_in_game@.len(),
        ensures
            final(self).contract == old(self).contract,
            final(self).options == old(self).options,
            final(self).petit_au_bout_for_team == old(self).petit_au_bout_for_team,
            final(self).attack_cards == old(self).attack_cards,
            final(self).defense_cards == old(self).defense_cards,
            final(self).game_distributed.dog == old(self).game_distributed.dog,
            final(self).game_distributed.mode == old(self).game_distributed.mode,
            final(self).game_distributed.options == old(self).game_distributed.options,
            final(self).game_distributed.players_in_game@ == old(self).game_distributed.players_in_game@.skip(winner as int) + old(self).game_distributed.players_in_game@.take(winner as int),
            final(game).players@ == old(game).players@.skip(winner as int) + old(game).players@.take(winner as int),
            final(game).mode == old(game).mode,
            final(game).options == old(game).options,
            final(game).dealer == old(game).dealer,
            final(self).taker_index == (if old(self).taker_index >= winner {
                old(self).taker_index - winner
            } else {
                old(self).taker_index + (old(self).game_distributed.players_in_game@.len()
                    - winner)
            }),
    {
        let n = self.game_distributed.players_in_game.len();
        self.game_distributed.rotate_at(game, winner);
        let taker = self.taker_index;
        self.taker_index = if taker >= winner {
            taker - winner
        } else {
            taker + (n - winner)
        };
    }
}

} // verus!
