use tarot::card::Card;
use tarot::contract::Contract;
use tarot::deck::Deck;
use tarot::errors::TarotErrorKind;
use tarot::game::Game;
use tarot::game_distributed::GameDistributed;
use tarot::game_started::GameStarted;
use tarot::handle::Handle;
use tarot::mode::Mode;
use tarot::options::Options;
use tarot::player_in_game::PlayerInGame;
use tarot::role::Role;
use tarot::suit::Suit;
use tarot::suit_value::SuitValue;
use tarot::team::Team;
use tarot::trump::Trump;

fn seat(mode: Mode, team: Team, role: Role) -> PlayerInGame {
    let mut pig = PlayerInGame::new(mode, Options::default());
    pig.set_team(team);
    pig.set_role(role);
    pig
}

/// A pile of 32 suited cards worth exactly 56 points (112 half-points)
/// holding no oudler: all sixteen court cards and sixteen pips.
fn target_pile() -> Deck {
    let mut deck = Deck::default();
    for suit in [Suit::Heart, Suit::Spade, Suit::Diamond, Suit::Club] {
        for rank in [11u8, 12, 13, 14, 1, 2, 3, 4] {
            deck.push(Card::normal(suit, SuitValue::from_rank(rank)));
        }
    }
    deck
}

fn four_player_garde() -> (Game, GameStarted) {
    let options = Options::default();
    let game = Game::new(Mode::Four, options);
    let mut players_in_game = vec![
        seat(Mode::Four, Team::Attack, Role::Taker),
        seat(Mode::Four, Team::Defense, Role::Defenser),
        seat(Mode::Four, Team::Defense, Role::Defenser),
        seat(Mode::Four, Team::Defense, Role::Defenser),
    ];
    players_in_game[0].owned = target_pile();
    let gd = GameDistributed {
        mode: Mode::Four,
        options,
        dog: Deck::default(),
        players_in_game,
    };
    let gs = GameStarted::new(gd, 0, Contract::Garde);
    (game, gs)
}

#[test]
fn four_player_garde_on_target_scores_one_hundred_fifty() {
    let (mut game, mut gs) = four_player_garde();
    let result = gs.count_points(&mut game);
    assert_eq!(result, Ok(()));
    // (56 - 56 + 25) x 2 = 50 points; the taker's ratio is 3.
    assert_eq!(game.players()[0].score() as f64 / 2.0, 150.0);
    for i in 1..4 {
        assert_eq!(game.players()[i].score() as f64 / 2.0, -50.0);
    }
    let total: i64 = game.players().iter().map(|p| p.score()).sum();
    assert_eq!(total, 0);
}

#[test]
fn replaying_the_same_deal_gives_identical_scores() {
    let (mut game1, mut gs1) = four_player_garde();
    let (mut game2, mut gs2) = four_player_garde();
    assert_eq!(gs1.count_points(&mut game1), Ok(()));
    assert_eq!(gs2.count_points(&mut game2), Ok(()));
    for i in 0..4 {
        assert_eq!(game1.players()[i].score(), game2.players()[i].score());
    }
}

#[test]
fn scores_cancel_out_at_three_players() {
    let options = Options::default();
    let mut game = Game::new(Mode::Three, options);
    let mut players_in_game = vec![
        seat(Mode::Three, Team::Attack, Role::Taker),
        seat(Mode::Three, Team::Defense, Role::Defenser),
        seat(Mode::Three, Team::Defense, Role::Defenser),
    ];
    players_in_game[0].owned.push(Card::normal(Suit::Heart, SuitValue::King));
    let gd = GameDistributed {
        mode: Mode::Three,
        options,
        dog: Deck::default(),
        players_in_game,
    };
    let mut gs = GameStarted::new(gd, 0, Contract::Petite);
    assert_eq!(gs.count_points(&mut game), Ok(()));
    let total: i64 = game.players().iter().map(|p| p.score()).sum();
    assert_eq!(total, 0);
}

#[test]
fn scores_cancel_out_at_five_players_with_ally() {
    let options = Options::default();
    let mut game = Game::new(Mode::Five, options);
    let mut players_in_game = vec![
        seat(Mode::Five, Team::Attack, Role::Taker),
        seat(Mode::Five, Team::Defense, Role::Defenser),
        seat(Mode::Five, Team::Attack, Role::Ally),
        seat(Mode::Five, Team::Defense, Role::Defenser),
        seat(Mode::Five, Team::Defense, Role::Defenser),
    ];
    players_in_game[0].owned = target_pile();
    players_in_game[2].owned.push(Card::Trump(Trump::_21));
    let gd = GameDistributed {
        mode: Mode::Five,
        options,
        dog: Deck::default(),
        players_in_game,
    };
    let mut gs = GameStarted::new(gd, 0, Contract::GardeSans);
    assert_eq!(gs.count_points(&mut game), Ok(()));
    let total: i64 = game.players().iter().map(|p| p.score()).sum();
    assert_eq!(total, 0);
    // The ally's winnings count with the taker's.
    assert!(game.players()[0].score() > 0);
    assert_eq!(game.players()[2].score(), game.players()[0].score() / 2);
}

#[test]
fn unbalanced_roles_are_reported_inconsistent() {
    let options = Options::default();
    let mut game = Game::new(Mode::Four, options);
    let mut players_in_game = vec![
        seat(Mode::Four, Team::Attack, Role::Taker),
        seat(Mode::Four, Team::Attack, Role::Ally),
        seat(Mode::Four, Team::Defense, Role::Defenser),
        seat(Mode::Four, Team::Defense, Role::Defenser),
    ];
    players_in_game[0].owned = target_pile();
    let gd = GameDistributed {
        mode: Mode::Four,
        options,
        dog: Deck::default(),
        players_in_game,
    };
    let mut gs = GameStarted::new(gd, 0, Contract::Petite);
    assert!(matches!(
        gs.count_points(&mut game),
        Err(TarotErrorKind::InvalidScores(_))
    ));
}

#[test]
fn missing_role_is_reported() {
    let options = Options::default();
    let mut game = Game::new(Mode::Four, options);
    let players_in_game = vec![
        PlayerInGame::new(Mode::Four, options),
        PlayerInGame::new(Mode::Four, options),
        PlayerInGame::new(Mode::Four, options),
        PlayerInGame::new(Mode::Four, options),
    ];
    let gd = GameDistributed {
        mode: Mode::Four,
        options,
        dog: Deck::default(),
        players_in_game,
    };
    let mut gs = GameStarted::new(gd, 0, Contract::Petite);
    assert!(matches!(
        gs.count_points(&mut game),
        Err(TarotErrorKind::NoRoleForPlayer(_))
    ));
}

#[test]
fn slam_bonus_values() {
    let mut pig = seat(Mode::Four, Team::Attack, Role::Taker);
    // An empty pile is a failed deal for the slam rule.
    assert_eq!(pig.slam_bonus() as f64 / 2.0, -200.0);
    pig.owned.push(Card::normal(Suit::Heart, SuitValue::_2));
    assert_eq!(pig.slam_bonus(), 0);
    let announced = pig.announce_slam(true);
    assert!(announced);
    assert_eq!(pig.slam_bonus() as f64 / 2.0, -200.0);
}

#[test]
fn handle_thresholds_at_four_players() {
    let mode = Mode::Four;
    assert_eq!(mode.handle(9), None);
    assert_eq!(mode.handle(10), Some(Handle::Simple));
    assert_eq!(mode.handle_limit(&Handle::Simple), 10);
    assert_eq!(mode.handle(13), Some(Handle::Double));
    assert_eq!(mode.handle_limit(&Handle::Double), 13);
    assert_eq!(mode.handle(16), Some(Handle::Triple));
    assert_eq!(mode.handle_limit(&Handle::Triple), 15);
    assert_eq!(Handle::Simple.points() as f64 / 2.0, 20.0);
    assert_eq!(Handle::Double.points() as f64 / 2.0, 30.0);
    assert_eq!(Handle::Triple.points() as f64 / 2.0, 40.0);
}

#[test]
fn garde_sans_dog_counts_for_the_taker() {
    let options = Options::default();
    let mut game = Game::new(Mode::Four, options);
    let mut players_in_game = vec![
        seat(Mode::Four, Team::Defense, Role::Defenser),
        seat(Mode::Four, Team::Defense, Role::Defenser),
        seat(Mode::Four, Team::Attack, Role::Taker),
        seat(Mode::Four, Team::Defense, Role::Defenser),
    ];
    players_in_game[2].owned = target_pile();
    // Four kings and two pips: the dog is worth 19 points.
    let mut dog = Deck::default();
    for suit in [Suit::Heart, Suit::Spade, Suit::Diamond, Suit::Club] {
        dog.push(Card::normal(suit, SuitValue::King));
    }
    dog.push(Card::normal(Suit::Heart, SuitValue::_5));
    dog.push(Card::normal(Suit::Spade, SuitValue::_5));
    let mut gd = GameDistributed {
        mode: Mode::Four,
        options,
        dog,
        players_in_game,
    };
    gd.resolve_dog(Contract::GardeSans, 2);
    assert!(gd.dog.is_empty());
    let mut gs = GameStarted::new(gd, 2, Contract::GardeSans);
    assert_eq!(gs.count_points(&mut game), Ok(()));
    // The banked dog counts for the taker: (56 + 19 - 56 + 25) x 4 = 176
    // points, tripled for the taker.
    assert_eq!(game.players()[2].score() as f64 / 2.0, 3.0 * 176.0);
    let total: i64 = game.players().iter().map(|p| p.score()).sum();
    assert_eq!(total, 0);
}

#[test]
fn the_takers_discard_counts_toward_the_target() {
    let (mut game, mut gs) = four_player_garde();
    // Move two pips from the taker's winnings into its discard: the tally
    // must not change.
    let c1 = gs.game_distributed.players_in_game[0].owned.remove(4);
    let c2 = gs.game_distributed.players_in_game[0].owned.remove(4);
    gs.game_distributed.players_in_game[0].discard.push(c1);
    gs.game_distributed.players_in_game[0].discard.push(c2);
    assert_eq!(gs.count_points(&mut game), Ok(()));
    assert_eq!(game.players()[0].score() as f64 / 2.0, 150.0);
}

#[test]
fn no_slam_option_blocks_announcements() {
    let mut options = Options::default();
    options.no_slam = true;
    let mut pig = PlayerInGame::new(Mode::Four, options);
    assert!(!pig.announce_slam(true));
    assert!(!pig.slam);
}
