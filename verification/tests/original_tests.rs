use std::str::FromStr;
use tarot::card::Card;
use tarot::deck::Deck;
use tarot::game::Game;
use tarot::helpers::binomial;
use tarot::mode::Mode;
use tarot::options::Options;
use tarot::points::MAX_CARDS;
use tarot::suit::Suit;
use tarot::suit_value::SuitValue;
use tarot::traits::Discardable;
use tarot::trump::Trump;

#[test]
fn card_tests() {
    let trump_2 = Card::Trump(Trump::_2);
    println!("{:?}", trump_2);
    let petit = Card::Trump(Trump::Petit);
    println!("{:?}", petit);
    let fool = Card::Trump(Trump::Fool);
    println!("{:?}", fool);
    let unassailable = Card::Trump(Trump::_21);
    let spade_1 = Card::normal(Suit::Spade, SuitValue::_1);
    let spade_2 = Card::normal(Suit::Spade, SuitValue::_2);
    let spade_3 = Card::normal(Suit::Spade, SuitValue::_3);
    let spade_10 = Card::normal(Suit::Spade, SuitValue::_10);
    println!("{:?}", spade_10);
    let diamond_3 = Card::normal(Suit::Diamond, SuitValue::_3);
    println!("{:?}", diamond_3);
    let heart_4 = Card::normal(Suit::Heart, SuitValue::_4);
    println!("{:?}", heart_4);
    let club_king = Card::normal(Suit::Club, SuitValue::King);
    println!("{:?}", club_king);

    assert!(!spade_3.master(spade_10));
    assert!(!petit.master(trump_2));
    assert!(petit.master(spade_1));
    assert!(!spade_1.master(petit));
    assert!(spade_2.master(spade_1));
    assert!(diamond_3.master(spade_2));
    assert!(diamond_3.master(fool));
    assert!(!fool.master(spade_1));

    assert!(!petit.discardable());
    assert!(!fool.discardable());
    assert!(!unassailable.discardable());
    assert!(!petit.discardable_forced());
    assert!(!fool.discardable_forced());
    assert!(!unassailable.discardable_forced());
    assert_eq!(unassailable.points() as f64 / 2.0, 4.5);
}

#[test]
fn deck_tests() {
    let deck = Deck::random();
    assert_eq!(deck.len(), MAX_CARDS);
    assert_eq!(deck.points() as f64 / 2.0, 91.0);

    let empty = Deck::default();
    assert!(empty.is_empty());

    let two_cards: Vec<Card> = vec![
        Card::Trump(Trump::_2),
        Card::normal(Suit::Heart, SuitValue::Jack),
        Card::normal(Suit::Spade, SuitValue::Knight),
        Card::normal(Suit::Diamond, SuitValue::Queen),
        Card::normal(Suit::Club, SuitValue::King),
        Card::Trump(Trump::Fool),
    ];
    let test_stack = Deck::new(two_cards);
    println!("{:?}", test_stack);
}

#[test]
fn game_started_tests() {
    let options = Options::default();
    let _game = Game::new(Mode::Four, options);
}

#[test]
fn helpers_tests() {
    assert_eq!(binomial(24, 6), 134_596);
}

#[test]
fn mode_tests() {
    let mode = Mode::default();
    println!("mode: {}", mode.describe());

    let three = Mode::from_str("3");
    assert_eq!(three, Ok(Mode::Three));

    let four = Mode::from_str("4");
    assert_eq!(four, Ok(Mode::Four));

    let five = Mode::from_str("5");
    assert_eq!(five, Ok(Mode::Five));
}

#[test]
fn mode_parses_words_and_rejects_the_rest() {
    assert_eq!(Mode::from_str("three"), Ok(Mode::Three));
    assert_eq!(Mode::from_str("four"), Ok(Mode::Four));
    assert_eq!(Mode::from_str("five"), Ok(Mode::Five));
    assert!(matches!(
        Mode::from_str("six"),
        Err(tarot::errors::TarotErrorKind::InvalidPlayers(_))
    ));
    assert!(matches!(
        Mode::from_str(""),
        Err(tarot::errors::TarotErrorKind::InvalidPlayers(_))
    ));
}
