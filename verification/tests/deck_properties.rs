use tarot::card::Card;
use tarot::deck::Deck;
use tarot::errors::TarotErrorKind;
use tarot::mode::Mode;
use tarot::suit::Suit;
use tarot::suit_value::SuitValue;
use tarot::trump::Trump;

fn full_suit(suit: Suit) -> Vec<Card> {
    let mut cards = Vec::new();
    for rank in 1..=14u8 {
        cards.push(Card::normal(suit, SuitValue::from_rank(rank)));
    }
    cards
}

#[test]
fn single_fool_deck_is_worth_four_points() {
    let mut deck = Deck::default();
    deck.push(Card::Trump(Trump::Fool));
    assert_eq!(deck.points() as f64 / 2.0, 4.0);
}

#[test]
fn almost_full_deck_without_fool_is_worth_eighty_seven() {
    let mut cards: Vec<Card> = Vec::new();
    for rank in 1..=21u8 {
        cards.push(Card::Trump(Trump::from_rank(rank)));
    }
    for suit in [Suit::Heart, Suit::Spade, Suit::Diamond, Suit::Club] {
        cards.extend(full_suit(suit));
    }
    assert_eq!(cards.len(), 77);
    let deck = Deck::new(cards);
    assert_eq!(deck.points() as f64 / 2.0, 87.0);
    assert!(deck.is_chelem());
}

#[test]
fn points_for_oudlers_thresholds() {
    let mut deck = Deck::default();
    deck.push(Card::normal(Suit::Heart, SuitValue::King));
    assert_eq!(deck.points_for_oudlers(), Ok(112));

    deck.push(Card::Trump(Trump::Fool));
    assert_eq!(deck.points_for_oudlers(), Ok(102));

    deck.push(Card::Trump(Trump::Petit));
    assert_eq!(deck.points_for_oudlers(), Ok(82));

    deck.push(Card::Trump(Trump::_21));
    assert_eq!(deck.points_for_oudlers(), Ok(72));

    deck.push(Card::Trump(Trump::Fool));
    match deck.points_for_oudlers() {
        Err(TarotErrorKind::InvalidOudlersCount(oudlers)) => {
            assert_eq!(oudlers.len(), 4);
        }
        other => panic!("expected an oudler count error, got {:?}", other),
    }
}

#[test]
fn random_deck_holds_each_card_once() {
    let deck = Deck::random();
    assert_eq!(deck.len(), 78);
    assert_eq!(deck.points() as f64 / 2.0, 91.0);
    assert!(deck.has_fool());
    assert!(deck.has_petit());
    assert_eq!(deck.count_trumps(), 22);
    assert_eq!(deck.count_oudlers(), 3);
    assert_eq!(deck.count_tete(SuitValue::King), 4);
    assert_eq!(deck.count_tete(SuitValue::Queen), 4);
    for suit in [Suit::Heart, Suit::Spade, Suit::Diamond, Suit::Club] {
        for card in full_suit(suit) {
            assert!(deck.has(&card));
        }
    }
}

#[test]
fn sort_orders_trumps_then_suits() {
    let mut deck = Deck::new(vec![
        Card::normal(Suit::Club, SuitValue::King),
        Card::Trump(Trump::_21),
        Card::normal(Suit::Heart, SuitValue::_2),
        Card::Trump(Trump::Fool),
    ]);
    deck.sort();
    assert_eq!(deck.get(0), Card::Trump(Trump::Fool));
    assert_eq!(deck.get(1), Card::Trump(Trump::_21));
    assert_eq!(deck.get(2), Card::normal(Suit::Heart, SuitValue::_2));
    assert_eq!(deck.get(3), Card::normal(Suit::Club, SuitValue::King));
}

#[test]
fn give_takes_cards_from_the_front() {
    let mut deck = Deck::new(vec![
        Card::Trump(Trump::_2),
        Card::Trump(Trump::_3),
        Card::Trump(Trump::_4),
    ]);
    let head = deck.give(2);
    assert_eq!(head.len(), 2);
    assert_eq!(head.get(0), Card::Trump(Trump::_2));
    assert_eq!(head.get(1), Card::Trump(Trump::_3));
    assert_eq!(deck.len(), 1);
    let rest = deck.give_all();
    assert_eq!(rest.get(0), Card::Trump(Trump::_4));
    assert!(deck.is_empty());
}

#[test]
fn give_low_hands_out_the_first_half_point_card() {
    let mut deck = Deck::new(vec![
        Card::normal(Suit::Heart, SuitValue::King),
        Card::normal(Suit::Spade, SuitValue::_7),
        Card::normal(Suit::Club, SuitValue::_2),
    ]);
    let low = deck.give_low();
    assert_eq!(low, Some(Card::normal(Suit::Spade, SuitValue::_7)));
    assert_eq!(deck.len(), 2);

    let mut court_only = Deck::new(vec![Card::normal(Suit::Heart, SuitValue::Queen)]);
    assert_eq!(court_only.give_low(), None);
    assert_eq!(court_only.len(), 1);
}

#[test]
fn petit_sec_detection() {
    let lone_petit = Deck::new(vec![
        Card::Trump(Trump::Petit),
        Card::normal(Suit::Heart, SuitValue::_5),
    ]);
    assert!(lone_petit.petit_sec());

    let protected_petit = Deck::new(vec![
        Card::Trump(Trump::Petit),
        Card::Trump(Trump::_2),
        Card::normal(Suit::Heart, SuitValue::_5),
    ]);
    assert!(!protected_petit.petit_sec());

    // Even the Fool protects the Petit: two trumps are held.
    let fool_protected = Deck::new(vec![
        Card::Trump(Trump::Petit),
        Card::Trump(Trump::Fool),
        Card::normal(Suit::Heart, SuitValue::_5),
    ]);
    assert!(!fool_protected.petit_sec());

    let no_petit = Deck::new(vec![Card::Trump(Trump::_2)]);
    assert!(!no_petit.petit_sec());
}

#[test]
fn discardables_fall_back_to_forced_rule() {
    let mut cards = vec![
        Card::normal(Suit::Heart, SuitValue::King),
        Card::Trump(Trump::_5),
        Card::Trump(Trump::_6),
        Card::normal(Suit::Spade, SuitValue::_2),
    ];
    let deck = Deck::new(cards.clone());
    let normal = deck.discardables(1);
    assert_eq!(normal, vec![3]);

    let forced = deck.discardables(3);
    assert_eq!(forced, vec![1, 2, 3]);

    cards.push(Card::Trump(Trump::Fool));
    let with_fool = Deck::new(cards);
    let forced = with_fool.discardables(3);
    assert_eq!(forced, vec![1, 2, 3]);
}

#[test]
fn invalid_player_counts_are_rejected() {
    assert!(matches!(
        Mode::from_players(7),
        Err(TarotErrorKind::InvalidPlayers(_))
    ));
    assert_eq!(Mode::from_players(5), Ok(Mode::Five));
}
