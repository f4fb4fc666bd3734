use tarot::card::Card;
use tarot::contract::Contract;
use tarot::deck::Deck;
use tarot::errors::TarotErrorKind;
use tarot::game::Game;
use tarot::game_distributed::GameDistributed;
use tarot::game_started::GameStarted;
use tarot::mode::Mode;
use tarot::options::Options;
use tarot::player_in_game::PlayerInGame;
use tarot::role::Role;
use tarot::suit::Suit;
use tarot::suit_value::SuitValue;
use tarot::team::Team;
use tarot::trump::Trump;
use tarot::turn::Turn;

fn seat_with_hand(mode: Mode, team: Team, role: Role, hand: Vec<Card>) -> PlayerInGame {
    let mut pig = PlayerInGame::new(mode, Options::default());
    pig.set_team(team);
    pig.set_role(role);
    pig.hand = Deck::new(hand);
    pig
}

#[test]
fn a_full_trick_goes_to_the_highest_card() {
    let options = Options::default();
    let mut game = Game::new(Mode::Four, options);
    let players_in_game = vec![
        seat_with_hand(
            Mode::Four,
            Team::Attack,
            Role::Taker,
            vec![Card::normal(Suit::Heart, SuitValue::_2)],
        ),
        seat_with_hand(
            Mode::Four,
            Team::Defense,
            Role::Defenser,
            vec![Card::normal(Suit::Heart, SuitValue::King)],
        ),
        seat_with_hand(
            Mode::Four,
            Team::Defense,
            Role::Defenser,
            vec![Card::normal(Suit::Heart, SuitValue::_5)],
        ),
        seat_with_hand(
            Mode::Four,
            Team::Defense,
            Role::Defenser,
            vec![Card::normal(Suit::Heart, SuitValue::_7)],
        ),
    ];
    let gd = GameDistributed {
        mode: Mode::Four,
        options,
        dog: Deck::default(),
        players_in_game,
    };
    let mut gs = GameStarted::new(gd, 0, Contract::Garde);
    let mut turn = Turn::default();
    for _ in 0..4 {
        let winner_so_far = turn.master_index;
        assert_eq!(gs.play_step(&game, &mut turn, 0), Ok(()));
        let _ = winner_so_far;
    }
    assert_eq!(turn.master_index, Some(1));
    let winner = gs.finish_turn(&game, turn);
    assert_eq!(winner, Ok(1));
    assert_eq!(gs.game_distributed.players_in_game[1].owned.len(), 4);
    assert!(gs.finished());
    gs.rotate_to_winner(&mut game, 1);
    // The taker sat at seat zero; after the rotation it sits last.
    assert_eq!(gs.taker_index, 3);
}

#[test]
fn followers_must_follow_suit() {
    let pig = seat_with_hand(
        Mode::Four,
        Team::Defense,
        Role::Defenser,
        vec![
            Card::normal(Suit::Spade, SuitValue::_3),
            Card::normal(Suit::Heart, SuitValue::_9),
            Card::Trump(Trump::_4),
            Card::Trump(Trump::Fool),
        ],
    );
    let mut turn = Turn::default();
    turn.put(Card::normal(Suit::Heart, SuitValue::_2));
    turn.master_index = Some(0);
    // Holding a heart, only the heart may follow — and always the Fool.
    let choices = pig.choices(&turn).unwrap();
    assert_eq!(choices, vec![1, 3]);

    let no_hearts = seat_with_hand(
        Mode::Four,
        Team::Defense,
        Role::Defenser,
        vec![
            Card::normal(Suit::Spade, SuitValue::_3),
            Card::Trump(Trump::_4),
        ],
    );
    // Without the suit one must trump.
    let choices = no_hearts.choices(&turn).unwrap();
    assert_eq!(choices, vec![1]);
}

#[test]
fn overtrumping_is_forced() {
    let pig = seat_with_hand(
        Mode::Four,
        Team::Defense,
        Role::Defenser,
        vec![
            Card::Trump(Trump::_3),
            Card::Trump(Trump::_10),
            Card::normal(Suit::Club, SuitValue::_6),
        ],
    );
    let mut turn = Turn::default();
    turn.put(Card::normal(Suit::Heart, SuitValue::_2));
    turn.put(Card::Trump(Trump::_7));
    turn.master_index = Some(1);
    // A higher trump is held, so only it may be played.
    let choices = pig.choices(&turn).unwrap();
    assert_eq!(choices, vec![1]);

    let only_low = seat_with_hand(
        Mode::Four,
        Team::Defense,
        Role::Defenser,
        vec![
            Card::Trump(Trump::_3),
            Card::normal(Suit::Club, SuitValue::_6),
        ],
    );
    // Unable to overtrump, one must still undertrump.
    let choices = only_low.choices(&turn).unwrap();
    assert_eq!(choices, vec![0]);
}

#[test]
fn an_inconsistent_trick_is_rejected() {
    let pig = seat_with_hand(
        Mode::Four,
        Team::Defense,
        Role::Defenser,
        vec![Card::normal(Suit::Spade, SuitValue::_3)],
    );
    let mut turn = Turn::default();
    turn.put(Card::normal(Suit::Heart, SuitValue::_2));
    // A called suit without a master card is an impossible state.
    assert!(matches!(
        pig.choices(&turn),
        Err(TarotErrorKind::InvalidCase(_))
    ));
}

#[test]
fn an_unlawful_play_is_refused() {
    let mut pig = seat_with_hand(
        Mode::Four,
        Team::Defense,
        Role::Defenser,
        vec![
            Card::normal(Suit::Heart, SuitValue::_9),
            Card::normal(Suit::Spade, SuitValue::_3),
        ],
    );
    let mut turn = Turn::default();
    turn.put(Card::normal(Suit::Heart, SuitValue::_2));
    turn.master_index = Some(0);
    let player = tarot::player::Player::new("East".to_string(), Mode::Four, Options::default());
    // The spade may not be thrown while a heart is held.
    assert!(matches!(
        pig.play_card(&player, &turn, 1),
        Err(TarotErrorKind::NoCard(_))
    ));
    assert_eq!(pig.play_card(&player, &turn, 0), Ok(Card::normal(Suit::Heart, SuitValue::_9)));
    assert_eq!(pig.hand.len(), 1);
}

#[test]
fn the_fool_returns_to_its_owner_outside_the_last_trick() {
    let options = Options::default();
    let game = Game::new(Mode::Four, options);
    let players_in_game = vec![
        seat_with_hand(
            Mode::Four,
            Team::Attack,
            Role::Taker,
            vec![
                Card::Trump(Trump::Fool),
                Card::normal(Suit::Heart, SuitValue::_2),
            ],
        ),
        seat_with_hand(
            Mode::Four,
            Team::Defense,
            Role::Defenser,
            vec![
                Card::normal(Suit::Heart, SuitValue::King),
                Card::normal(Suit::Heart, SuitValue::_5),
            ],
        ),
        seat_with_hand(
            Mode::Four,
            Team::Defense,
            Role::Defenser,
            vec![
                Card::normal(Suit::Heart, SuitValue::_7),
                Card::normal(Suit::Heart, SuitValue::_8),
            ],
        ),
        seat_with_hand(
            Mode::Four,
            Team::Defense,
            Role::Defenser,
            vec![
                Card::normal(Suit::Heart, SuitValue::_9),
                Card::normal(Suit::Heart, SuitValue::_10),
            ],
        ),
    ];
    let gd = GameDistributed {
        mode: Mode::Four,
        options,
        dog: Deck::default(),
        players_in_game,
    };
    let mut gs = GameStarted::new(gd, 0, Contract::Garde);
    let mut turn = Turn::default();
    // The taker leads the Fool: it goes straight back to its own pile.
    assert_eq!(gs.play_step(&game, &mut turn, 0), Ok(()));
    assert_eq!(gs.game_distributed.players_in_game[0].owned.len(), 1);
    assert!(gs.game_distributed.players_in_game[0].owned.has_fool());
    // The Fool named no suit: the next card does.
    assert_eq!(turn.len(), 1);
    assert_eq!(turn.master_index, None);
    assert_eq!(gs.play_step(&game, &mut turn, 0), Ok(()));
    assert_eq!(turn.master_index, Some(1));
    assert_eq!(gs.play_step(&game, &mut turn, 0), Ok(()));
    assert_eq!(gs.play_step(&game, &mut turn, 0), Ok(()));
    // The winner banks three cards; the Fool stays home.
    let winner = gs.finish_turn(&game, turn).unwrap();
    assert_eq!(winner, 1);
    assert_eq!(gs.game_distributed.players_in_game[1].owned.len(), 3);
}

#[test]
fn the_fool_can_win_the_last_trick_of_a_slam() {
    let options = Options::default();
    let game = Game::new(Mode::Four, options);
    let players_in_game = vec![
        seat_with_hand(
            Mode::Four,
            Team::Defense,
            Role::Defenser,
            vec![Card::normal(Suit::Heart, SuitValue::_2)],
        ),
        seat_with_hand(
            Mode::Four,
            Team::Defense,
            Role::Defenser,
            vec![Card::normal(Suit::Heart, SuitValue::_5)],
        ),
        seat_with_hand(
            Mode::Four,
            Team::Defense,
            Role::Defenser,
            vec![Card::normal(Suit::Heart, SuitValue::_7)],
        ),
        seat_with_hand(Mode::Four, Team::Attack, Role::Taker, vec![Card::Trump(Trump::Fool)]),
    ];
    let gd = GameDistributed {
        mode: Mode::Four,
        options,
        dog: Deck::default(),
        players_in_game,
    };
    let mut gs = GameStarted::new(gd, 3, Contract::Garde);
    // The attack has banked every card of the seventeen previous tricks.
    gs.attack_cards = 68;
    let mut turn = Turn::default();
    for _ in 0..4 {
        assert_eq!(gs.play_step(&game, &mut turn, 0), Ok(()));
    }
    // A slam is in progress, so the Fool takes the trick.
    assert_eq!(turn.master_index, Some(3));
    let winner = gs.finish_turn(&game, turn).unwrap();
    assert_eq!(winner, 3);
    assert_eq!(gs.game_distributed.players_in_game[3].owned.len(), 4);
    assert!(gs.game_distributed.players_in_game[3].owned.has_fool());
}

#[test]
fn a_petit_sec_hand_voids_the_deal() {
    let options = Options::default();
    let game = Game::new(Mode::Three, options);
    // Hand-build a deck whose first hand holds the Petit as its only
    // trump: six dog cards, then three hands of twenty-four.
    let mut sec_cards: Vec<Card> = Vec::new();
    for _ in 0..6 {
        sec_cards.push(Card::normal(Suit::Club, SuitValue::_3));
    }
    sec_cards.push(Card::Trump(Trump::Petit));
    while sec_cards.len() < 78 {
        sec_cards.push(Card::normal(Suit::Heart, SuitValue::_2));
    }
    assert!(game.deal(Deck::new(sec_cards.clone())).is_none());

    // The Fool beside the Petit protects it: the deal stands.
    let mut safe_cards = sec_cards;
    safe_cards[7] = Card::Trump(Trump::Fool);
    let gd = game.deal(Deck::new(safe_cards)).unwrap();
    assert_eq!(gd.dog.len(), 6);
    for pig in gd.players_in_game.iter() {
        assert_eq!(pig.hand.len(), 24);
    }
}

#[test]
fn the_dealer_advances_between_deals() {
    let options = Options::default();
    let mut game = Game::new(Mode::Four, options);
    assert_eq!(game.players()[0].name(), "East");
    game.rotate_dealer();
    assert_eq!(game.dealer, 1);
    assert_eq!(game.players()[0].name(), "North");
    game.rotate_dealer();
    assert_eq!(game.dealer, 2);
    game.rotate_dealer();
    game.rotate_dealer();
    assert_eq!(game.dealer, 0);
}

#[test]
fn bidding_keeps_the_highest_bid() {
    let options = Options::default();
    let mut game = Game::new(Mode::Four, options);
    let players_in_game = vec![
        PlayerInGame::new(Mode::Four, options),
        PlayerInGame::new(Mode::Four, options),
        PlayerInGame::new(Mode::Four, options),
        PlayerInGame::new(Mode::Four, options),
    ];
    let mut gd = GameDistributed {
        mode: Mode::Four,
        options,
        dog: Deck::default(),
        players_in_game,
    };
    let bids = vec![
        Contract::Petite,
        Contract::Garde,
        Contract::Pass,
        Contract::Garde,
    ];
    let slams = vec![false, false, false, false];
    let result = gd.bidding(&mut game, &bids, &slams);
    // A tie does not supersede: the earlier garde stands.
    assert_eq!(result, Some((Contract::Garde, 1)));

    let all_pass = vec![
        Contract::Pass,
        Contract::Pass,
        Contract::Pass,
        Contract::Pass,
    ];
    let result = gd.bidding(&mut game, &all_pass, &slams);
    assert_eq!(result, None);
}

#[test]
fn a_standing_slam_announcement_rotates_the_table() {
    let options = Options::default();
    let mut game = Game::new(Mode::Four, options);
    let players_in_game = vec![
        PlayerInGame::new(Mode::Four, options),
        PlayerInGame::new(Mode::Four, options),
        PlayerInGame::new(Mode::Four, options),
        PlayerInGame::new(Mode::Four, options),
    ];
    let mut gd = GameDistributed {
        mode: Mode::Four,
        options,
        dog: Deck::default(),
        players_in_game,
    };
    let bids = vec![
        Contract::Pass,
        Contract::Garde,
        Contract::Pass,
        Contract::Pass,
    ];
    let slams = vec![false, true, false, false];
    let result = gd.bidding(&mut game, &bids, &slams);
    // The announcer leads: seat one comes first, the taker position follows.
    assert_eq!(result, Some((Contract::Garde, 0)));
    assert!(gd.players_in_game[0].slam);
    assert_eq!(game.players()[0].name(), "North");
}

#[test]
fn teams_form_around_the_called_card() {
    let options = Options::default();
    let callee = Card::normal(Suit::Club, SuitValue::King);
    let mut players_in_game = vec![
        PlayerInGame::new(Mode::Five, options),
        PlayerInGame::new(Mode::Five, options),
        PlayerInGame::new(Mode::Five, options),
        PlayerInGame::new(Mode::Five, options),
        PlayerInGame::new(Mode::Five, options),
    ];
    players_in_game[3].hand = Deck::new(vec![callee]);
    let mut gd = GameDistributed {
        mode: Mode::Five,
        options,
        dog: Deck::default(),
        players_in_game,
    };
    gd.set_teams_and_roles(1, Some(callee));
    assert_eq!(*gd.players_in_game[1].role(), Some(Role::Taker));
    assert_eq!(*gd.players_in_game[1].team(), Some(Team::Attack));
    assert_eq!(*gd.players_in_game[3].role(), Some(Role::Ally));
    assert_eq!(*gd.players_in_game[3].team(), Some(Team::Attack));
    for i in [0usize, 2, 4] {
        assert_eq!(*gd.players_in_game[i].role(), Some(Role::Defenser));
        assert_eq!(*gd.players_in_game[i].team(), Some(Team::Defense));
    }
}

#[test]
fn garde_sans_banks_the_dog_for_the_taker() {
    let options = Options::default();
    let mut players_in_game = vec![
        PlayerInGame::new(Mode::Four, options),
        PlayerInGame::new(Mode::Four, options),
        PlayerInGame::new(Mode::Four, options),
        PlayerInGame::new(Mode::Four, options),
    ];
    for pig in players_in_game.iter_mut() {
        pig.set_team(Team::Defense);
    }
    players_in_game[2].set_team(Team::Attack);
    let dog_cards = vec![
        Card::Trump(Trump::_5),
        Card::normal(Suit::Heart, SuitValue::_3),
    ];
    let mut gd = GameDistributed {
        mode: Mode::Four,
        options,
        dog: Deck::new(dog_cards.clone()),
        players_in_game,
    };
    gd.resolve_dog(Contract::GardeSans, 2);
    assert!(gd.dog.is_empty());
    assert_eq!(gd.players_in_game[2].discard, Deck::new(dog_cards));
}

#[test]
fn garde_contre_banks_the_dog_for_the_first_defender() {
    let options = Options::default();
    let mut players_in_game = vec![
        PlayerInGame::new(Mode::Four, options),
        PlayerInGame::new(Mode::Four, options),
        PlayerInGame::new(Mode::Four, options),
        PlayerInGame::new(Mode::Four, options),
    ];
    for pig in players_in_game.iter_mut() {
        pig.set_team(Team::Defense);
    }
    players_in_game[0].set_team(Team::Attack);
    let dog_cards = vec![Card::Trump(Trump::_5)];
    let mut gd = GameDistributed {
        mode: Mode::Four,
        options,
        dog: Deck::new(dog_cards.clone()),
        players_in_game,
    };
    gd.resolve_dog(Contract::GardeContre, 0);
    assert!(gd.dog.is_empty());
    assert_eq!(gd.players_in_game[1].discard, Deck::new(dog_cards));
}

#[test]
fn the_taker_discards_lawfully() {
    let options = Options::default();
    let mut pig = PlayerInGame::new(Mode::Four, options);
    pig.hand = Deck::new(vec![
        Card::normal(Suit::Heart, SuitValue::King),
        Card::normal(Suit::Heart, SuitValue::_2),
        Card::normal(Suit::Heart, SuitValue::_3),
        Card::normal(Suit::Spade, SuitValue::_4),
        Card::normal(Suit::Spade, SuitValue::_5),
        Card::normal(Suit::Spade, SuitValue::_6),
        Card::normal(Suit::Club, SuitValue::_7),
        Card::normal(Suit::Club, SuitValue::_8),
    ]);
    // A King may never go to the discard.
    assert!(matches!(pig.discard(0), Err(TarotErrorKind::NoCard(_))));
    assert_eq!(pig.discard(1), Ok(Card::normal(Suit::Heart, SuitValue::_2)));
    assert_eq!(pig.hand.len(), 7);
    assert_eq!(pig.discard.len(), 1);
}

#[test]
fn callable_ranks_escalate_with_complete_courts() {
    let options = Options::default();
    let mut pig = PlayerInGame::new(Mode::Five, options);
    pig.hand = Deck::new(vec![Card::normal(Suit::Heart, SuitValue::_2)]);
    let values = pig.callable_values().unwrap();
    assert_eq!(values, vec![SuitValue::King]);

    let mut kings = Vec::new();
    for suit in [Suit::Heart, Suit::Spade, Suit::Diamond, Suit::Club] {
        kings.push(Card::normal(suit, SuitValue::King));
    }
    pig.hand = Deck::new(kings);
    let values = pig.callable_values().unwrap();
    assert_eq!(values, vec![SuitValue::King, SuitValue::Queen]);
    let choices = pig.call_choices().unwrap();
    assert_eq!(choices.len(), 8);
    assert_eq!(choices[0], Card::normal(Suit::Heart, SuitValue::King));
    assert_eq!(pig.call(1), Ok(Some(Card::normal(Suit::Heart, SuitValue::Queen))));

    let mut all_courts = Vec::new();
    for suit in [Suit::Heart, Suit::Spade, Suit::Diamond, Suit::Club] {
        for rank in [11u8, 12, 13, 14] {
            all_courts.push(Card::normal(suit, SuitValue::from_rank(rank)));
        }
    }
    pig.hand = Deck::new(all_courts);
    assert!(matches!(
        pig.callable_values(),
        Err(TarotErrorKind::InvalidCase(_))
    ));
}

#[test]
fn distribute_deals_the_whole_deck() {
    let options = Options::default();
    let game = Game::new(Mode::Five, options);
    // A petit sec voids the deal, so redeal until one stands.
    let mut tries = 0;
    loop {
        tries += 1;
        if let Some(gd) = game.distribute() {
            assert_eq!(gd.dog.len(), 3);
            assert_eq!(gd.players_in_game.len(), 5);
            let mut total = gd.dog.len();
            for pig in gd.players_in_game.iter() {
                assert_eq!(pig.hand.len(), 15);
                assert!(!pig.hand.petit_sec());
                total += pig.hand.len();
            }
            assert_eq!(total, 78);
            break;
        }
        assert!(tries < 1000);
    }
}

#[test]
fn finish_turn_without_a_master_is_an_error() {
    let options = Options::default();
    let game = Game::new(Mode::Four, options);
    let players_in_game = vec![
        PlayerInGame::new(Mode::Four, options),
        PlayerInGame::new(Mode::Four, options),
        PlayerInGame::new(Mode::Four, options),
        PlayerInGame::new(Mode::Four, options),
    ];
    let gd = GameDistributed {
        mode: Mode::Four,
        options,
        dog: Deck::default(),
        players_in_game,
    };
    let mut gs = GameStarted::new(gd, 0, Contract::Garde);
    let mut turn = Turn::default();
    turn.put(Card::Trump(Trump::_2));
    turn.put(Card::Trump(Trump::_3));
    turn.put(Card::Trump(Trump::_4));
    turn.put(Card::Trump(Trump::_5));
    assert!(matches!(
        gs.finish_turn(&game, turn),
        Err(TarotErrorKind::NoMaster(_))
    ));
}
