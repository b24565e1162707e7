use std::collections::HashMap;

use bigtwo::cards::{Card, Rank, Suit};
use bigtwo::game::{Game, GameError, Player};
use bigtwo::hands::{Hand, SingleHand};

fn create_starting_hands(players: &[Player]) -> HashMap<String, Vec<Card>> {
    players
        .iter()
        .map(|player| (player.name.clone(), player.cards.clone()))
        .collect()
}

#[test]
fn test_new_game() {
    let game = Game::new_game(
        "1".to_string(),
        &[
            "Alice".to_string(),
            "Bob".to_string(),
            "Charlie".to_string(),
            "David".to_string(),
        ],
    )
    .unwrap();
    assert_eq!(game.players().len(), 4);
    assert_eq!(game.consecutive_passes(), 0);

    let current_player_name = game.current_player_turn();
    let current_player = game
        .players()
        .iter()
        .find(|p| p.name == current_player_name)
        .unwrap();
    let three_of_diamonds = Card::new(Rank::Three, Suit::Diamonds);
    assert!(
        current_player.cards.contains(&three_of_diamonds),
        "Current player '{}' should have the 3 of diamonds",
        current_player_name
    );

    let mut all_cards = Card::all_cards();
    all_cards.sort();

    let mut dealt_cards = game
        .players()
        .iter()
        .map(|p| p.cards.clone())
        .flatten()
        .collect::<Vec<Card>>();
    dealt_cards.sort();
    assert_eq!(dealt_cards.len(), 52);
    assert_eq!(dealt_cards, all_cards);

    for player in game.players() {
        let mut sorted_cards = player.cards.clone();
        sorted_cards.sort();
        assert_eq!(
            player.cards, sorted_cards,
            "Player {}'s cards should be sorted",
            player.name
        );
    }
}

#[test]
fn test_card_removal_on_play() {
    let players = vec![
        Player {
            name: "Alice".to_string(),
            cards: vec![
                Card::new(Rank::Three, Suit::Diamonds),
                Card::new(Rank::Four, Suit::Hearts),
                Card::new(Rank::Five, Suit::Spades),
            ],
        },
        Player {
            name: "Bob".to_string(),
            cards: vec![Card::new(Rank::Six, Suit::Clubs)],
        },
    ];

    let mut game = Game::new(
        "test".to_string(),
        players.clone(),
        0,
        0,
        vec![],
        create_starting_hands(&players),
    );

    let cards_to_play = vec![Card::new(Rank::Three, Suit::Diamonds)];
    let result = game.play_cards("Alice", &cards_to_play);

    assert!(result.is_ok());
    assert_eq!(result.unwrap(), false);

    let alice = &game.players()[0];
    assert_eq!(alice.cards.len(), 2);
    assert!(!alice.cards.contains(&Card::new(Rank::Three, Suit::Diamonds)));
    assert!(alice.cards.contains(&Card::new(Rank::Four, Suit::Hearts)));
    assert!(alice.cards.contains(&Card::new(Rank::Five, Suit::Spades)));
}

#[test]
fn test_win_detection_single_card() {
    let players = vec![
        Player {
            name: "Alice".to_string(),
            cards: vec![Card::new(Rank::Three, Suit::Diamonds)],
        },
        Player {
            name: "Bob".to_string(),
            cards: vec![Card::new(Rank::Six, Suit::Clubs)],
        },
    ];

    let mut game = Game::new(
        "test".to_string(),
        players.clone(),
        0,
        0,
        vec![],
        create_starting_hands(&players),
    );

    let cards_to_play = vec![Card::new(Rank::Three, Suit::Diamonds)];
    let result = game.play_cards("Alice", &cards_to_play);

    assert!(result.is_ok());
    assert_eq!(result.unwrap(), true);

    let alice = &game.players()[0];
    assert_eq!(alice.cards.len(), 0);
}

#[test]
fn test_win_detection_multiple_cards() {
    let players = vec![
        Player {
            name: "Alice".to_string(),
            cards: vec![
                Card::new(Rank::Three, Suit::Diamonds),
                Card::new(Rank::Four, Suit::Diamonds),
            ],
        },
        Player {
            name: "Bob".to_string(),
            cards: vec![Card::new(Rank::Six, Suit::Clubs)],
        },
    ];

    let mut game = Game::new(
        "test".to_string(),
        players.clone(),
        0,
        0,
        vec![],
        create_starting_hands(&players),
    );

    let result1 = game.play_cards("Alice", &[Card::new(Rank::Three, Suit::Diamonds)]);
    assert!(result1.is_ok());
    assert_eq!(result1.unwrap(), false);

    let pass_result = game.play_cards("Bob", &[]);
    assert!(pass_result.is_ok());

    let result2 = game.play_cards("Alice", &[Card::new(Rank::Four, Suit::Diamonds)]);
    if result2.is_err() {
        println!("Error on second play: {:?}", result2.as_ref().unwrap_err());
    }
    assert!(result2.is_ok());
    assert_eq!(result2.unwrap(), true);

    let alice = &game.players()[0];
    assert_eq!(alice.cards.len(), 0);
}

#[test]
fn test_pass_does_not_remove_cards() {
    let players = vec![
        Player {
            name: "Alice".to_string(),
            cards: vec![
                Card::new(Rank::Three, Suit::Diamonds),
                Card::new(Rank::Four, Suit::Hearts),
            ],
        },
        Player {
            name: "Bob".to_string(),
            cards: vec![Card::new(Rank::Six, Suit::Clubs)],
        },
    ];

    let mut game = Game::new(
        "test".to_string(),
        players.clone(),
        0,
        0,
        vec![Hand::from_cards(&[Card::new(Rank::Five, Suit::Spades)]).unwrap()],
        create_starting_hands(&players),
    );

    let result = game.play_cards("Alice", &[]);

    assert!(result.is_ok());
    assert_eq!(result.unwrap(), false);

    let alice = &game.players()[0];
    assert_eq!(alice.cards.len(), 2);
    assert!(alice.cards.contains(&Card::new(Rank::Three, Suit::Diamonds)));
    assert!(alice.cards.contains(&Card::new(Rank::Four, Suit::Hearts)));
}

#[test]
fn test_invalid_card_not_removed() {
    let players = vec![
        Player {
            name: "Alice".to_string(),
            cards: vec![
                Card::new(Rank::Three, Suit::Diamonds),
                Card::new(Rank::Four, Suit::Hearts),
            ],
        },
        Player {
            name: "Bob".to_string(),
            cards: vec![Card::new(Rank::Six, Suit::Clubs)],
        },
    ];

    let mut game = Game::new(
        "test".to_string(),
        players.clone(),
        0,
        0,
        vec![],
        create_starting_hands(&players),
    );

    let cards_to_play = vec![Card::new(Rank::Ace, Suit::Spades)];
    let result = game.play_cards("Alice", &cards_to_play);

    assert!(result.is_err());
    assert!(matches!(result.unwrap_err(), GameError::CardNotOwned(_)));

    let alice = &game.players()[0];
    assert_eq!(alice.cards.len(), 2);
    assert!(alice.cards.contains(&Card::new(Rank::Three, Suit::Diamonds)));
    assert!(alice.cards.contains(&Card::new(Rank::Four, Suit::Hearts)));
}

#[test]
fn test_invalid_player_turn() {
    let players = vec![
        Player {
            name: "Alice".to_string(),
            cards: vec![Card::new(Rank::Three, Suit::Diamonds)],
        },
        Player {
            name: "Bob".to_string(),
            cards: vec![Card::new(Rank::Six, Suit::Clubs)],
        },
    ];

    let mut game = Game::new(
        "test".to_string(),
        players.clone(),
        0,
        0,
        vec![],
        create_starting_hands(&players),
    );

    let result = game.play_cards("Bob", &[Card::new(Rank::Six, Suit::Clubs)]);
    assert!(result.is_err());
    assert!(matches!(result.unwrap_err(), GameError::InvalidPlayerTurn));
}

#[test]
fn test_cannot_pass_after_three_consecutive() {
    let players = vec![
        Player {
            name: "Alice".to_string(),
            cards: vec![Card::new(Rank::Three, Suit::Diamonds)],
        },
        Player {
            name: "Bob".to_string(),
            cards: vec![Card::new(Rank::Six, Suit::Clubs)],
        },
        Player {
            name: "Charlie".to_string(),
            cards: vec![Card::new(Rank::Seven, Suit::Hearts)],
        },
        Player {
            name: "David".to_string(),
            cards: vec![Card::new(Rank::Eight, Suit::Spades)],
        },
    ];

    let mut game = Game::new(
        "test".to_string(),
        players.clone(),
        0,
        3,
        vec![Hand::Pass, Hand::Pass, Hand::Pass],
        create_starting_hands(&players),
    );

    let result = game.play_cards("Alice", &[]);
    assert!(result.is_err());
    assert!(matches!(result.unwrap_err(), GameError::CannotPass));
}

#[test]
fn test_invalid_played_cards_cannot_beat_previous() {
    let players = vec![
        Player {
            name: "Alice".to_string(),
            cards: vec![
                Card::new(Rank::Three, Suit::Diamonds),
                Card::new(Rank::Four, Suit::Hearts),
            ],
        },
        Player {
            name: "Bob".to_string(),
            cards: vec![Card::new(Rank::King, Suit::Spades)],
        },
    ];

    let mut game = Game::new(
        "test".to_string(),
        players.clone(),
        0,
        0,
        vec![Hand::Single(SingleHand::new(Card::new(Rank::King, Suit::Hearts)))],
        create_starting_hands(&players),
    );

    let result = game.play_cards("Alice", &[Card::new(Rank::Three, Suit::Diamonds)]);
    assert!(result.is_err());
    assert!(matches!(result.unwrap_err(), GameError::InvalidPlayedCards));
}

#[test]
fn test_play_cards_player_doesnt_have() {
    let players = vec![
        Player {
            name: "Alice".to_string(),
            cards: vec![
                Card::new(Rank::Three, Suit::Diamonds),
                Card::new(Rank::Four, Suit::Hearts),
            ],
        },
        Player {
            name: "Bob".to_string(),
            cards: vec![Card::new(Rank::Six, Suit::Clubs)],
        },
    ];

    let mut game = Game::new(
        "test".to_string(),
        players.clone(),
        0,
        0,
        vec![],
        create_starting_hands(&players),
    );

    let result = game.play_cards("Alice", &[Card::new(Rank::Ace, Suit::Spades)]);

    assert!(result.is_err());
    assert!(matches!(result.unwrap_err(), GameError::CardNotOwned(_)));

    let alice = &game.players()[0];
    assert_eq!(alice.cards.len(), 2);
    assert!(alice.cards.contains(&Card::new(Rank::Three, Suit::Diamonds)));
    assert!(alice.cards.contains(&Card::new(Rank::Four, Suit::Hearts)));
}

#[test]
fn test_invalid_hand_construction() {
    let players = vec![
        Player {
            name: "Alice".to_string(),
            cards: vec![
                Card::new(Rank::Three, Suit::Diamonds),
                Card::new(Rank::Four, Suit::Hearts),
            ],
        },
        Player {
            name: "Bob".to_string(),
            cards: vec![Card::new(Rank::Six, Suit::Clubs)],
        },
    ];

    let mut game = Game::new(
        "test".to_string(),
        players.clone(),
        0,
        0,
        vec![],
        create_starting_hands(&players),
    );

    let result = game.play_cards(
        "Alice",
        &[
            Card::new(Rank::Three, Suit::Diamonds),
            Card::new(Rank::Four, Suit::Hearts),
        ],
    );

    assert!(result.is_err());
    assert!(matches!(result.unwrap_err(), GameError::HandError(_)));
}

#[test]
fn test_table_clear_after_three_passes() {
    let players = vec![
        Player {
            name: "Alice".to_string(),
            cards: vec![Card::new(Rank::Three, Suit::Diamonds)],
        },
        Player {
            name: "Bob".to_string(),
            cards: vec![Card::new(Rank::Four, Suit::Hearts)],
        },
        Player {
            name: "Charlie".to_string(),
            cards: vec![Card::new(Rank::Five, Suit::Spades)],
        },
        Player {
            name: "David".to_string(),
            cards: vec![Card::new(Rank::Six, Suit::Clubs)],
        },
    ];

    let mut game = Game::new(
        "test".to_string(),
        players.clone(),
        0,
        2,
        vec![
            Hand::Single(SingleHand::new(Card::new(Rank::King, Suit::Hearts))),
            Hand::Pass,
            Hand::Pass,
        ],
        create_starting_hands(&players),
    );

    let result1 = game.play_cards("Alice", &[]);
    assert!(result1.is_ok());
    assert_eq!(game.consecutive_passes(), 3);

    let result2 = game.play_cards("Bob", &[Card::new(Rank::Four, Suit::Hearts)]);
    assert!(result2.is_ok());
    assert_eq!(game.consecutive_passes(), 0);
}

#[test]
fn test_starting_hands_captured() {
    let game = Game::new_game(
        "1".to_string(),
        &[
            "Alice".to_string(),
            "Bob".to_string(),
            "Charlie".to_string(),
            "David".to_string(),
        ],
    )
    .unwrap();

    let starting_hands = game.starting_hands();
    assert_eq!(starting_hands.len(), 4);
    assert!(starting_hands.contains_key("Alice"));
    assert!(starting_hands.contains_key("Bob"));
    assert!(starting_hands.contains_key("Charlie"));
    assert!(starting_hands.contains_key("David"));

    for (player_name, cards) in starting_hands {
        assert_eq!(cards.len(), 13, "Player {} should have 13 starting cards", player_name);
    }

    for player in game.players() {
        let starting_cards = starting_hands.get(&player.name).unwrap();
        assert_eq!(starting_cards.len(), 13);
    }
}

fn deck_in_order() -> Vec<Card> {
    Card::all_cards()
}

#[test]
fn deal_seats_the_holder_of_the_three_of_diamonds_first() {
    // Unshuffled, the deck starts with the diamonds: the first seat gets Three to Two of
    // diamonds, so it holds the three of diamonds and leads.
    let names = vec!["A".to_string(), "B".to_string(), "C".to_string(), "D".to_string()];
    let game = Game::deal("g".to_string(), &names, &deck_in_order()).unwrap();
    assert_eq!(game.current_player_turn(), "A");
    assert_eq!(game.players()[1].name, "B");
    assert_eq!(game.players()[0].cards[0], Card::new(Rank::Three, Suit::Diamonds));

    // Reversed, the deck ends with the diamonds, dealt to the last seat, who then leads.
    let mut reversed = deck_in_order();
    reversed.reverse();
    let game = Game::deal("g".to_string(), &names, &reversed).unwrap();
    assert_eq!(game.current_player_turn(), "D");
    let order: Vec<String> = game.players().iter().map(|p| p.name.clone()).collect();
    assert_eq!(order, vec!["D", "A", "B", "C"]);
    assert_eq!(game.starting_hands().get("D").unwrap()[0], Card::new(Rank::Three, Suit::Diamonds));
}

#[test]
fn deal_without_the_three_of_diamonds_is_refused() {
    // Two players get the first 26 cards: the diamonds and the clubs ... reversed, they get the
    // spades and hearts, so nobody holds the three of diamonds.
    let names = vec!["A".to_string(), "B".to_string()];
    let mut reversed = deck_in_order();
    reversed.reverse();
    assert!(matches!(
        Game::deal("g".to_string(), &names, &reversed),
        Err(GameError::InvalidPlayedCards)
    ));
    assert!(matches!(
        Game::new_game("g".to_string(), &[]),
        Err(GameError::InvalidPlayedCards)
    ));
}

#[test]
fn turn_goes_round_the_table_and_history_grows() {
    let players = vec![
        Player { name: "A".to_string(), cards: vec![Card::new(Rank::Three, Suit::Diamonds), Card::new(Rank::Ace, Suit::Spades)] },
        Player { name: "B".to_string(), cards: vec![Card::new(Rank::Four, Suit::Clubs)] },
        Player { name: "C".to_string(), cards: vec![Card::new(Rank::Five, Suit::Hearts)] },
    ];
    let mut game = Game::new("t".to_string(), players.clone(), 2, 0, vec![], create_starting_hands(&players));
    assert_eq!(game.current_player_turn(), "C");
    assert_eq!(game.play_cards("C", &[]).unwrap(), false);
    assert_eq!(game.current_player_turn(), "A");
    assert_eq!(game.consecutive_passes(), 1);
    assert_eq!(game.played_hands().len(), 1);
    assert_eq!(game.get_last_played_hand(), Some(&Hand::Pass));
    assert_eq!(game.last_played_cards(), vec![]);
    assert_eq!(game.play_cards("A", &[Card::new(Rank::Three, Suit::Diamonds)]).unwrap(), false);
    assert_eq!(game.current_player_turn(), "B");
    assert_eq!(game.last_played_cards(), vec![Card::new(Rank::Three, Suit::Diamonds)]);
    assert_eq!(game.consecutive_passes(), 0);
    // B's four of clubs beats the three of diamonds.
    assert_eq!(game.play_cards("B", &[Card::new(Rank::Four, Suit::Clubs)]).unwrap(), true);
    // The winner keeps the turn.
    assert_eq!(game.current_player_turn(), "B");
    assert_eq!(game.played_hands().len(), 3);
}

#[test]
fn refused_moves_change_nothing() {
    let players = vec![
        Player { name: "A".to_string(), cards: vec![Card::new(Rank::Three, Suit::Diamonds)] },
        Player { name: "B".to_string(), cards: vec![Card::new(Rank::Four, Suit::Clubs)] },
    ];
    let mut game = Game::new("t".to_string(), players.clone(), 0, 0, vec![], create_starting_hands(&players));
    assert_eq!(game.play_cards("B", &[]), Err(GameError::InvalidPlayerTurn));
    assert_eq!(
        game.play_cards("A", &[Card::new(Rank::Three, Suit::Diamonds), Card::new(Rank::Three, Suit::Diamonds), Card::new(Rank::Three, Suit::Diamonds), Card::new(Rank::Three, Suit::Diamonds)]),
        Err(GameError::HandError(bigtwo::hands::HandError::InvalidHandSize))
    );
    assert_eq!(
        game.play_cards("A", &[Card::new(Rank::Four, Suit::Clubs)]),
        Err(GameError::CardNotOwned(Card::new(Rank::Four, Suit::Clubs)))
    );
    assert_eq!(game.current_player_turn(), "A");
    assert_eq!(game.consecutive_passes(), 0);
    assert!(game.played_hands().is_empty());
    assert_eq!(game.players()[0].cards, vec![Card::new(Rank::Three, Suit::Diamonds)]);
}

#[test]
fn cards_leave_the_hand_and_go_on_the_table() {
    let players = vec![
        Player {
            name: "A".to_string(),
            cards: vec![
                Card::new(Rank::Nine, Suit::Clubs),
                Card::new(Rank::Three, Suit::Diamonds),
                Card::new(Rank::Nine, Suit::Spades),
            ],
        },
        Player { name: "B".to_string(), cards: vec![Card::new(Rank::Four, Suit::Clubs)] },
    ];
    let mut game = Game::new("t".to_string(), players.clone(), 0, 0, vec![], create_starting_hands(&players));
    let pair = [Card::new(Rank::Nine, Suit::Spades), Card::new(Rank::Nine, Suit::Clubs)];
    assert_eq!(game.play_cards("A", &pair).unwrap(), false);
    assert_eq!(game.players()[0].cards, vec![Card::new(Rank::Three, Suit::Diamonds)]);
    let mut on_table = game.last_played_cards();
    on_table.sort();
    assert_eq!(on_table, vec![Card::new(Rank::Nine, Suit::Clubs), Card::new(Rank::Nine, Suit::Spades)]);
}

#[test]
fn new_games_are_dealt_from_shuffled_decks() {
    let names: Vec<String> = ["Alice", "Bob", "Charlie", "David"].iter().map(|s| s.to_string()).collect();
    let first = Game::new_game("a".to_string(), &names).unwrap();
    let mut differs = false;
    for _ in 0..5 {
        let other = Game::new_game("b".to_string(), &names).unwrap();
        let a: Vec<Vec<Card>> = first.players().iter().map(|p| p.cards.clone()).collect();
        let b: Vec<Vec<Card>> = other.players().iter().map(|p| p.cards.clone()).collect();
        if a != b {
            differs = true;
        }
    }
    assert!(differs);
}
