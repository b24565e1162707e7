use std::collections::HashMap;

use rand::rngs::StdRng;
use rand::{Rng, SeedableRng};

use bigtwo::bot::{BotDifficulty, BotPlayer, BotStrategy, BotStrategyFactory};
use bigtwo::cards::{Card, Rank, Suit};
use bigtwo::game::{Game, Player};
use bigtwo::hands::{Hand, SingleHand};
use bigtwo::strategy::BasicBotStrategy;

fn starting_hands(players: &[Player]) -> HashMap<String, Vec<Card>> {
    players.iter().map(|p| (p.name.clone(), p.cards.clone())).collect()
}

fn two_player_game(bot_cards: Vec<Card>, other_cards: Vec<Card>, played: Vec<Hand>) -> Game {
    let players = vec![
        Player { name: "bot-123".to_string(), cards: bot_cards },
        Player { name: "human-456".to_string(), cards: other_cards },
    ];
    Game::new("test".to_string(), players.clone(), 0, 0, played, starting_hands(&players))
}

#[test]
fn test_create_easy_strategy() {
    let strategy = BotStrategyFactory::create_strategy(BotDifficulty::Easy);
    assert_eq!(strategy.strategy_name(), "BasicBotStrategy");
}

#[test]
fn test_create_medium_strategy() {
    let strategy = BotStrategyFactory::create_strategy(BotDifficulty::Medium);
    assert_eq!(strategy.strategy_name(), "BasicBotStrategy");
}

#[test]
fn test_create_hard_strategy() {
    let strategy = BotStrategyFactory::create_strategy(BotDifficulty::Hard);
    assert_eq!(strategy.strategy_name(), "BasicBotStrategy");
}

#[test]
fn test_bot_plays_three_diamonds_first_turn() {
    let strategy = BasicBotStrategy::new();
    let game = two_player_game(
        vec![Card::new(Rank::Three, Suit::Diamonds), Card::new(Rank::Four, Suit::Hearts)],
        vec![Card::new(Rank::Five, Suit::Spades)],
        vec![],
    );
    let move_decision = strategy.decide_move(&game, "bot-123");
    assert!(move_decision.is_some());
    assert_eq!(move_decision.unwrap(), vec![Card::new(Rank::Three, Suit::Diamonds)]);
}

#[test]
fn test_bot_passes_when_no_valid_moves() {
    let strategy = BasicBotStrategy::new();
    let game = two_player_game(
        vec![Card::new(Rank::Three, Suit::Diamonds)],
        vec![Card::new(Rank::Five, Suit::Spades)],
        vec![Hand::Single(SingleHand::new(Card::new(Rank::King, Suit::Spades)))],
    );
    let move_decision = strategy.decide_move(&game, "bot-123");
    assert!(move_decision.is_none());
}

#[test]
fn test_bot_plays_lowest_card() {
    let strategy = BasicBotStrategy::new();
    let game = two_player_game(
        vec![
            Card::new(Rank::Three, Suit::Diamonds),
            Card::new(Rank::King, Suit::Spades),
            Card::new(Rank::Ace, Suit::Hearts),
        ],
        vec![Card::new(Rank::Five, Suit::Spades)],
        vec![],
    );
    let move_decision = strategy.decide_move(&game, "bot-123");
    assert!(move_decision.is_some());
    assert_eq!(move_decision.unwrap(), vec![Card::new(Rank::Three, Suit::Diamonds)]);
}

#[test]
fn test_bot_plays_pair_to_beat_pair() {
    let strategy = BasicBotStrategy::new();
    let mut last_pair_cards = vec![
        Card::new(Rank::Three, Suit::Clubs),
        Card::new(Rank::Three, Suit::Spades),
    ];
    last_pair_cards.sort();
    let last_pair = Hand::from_cards(&last_pair_cards).unwrap();
    let game = two_player_game(
        vec![
            Card::new(Rank::Four, Suit::Hearts),
            Card::new(Rank::Four, Suit::Spades),
            Card::new(Rank::Six, Suit::Clubs),
        ],
        vec![Card::new(Rank::Three, Suit::Diamonds)],
        vec![last_pair],
    );
    let move_decision = strategy.decide_move(&game, "bot-123");
    assert!(move_decision.is_some());
    let mut expected_pair = vec![Card::new(Rank::Four, Suit::Hearts), Card::new(Rank::Four, Suit::Spades)];
    expected_pair.sort();
    assert_eq!(move_decision.unwrap(), expected_pair);
}

#[test]
fn test_bot_plays_triple_to_beat_triple() {
    let strategy = BasicBotStrategy::new();
    let mut last_triple_cards = vec![
        Card::new(Rank::Five, Suit::Clubs),
        Card::new(Rank::Five, Suit::Diamonds),
        Card::new(Rank::Five, Suit::Spades),
    ];
    last_triple_cards.sort();
    let last_triple = Hand::from_cards(&last_triple_cards).unwrap();
    let game = two_player_game(
        vec![
            Card::new(Rank::Six, Suit::Diamonds),
            Card::new(Rank::Six, Suit::Hearts),
            Card::new(Rank::Six, Suit::Spades),
            Card::new(Rank::Nine, Suit::Clubs),
        ],
        vec![Card::new(Rank::Three, Suit::Diamonds)],
        vec![last_triple],
    );
    let move_decision = strategy.decide_move(&game, "bot-123");
    assert!(move_decision.is_some());
    let mut expected_triple = vec![
        Card::new(Rank::Six, Suit::Diamonds),
        Card::new(Rank::Six, Suit::Hearts),
        Card::new(Rank::Six, Suit::Spades),
    ];
    expected_triple.sort();
    assert_eq!(move_decision.unwrap(), expected_triple);
}

#[test]
fn test_bot_plays_five_card_hand_to_beat_straight() {
    let strategy = BasicBotStrategy::new();
    let mut last_straight_cards = vec![
        Card::new(Rank::Five, Suit::Clubs),
        Card::new(Rank::Six, Suit::Diamonds),
        Card::new(Rank::Seven, Suit::Hearts),
        Card::new(Rank::Eight, Suit::Spades),
        Card::new(Rank::Nine, Suit::Clubs),
    ];
    last_straight_cards.sort();
    let last_straight = Hand::from_cards(&last_straight_cards).unwrap();
    let game = two_player_game(
        vec![
            Card::new(Rank::Six, Suit::Clubs),
            Card::new(Rank::Seven, Suit::Diamonds),
            Card::new(Rank::Eight, Suit::Hearts),
            Card::new(Rank::Nine, Suit::Spades),
            Card::new(Rank::Ten, Suit::Clubs),
            Card::new(Rank::Queen, Suit::Hearts),
        ],
        vec![Card::new(Rank::Three, Suit::Diamonds)],
        vec![last_straight],
    );
    let move_decision = strategy.decide_move(&game, "bot-123");
    assert!(move_decision.is_some());
    let mut expected_straight = vec![
        Card::new(Rank::Six, Suit::Clubs),
        Card::new(Rank::Seven, Suit::Diamonds),
        Card::new(Rank::Eight, Suit::Hearts),
        Card::new(Rank::Nine, Suit::Spades),
        Card::new(Rank::Ten, Suit::Clubs),
    ];
    expected_straight.sort();
    assert_eq!(move_decision.unwrap(), expected_straight);
}

#[test]
fn test_choose_best_move_uses_average_within_category() {
    let strategy = BasicBotStrategy::new();

    let mut straight_3_to_7 = vec![
        Card::new(Rank::Three, Suit::Clubs),
        Card::new(Rank::Four, Suit::Diamonds),
        Card::new(Rank::Five, Suit::Hearts),
        Card::new(Rank::Six, Suit::Spades),
        Card::new(Rank::Seven, Suit::Clubs),
    ];
    let mut straight_4_to_8 = vec![
        Card::new(Rank::Four, Suit::Clubs),
        Card::new(Rank::Five, Suit::Diamonds),
        Card::new(Rank::Six, Suit::Hearts),
        Card::new(Rank::Seven, Suit::Spades),
        Card::new(Rank::Eight, Suit::Clubs),
    ];
    straight_3_to_7.sort();
    straight_4_to_8.sort();

    let valid_moves = vec![straight_4_to_8.clone(), straight_3_to_7.clone()];

    let mut rng = StdRng::seed_from_u64(12345);
    let chosen = strategy.choose_best_move_with_rng(valid_moves, &mut rng).unwrap();
    assert_eq!(chosen, straight_3_to_7);
}

#[test]
fn test_random_category_selection_with_seeded_rng() {
    let strategy = BasicBotStrategy::new();

    let single_five = vec![Card::new(Rank::Five, Suit::Hearts)];
    let mut pair_fives = vec![Card::new(Rank::Five, Suit::Diamonds), Card::new(Rank::Five, Suit::Clubs)];
    pair_fives.sort();
    let mut triple_fives = vec![
        Card::new(Rank::Five, Suit::Spades),
        Card::new(Rank::Five, Suit::Hearts),
        Card::new(Rank::Five, Suit::Diamonds),
    ];
    triple_fives.sort();

    let valid_moves = vec![single_five.clone(), pair_fives.clone(), triple_fives.clone()];

    let seed = 42u64;
    let mut rng_for_choice = StdRng::seed_from_u64(seed);
    let mut rng_for_expect = rng_for_choice.clone();

    let chosen = strategy.choose_best_move_with_rng(valid_moves, &mut rng_for_choice).unwrap();

    let expected_index = rng_for_expect.random_range(0..3);
    let expected_len = [1usize, 2usize, 3usize][expected_index];
    assert_eq!(chosen.len(), expected_len);
}

#[test]
fn pick_takes_the_tied_sizes_smallest_first() {
    let strategy = BasicBotStrategy::new();
    let single_five = vec![Card::new(Rank::Five, Suit::Hearts)];
    let pair_fives = vec![Card::new(Rank::Five, Suit::Clubs), Card::new(Rank::Five, Suit::Diamonds)];
    let single_king = vec![Card::new(Rank::King, Suit::Hearts)];
    let moves = vec![pair_fives.clone(), single_king.clone(), single_five.clone()];
    assert_eq!(strategy.pick_best_move(&moves, 0), Some(single_five));
    assert_eq!(strategy.pick_best_move(&moves, 1), Some(pair_fives));
    assert_eq!(strategy.pick_best_move(&vec![], 0), None);
}

#[test]
fn pick_breaks_average_ties_by_card_order() {
    let strategy = BasicBotStrategy::new();
    let five_spades = vec![Card::new(Rank::Five, Suit::Spades)];
    let five_clubs = vec![Card::new(Rank::Five, Suit::Clubs)];
    let moves = vec![five_spades, five_clubs.clone()];
    assert_eq!(strategy.pick_best_move(&moves, 0), Some(five_clubs));
}

#[test]
fn bot_does_not_move_out_of_turn() {
    let strategy = BasicBotStrategy::new();
    let game = two_player_game(
        vec![Card::new(Rank::Three, Suit::Diamonds)],
        vec![Card::new(Rank::Five, Suit::Spades)],
        vec![],
    );
    assert_eq!(strategy.decide_move(&game, "human-456"), None);
    assert_eq!(strategy.decide_move(&game, "nobody"), None);
}

#[test]
fn bot_moves_are_accepted_by_the_game() {
    let strategy = BasicBotStrategy::new();
    let mut game = two_player_game(
        vec![
            Card::new(Rank::Three, Suit::Diamonds),
            Card::new(Rank::Three, Suit::Clubs),
            Card::new(Rank::Nine, Suit::Hearts),
        ],
        vec![Card::new(Rank::Five, Suit::Spades), Card::new(Rank::Two, Suit::Spades)],
        vec![],
    );
    let first = strategy.decide_move(&game, "bot-123").unwrap();
    assert!(first.contains(&Card::new(Rank::Three, Suit::Diamonds)));
    assert!(game.play_cards("bot-123", &first).is_ok());
}

#[test]
fn bot_ids_start_with_bot() {
    let bot = BotPlayer::new("room".to_string(), "Bot 1".to_string(), BotDifficulty::Hard);
    assert!(bot.uuid.starts_with("bot-"));
    assert_eq!(bot.uuid.len(), 40);
    assert_eq!(bot.name, "Bot 1");
    assert_eq!(bot.room_id, "room");
    assert_eq!(bot.difficulty, BotDifficulty::Hard);
    assert!(BotPlayer::is_bot_uuid(&bot.uuid));
    assert!(BotPlayer::is_bot_uuid("bot-"));
    assert!(!BotPlayer::is_bot_uuid("bot"));
    assert!(!BotPlayer::is_bot_uuid("human-bot-1"));
    assert!(!BotPlayer::is_bot_uuid(""));
    let other = BotPlayer::new("room".to_string(), "Bot 2".to_string(), BotDifficulty::Easy);
    assert_ne!(bot.uuid, other.uuid);
}
