use bigtwo::cards::{Card, Rank, Suit};
use bigtwo::game::{Game, Player};
use bigtwo::stats::{
    CalculationContext, CardCountScoreCalculator, CardsRemainingCollector, CollectedData, GameResult,
    InMemoryStatsRepository, PlayerGameResult, ScoreCalculator, ScoreTable, StatCollector, StatsError,
    StatsService, TenPlusMultiplierCalculator, WinLossCollector, BASE_SCORE, MULTIPLIER,
};
use std::collections::HashMap;

fn sample_game() -> GameResult {
    GameResult {
        room_id: "room".into(),
        game_number: 1,
        winner_uuid: "winner".into(),
        players: vec![],
        completed_at: 0,
        had_bots: false,
    }
}

fn build_context(game: &GameResult, scores: &ScoreTable) -> CalculationContext {
    CalculationContext::new(game.clone(), scores.clone())
}

fn results_game(room_id: &str, winner_uuid: &str, players: Vec<(String, u8, i32, i32)>) -> GameResult {
    GameResult {
        room_id: room_id.to_string(),
        game_number: 1,
        winner_uuid: winner_uuid.to_string(),
        players: players
            .into_iter()
            .map(|(uuid, cards_remaining, raw_score, final_score)| PlayerGameResult {
                uuid,
                cards_remaining,
                raw_score,
                final_score,
            })
            .collect(),
        completed_at: 1_700_000_000_000,
        had_bots: false,
    }
}

fn game_with_hands(hands: Vec<(&str, Vec<Card>)>) -> Game {
    let players: Vec<Player> =
        hands.into_iter().map(|(n, c)| Player { name: n.to_string(), cards: c }).collect();
    let starting: HashMap<String, Vec<Card>> =
        players.iter().map(|p| (p.name.clone(), p.cards.clone())).collect();
    Game::new("g".to_string(), players, 0, 0, vec![], starting)
}

#[test]
fn returns_card_count_for_player() {
    let calculator = CardCountScoreCalculator::new();
    let data = vec![CollectedData::CardsRemaining { player_uuid: "player".into(), count: 7 }];
    let game = sample_game();
    let scores = ScoreTable::new();

    let score = calculator.calculate("player", &data, &build_context(&game, &scores));
    assert_eq!(score, 7);
}

#[test]
fn returns_zero_when_data_missing() {
    let calculator = CardCountScoreCalculator::new();
    let data = vec![CollectedData::CardsRemaining { player_uuid: "other".into(), count: 5 }];
    let game = sample_game();
    let scores = ScoreTable::new();

    let score = calculator.calculate("player", &data, &build_context(&game, &scores));
    assert_eq!(score, 0);
}

#[test]
fn doubles_score_when_ten_or_more_cards() {
    let calculator = TenPlusMultiplierCalculator::new();
    let data = vec![CollectedData::CardsRemaining { player_uuid: "player".into(), count: 10 }];
    let game = sample_game();
    let mut scores = ScoreTable::new();
    scores.insert("player".into(), 12);

    let score = calculator.calculate("player", &data, &build_context(&game, &scores));
    assert_eq!(score, 24);
}

#[test]
fn leaves_score_unchanged_for_less_than_ten() {
    let calculator = TenPlusMultiplierCalculator::new();
    let data = vec![CollectedData::CardsRemaining { player_uuid: "player".into(), count: 9 }];
    let game = sample_game();
    let mut scores = ScoreTable::new();
    scores.insert("player".into(), 9);

    let score = calculator.calculate("player", &data, &build_context(&game, &scores));
    assert_eq!(score, 9);
}

#[test]
fn returns_zero_when_no_base_score() {
    let calculator = TenPlusMultiplierCalculator::new();
    let data = vec![CollectedData::CardsRemaining { player_uuid: "player".into(), count: 11 }];
    let game = sample_game();
    let scores = ScoreTable::new();

    let score = calculator.calculate("player", &data, &build_context(&game, &scores));
    assert_eq!(score, 0);
}

#[test]
fn calculators_run_base_first() {
    assert_eq!(CardCountScoreCalculator::new().priority(), BASE_SCORE);
    assert_eq!(TenPlusMultiplierCalculator::new().priority(), MULTIPLIER);
    assert!(BASE_SCORE < MULTIPLIER);
}

#[test]
fn score_table_keeps_one_score_per_player() {
    let mut t = ScoreTable::new();
    assert_eq!(t.get("a"), None);
    t.insert("a".into(), 3);
    t.insert("b".into(), 4);
    t.insert("a".into(), 8);
    assert_eq!(t.get("a"), Some(8));
    assert_eq!(t.get("b"), Some(4));
    let copy = t.duplicate();
    assert_eq!(copy.get("a"), Some(8));
}

#[test]
fn collected_data_names_its_player() {
    let d = CollectedData::WinLoss { player_uuid: "p".into(), won: true };
    assert_eq!(d.player_uuid(), "p");
    assert_eq!(StatsError::Validation("x".into()).message(), "Validation error: x");
    assert_eq!(StatsError::Repository("y".into()).message(), "Repository error: y");
}

#[test]
fn collects_card_counts_for_all_players() {
    let collector = CardsRemainingCollector::new();
    let game = game_with_hands(vec![
        ("alice", vec![Card::new(Rank::Three, Suit::Diamonds), Card::new(Rank::Four, Suit::Hearts)]),
        ("bot-123", vec![Card::new(Rank::Five, Suit::Spades)]),
    ]);
    let data = collector.collect(&game, "alice").unwrap();
    assert_eq!(data.len(), 2);
    match &data[0] {
        CollectedData::CardsRemaining { player_uuid, count } => {
            assert_eq!(player_uuid, "alice");
            assert_eq!(*count, 2);
        }
        _ => panic!("Expected CardsRemaining variant"),
    }
}

#[test]
fn marks_winner_correctly() {
    let collector = WinLossCollector::new();
    let game = game_with_hands(vec![
        ("alice", vec![Card::new(Rank::Three, Suit::Diamonds)]),
        ("bob", vec![Card::new(Rank::Four, Suit::Hearts)]),
    ]);
    let data = collector.collect(&game, "alice").unwrap();
    assert_eq!(data.len(), 2);
    assert!(matches!(data[0], CollectedData::WinLoss { won: true, .. }));
    assert!(matches!(data[1], CollectedData::WinLoss { won: false, .. }));
}

#[test]
fn errors_when_no_players() {
    let collector = WinLossCollector::new();
    let game = game_with_hands(vec![]);
    let result = collector.collect(&game, "any");
    assert!(matches!(result, Err(StatsError::Validation(_))));
}

#[test]
fn records_game_and_updates_stats() {
    let mut repo = InMemoryStatsRepository::new();
    let game = results_game(
        "room-1",
        "player-1",
        vec![("player-1".to_string(), 0, 0, 0), ("player-2".to_string(), 5, 5, 5)],
    );
    repo.record_game(game).unwrap();

    let stats = repo.get_room_stats("room-1").unwrap().unwrap();
    assert_eq!(stats.games_played, 1);
    assert_eq!(stats.player_stats.len(), 2);

    let winner = stats.get_player("player-1").unwrap();
    assert_eq!(winner.wins, 1);
    assert_eq!(winner.current_win_streak, 1);
    assert_eq!(winner.best_win_streak, 1);

    let loser = stats.get_player("player-2").unwrap();
    assert_eq!(loser.wins, 0);
    assert_eq!(loser.current_win_streak, 0);
    assert_eq!(loser.total_score, 5);
}

#[test]
fn maintains_streaks_across_games() {
    let mut repo = InMemoryStatsRepository::new();
    let players = vec![("player-1".to_string(), 0, 0, 0), ("player-2".to_string(), 3, 3, 3)];
    repo.record_game(results_game("room", "player-1", players.clone())).unwrap();
    repo.record_game(results_game("room", "player-1", players.clone())).unwrap();
    repo.record_game(results_game("room", "player-2", players.clone())).unwrap();

    let stats = repo.get_room_stats("room").unwrap().unwrap();
    let player1 = stats.get_player("player-1").unwrap();
    assert_eq!(player1.wins, 2);
    assert_eq!(player1.best_win_streak, 2);
    assert_eq!(player1.current_win_streak, 0);
    let player2 = stats.get_player("player-2").unwrap();
    assert_eq!(player2.games_played, 3);
    assert_eq!(player2.total_score, 9);
    assert_eq!(player2.current_win_streak, 1);
}

#[test]
fn reset_clears_room_stats() {
    let mut repo = InMemoryStatsRepository::new();
    repo.record_game(results_game(
        "room-reset",
        "player-1",
        vec![("player-1".to_string(), 0, 0, 0), ("player-2".to_string(), 2, 2, 2)],
    ))
    .unwrap();
    repo.record_game(results_game("other", "p", vec![("p".to_string(), 0, 0, 0)])).unwrap();
    repo.reset_room_stats("room-reset").unwrap();
    assert!(repo.get_room_stats("room-reset").unwrap().is_none());
    assert!(repo.get_room_stats("other").unwrap().is_some());
}

#[test]
fn records_raw_and_final_scores() {
    let repo = InMemoryStatsRepository::new();
    let mut service = StatsService::builder(repo).build();
    let alice_cards: Vec<Card> = [
        Rank::Three, Rank::Four, Rank::Five, Rank::Six, Rank::Seven, Rank::Eight, Rank::Nine,
        Rank::Ten, Rank::Jack, Rank::Queen, Rank::King, Rank::Ace, Rank::Two,
    ]
    .iter()
    .map(|r| Card::new(*r, Suit::Diamonds))
    .collect();
    let game = game_with_hands(vec![
        ("alice", alice_cards),
        ("bob", vec![Card::new(Rank::Four, Suit::Hearts), Card::new(Rank::Five, Suit::Spades)]),
    ]);

    let result = service.record_game_completion("room", 1, &game, "bob", false, 42).unwrap();
    let alice = result.players.iter().find(|p| p.uuid == "alice").unwrap();
    assert_eq!(alice.cards_remaining, 13);
    assert_eq!(alice.raw_score, 13);
    assert_eq!(alice.final_score, 26);
    let bob = result.players.iter().find(|p| p.uuid == "bob").unwrap();
    assert_eq!(bob.raw_score, 2);
    assert_eq!(bob.final_score, 2);
    assert_eq!(result.completed_at, 42);

    let room_stats = service.repository().get_room_stats("room").unwrap().unwrap();
    assert_eq!(room_stats.games_played, 1);
    assert!(room_stats.get_player("bob").unwrap().wins > 0);
    assert_eq!(room_stats.get_player("alice").unwrap().total_score, 26);
}

#[test]
fn results_are_built_checked_and_recorded_in_steps() {
    let mut service = StatsService::builder(InMemoryStatsRepository::new()).build();
    let game = game_with_hands(vec![
        ("alice", vec![Card::new(Rank::Three, Suit::Diamonds)]),
        ("bob", vec![]),
    ]);
    let result = service.build_game_result("room", 2, &game, "bob", true, 7).unwrap();
    assert_eq!(result.game_number, 2);
    assert!(result.had_bots);
    assert_eq!(result.players[0].final_score, 1);
    assert!(service.can_record(&result));
    service.record_result(result).unwrap();
    let stats = service.repository().get_room_stats("room").unwrap().unwrap();
    assert_eq!(stats.get_player("bob").unwrap().wins, 1);
    assert_eq!(stats.get_player("alice").unwrap().total_score, 1);
}

#[test]
fn a_record_that_would_overflow_is_refused_before() {
    let mut repo = InMemoryStatsRepository::new();
    let big = results_game("r", "p", vec![("p".to_string(), 0, 0, i32::MAX)]);
    assert!(repo.fits(&big));
    repo.record_game(big.clone()).unwrap();
    let one_more = results_game("r", "q", vec![("p".to_string(), 0, 0, 1)]);
    assert!(!repo.fits(&one_more));
    assert!(repo.fits(&results_game("r", "q", vec![("p".to_string(), 0, 0, -5)])));
}
