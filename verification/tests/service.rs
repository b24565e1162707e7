use std::collections::HashMap;

use bigtwo::bot::{BotDifficulty, BotPlayer};
use bigtwo::cards::{Card, Rank, Suit};
use bigtwo::errors::AppError;
use bigtwo::events::{AttemptOutcome, EventError, RetryDecision, RoomEvent, RoomEventError};
use bigtwo::game::{Game, Player};
use bigtwo::room::RoomModel;
use bigtwo::service::{
    bot_turn_step, check_add_bot, check_create_game, check_remove_bot, events_after_move, play_move,
    trim_text, BotTurn,
};

fn card(rank: Rank, suit: Suit) -> Card {
    Card::new(rank, suit)
}

fn game_of(hands: Vec<(&str, Vec<Card>)>) -> Game {
    let players: Vec<Player> =
        hands.into_iter().map(|(n, c)| Player { name: n.to_string(), cards: c }).collect();
    let starting: HashMap<String, Vec<Card>> =
        players.iter().map(|p| (p.name.clone(), p.cards.clone())).collect();
    Game::new("g".to_string(), players, 0, 0, vec![], starting)
}

fn room_hosted_by(host: &str, players: &[&str]) -> RoomModel {
    let mut r = RoomModel::new(host.to_string());
    r.id = "room-1".to_string();
    for p in players {
        r.add_player(p.to_string());
    }
    r
}

fn strings(v: &[&str]) -> Vec<String> {
    v.iter().map(|s| s.to_string()).collect()
}

#[test]
fn backoff_doubles_from_one_hundred_milliseconds() {
    let err = EventError::retryable("busy");
    assert_eq!(next_after_attempt_of(0, 3, AttemptOutcome::Failed(err.clone())), RetryDecision::RetryAfter(100));
    assert_eq!(next_after_attempt_of(1, 3, AttemptOutcome::Failed(err.clone())), RetryDecision::RetryAfter(200));
    assert_eq!(next_after_attempt_of(2, 3, AttemptOutcome::Failed(err.clone())), RetryDecision::RetryAfter(400));
    assert_eq!(next_after_attempt_of(3, 3, AttemptOutcome::Failed(err.clone())), RetryDecision::GiveUp(err));
}

fn next_after_attempt_of(attempt: u32, max: u32, outcome: AttemptOutcome) -> RetryDecision {
    bigtwo::events::next_after_attempt(attempt, max, outcome)
}

#[test]
fn success_ends_and_permanent_errors_give_up_at_once() {
    assert_eq!(next_after_attempt_of(0, 3, AttemptOutcome::Succeeded), RetryDecision::Done);
    let err = EventError::non_retryable("bad input");
    assert!(!err.is_retryable());
    assert_eq!(next_after_attempt_of(0, 3, AttemptOutcome::Failed(err.clone())), RetryDecision::GiveUp(err));
    let panic = EventError::Panic("boom".to_string());
    assert_eq!(next_after_attempt_of(0, 3, AttemptOutcome::Failed(panic.clone())), RetryDecision::GiveUp(panic));
}

#[test]
fn timeouts_retry_at_once_until_the_last_attempt() {
    assert_eq!(next_after_attempt_of(0, 2, AttemptOutcome::TimedOut), RetryDecision::RetryNow);
    assert_eq!(next_after_attempt_of(1, 2, AttemptOutcome::TimedOut), RetryDecision::RetryNow);
    assert_eq!(next_after_attempt_of(2, 2, AttemptOutcome::TimedOut), RetryDecision::GiveUp(EventError::Timeout));
    assert!(EventError::Timeout.is_retryable());
    assert!(EventError::retryable("x").is_retryable());
}

#[test]
fn refused_move_is_answered_with_the_game_reason() {
    let game = game_of(vec![
        ("alice", vec![card(Rank::Three, Suit::Diamonds), card(Rank::Four, Suit::Hearts)]),
        ("bob", vec![card(Rank::Five, Suit::Spades)]),
    ]);
    let r = play_move(game.clone(), "bob", &[card(Rank::Five, Suit::Spades)]);
    assert!(matches!(r, Err(AppError::NotFound(ref m)) if m == "Game error: Invalid player"));
    let r = play_move(game, "alice", &[card(Rank::Six, Suit::Spades)]);
    assert!(matches!(r, Err(AppError::NotFound(ref m)) if m == "Game error: Player does not own card: 6S"));
}

#[test]
fn accepted_move_gives_the_events_for_the_room() {
    let game = game_of(vec![
        ("alice", vec![card(Rank::Three, Suit::Diamonds), card(Rank::Four, Suit::Hearts)]),
        ("bob", vec![card(Rank::Five, Suit::Spades)]),
    ]);
    let played = [card(Rank::Three, Suit::Diamonds)];
    let r = play_move(game, "alice", &played).unwrap();
    assert!(!r.player_won);
    assert!(r.winning_hand.is_none());
    assert_eq!(r.game.current_player_turn(), "bob");
    let events = events_after_move("alice", &played, r);
    assert_eq!(events.len(), 2);
    assert!(matches!(&events[0], RoomEvent::MovePlayed { player, cards, .. }
        if player == "alice" && cards == &played.to_vec()));
    assert!(matches!(&events[1], RoomEvent::TurnChanged { player } if player == "bob"));
}

#[test]
fn winning_move_is_told_as_a_win() {
    let game = game_of(vec![
        ("alice", vec![card(Rank::Three, Suit::Diamonds)]),
        ("bob", vec![card(Rank::Five, Suit::Spades)]),
    ]);
    let played = [card(Rank::Three, Suit::Diamonds)];
    let r = play_move(game, "alice", &played).unwrap();
    assert!(r.player_won);
    assert_eq!(r.winning_hand, Some(vec![card(Rank::Three, Suit::Diamonds)]));
    let events = events_after_move("alice", &played, r);
    assert_eq!(events.len(), 1);
    assert!(matches!(&events[0], RoomEvent::GameWon { winner, winning_hand }
        if winner == "alice" && winning_hand == &vec![card(Rank::Three, Suit::Diamonds)]));
}

#[test]
fn trimming_removes_outer_whitespace_only() {
    assert_eq!(trim_text("  a b \t\n"), "a b");
    assert_eq!(trim_text(" \u{3000} "), "");
    assert_eq!(trim_text("x"), "x");
}

#[test]
fn starting_a_game_needs_a_room_and_four_distinct_players() {
    let four = strings(&["a", "b", "c", "d"]);
    assert_eq!(check_create_game("room", &four), Ok(()));
    assert_eq!(
        check_create_game("  ", &four),
        Err(AppError::BadRequest("Room ID cannot be empty".to_string()))
    );
    assert_eq!(
        check_create_game("room", &strings(&["a", "b", "c"])),
        Err(AppError::BadRequest("Big Two requires exactly 4 players".to_string()))
    );
    assert_eq!(
        check_create_game("room", &strings(&["a", " ", "c", "d"])),
        Err(AppError::BadRequest("Player UUIDs cannot be empty".to_string()))
    );
    assert_eq!(
        check_create_game("room", &strings(&["a", "b", " a", "d"])),
        Err(AppError::BadRequest("All player UUIDs must be unique".to_string()))
    );
}

#[test]
fn bot_turn_ignores_humans_and_turns_of_others() {
    let bot = BotPlayer::new("room-1".to_string(), "Bot".to_string(), BotDifficulty::Easy);
    assert!(matches!(bot_turn_step("human", Some(&bot), None), Ok(BotTurn::NotABot)));
    assert_eq!(
        bot_turn_step("bot-x", None, None).err(),
        Some(RoomEventError::HandlerError("Bot not found: bot-x".to_string()))
    );
    assert!(matches!(bot_turn_step(&bot.uuid, Some(&bot), None), Ok(BotTurn::Skip)));
    let game = game_of(vec![
        ("human", vec![card(Rank::Three, Suit::Diamonds)]),
        (bot.uuid.as_str(), vec![card(Rank::Five, Suit::Spades)]),
    ]);
    assert!(matches!(bot_turn_step(&bot.uuid, Some(&bot), Some(&game)), Ok(BotTurn::Skip)));
}

#[test]
fn bot_turn_plays_the_lowest_card_or_passes() {
    let bot = BotPlayer::new("room-1".to_string(), "Bot".to_string(), BotDifficulty::Medium);
    let game = game_of(vec![
        (bot.uuid.as_str(), vec![card(Rank::Three, Suit::Diamonds), card(Rank::King, Suit::Hearts)]),
        ("human", vec![card(Rank::Five, Suit::Spades)]),
    ]);
    match bot_turn_step(&bot.uuid, Some(&bot), Some(&game)) {
        Ok(BotTurn::Play(cards)) => assert_eq!(cards, vec![card(Rank::Three, Suit::Diamonds)]),
        other => panic!("unexpected {:?}", other),
    }
}

#[test]
fn adding_a_bot_is_for_the_host_of_a_room_with_room() {
    let r = room_hosted_by("h", &["h", "p"]);
    assert_eq!(check_add_bot("room-1", Some(&r), Some("h"), 0), Ok(()));
    assert_eq!(
        check_add_bot("room-9", None, Some("h"), 0),
        Err(AppError::NotFound("Room not found: room-9".to_string()))
    );
    assert_eq!(
        check_add_bot("room-1", Some(&r), None, 0),
        Err(AppError::Unauthorized("No player UUID for session".to_string()))
    );
    assert_eq!(
        check_add_bot("room-1", Some(&r), Some("p"), 0),
        Err(AppError::Forbidden("Only the host can add bots".to_string()))
    );
    assert_eq!(
        check_add_bot("room-1", Some(&r), Some("h"), 3),
        Err(AppError::BadRequest("Room room-1 already has the maximum of 3 bots".to_string()))
    );
    let full = room_hosted_by("h", &["h", "a", "b", "c"]);
    assert_eq!(
        check_add_bot("room-1", Some(&full), Some("h"), 0),
        Err(AppError::BadRequest("Room is full".to_string()))
    );
    let mut hostless = room_hosted_by("h", &["p"]);
    hostless.host_uuid = None;
    assert_eq!(
        check_add_bot("room-1", Some(&hostless), Some("h"), 0),
        Err(AppError::BadRequest("Room has no host".to_string()))
    );
}

#[test]
fn removing_a_bot_is_for_the_host_and_the_bot_of_that_room() {
    let r = room_hosted_by("h", &["h"]);
    let bot = BotPlayer::new("room-1".to_string(), "Bot".to_string(), BotDifficulty::Hard);
    let elsewhere = BotPlayer::new("room-2".to_string(), "Bot".to_string(), BotDifficulty::Hard);
    assert_eq!(check_remove_bot("room-1", &bot.uuid, Some(&r), Some("h"), Some(&bot)), Ok(()));
    assert_eq!(
        check_remove_bot("room-1", "human", Some(&r), Some("h"), None),
        Err(AppError::BadRequest("UUID is not a bot: human".to_string()))
    );
    assert_eq!(
        check_remove_bot("room-1", &bot.uuid, Some(&r), Some("x"), Some(&bot)),
        Err(AppError::Forbidden("Only the host can remove bots".to_string()))
    );
    assert_eq!(
        check_remove_bot("room-1", "bot-gone", Some(&r), Some("h"), None),
        Err(AppError::NotFound("Bot not found: bot-gone".to_string()))
    );
    assert_eq!(
        check_remove_bot("room-1", &elsewhere.uuid, Some(&r), Some("h"), Some(&elsewhere)),
        Err(AppError::BadRequest("Bot not in specified room".to_string()))
    );
}

#[test]
fn late_non_retryable_failure_gives_up() {
    let err = EventError::NonRetryable("bad".to_string());
    assert_eq!(
        bigtwo::events::next_after_attempt(60, 100, AttemptOutcome::Failed(err.clone())),
        RetryDecision::GiveUp(err)
    );
    assert_eq!(
        bigtwo::events::next_after_attempt(60, 100, AttemptOutcome::TimedOut),
        RetryDecision::RetryNow
    );
}
