use bigtwo::bot::BotDifficulty;
use bigtwo::bot_manager::BotManager;
use bigtwo::cards::{Card, Rank, Suit};
use bigtwo::errors::AppError;
use bigtwo::events::{RoomEvent, RoomEventError};
use bigtwo::game_events::{bot_move_delay_ms, decide_bot_turn, handle_game_event, RESET_DELAY_MS};
use bigtwo::game_service::GameService;
use bigtwo::players::{InMemoryPlayerMappingService, PlayerMappingService};
use bigtwo::service::BotTurn;

const IDS: [&str; 4] = [
    "550e8400-e29b-41d4-a716-446655440000",
    "550e8400-e29b-41d4-a716-446655440001",
    "550e8400-e29b-41d4-a716-446655440002",
    "550e8400-e29b-41d4-a716-446655440003",
];

fn registered_mapping() -> InMemoryPlayerMappingService {
    let mut m = InMemoryPlayerMappingService::new();
    for (i, id) in IDS.iter().enumerate() {
        m.register_player(id.to_string(), format!("player{}", i)).unwrap();
    }
    m
}

fn create(games: &mut GameService, mapping: &InMemoryPlayerMappingService) -> String {
    let players: Vec<String> = IDS.iter().map(|s| s.to_string()).collect();
    let reaction =
        handle_game_event(games, mapping, "room", RoomEvent::CreateGame { players }).unwrap();
    assert_eq!(reaction.emit.len(), 1);
    assert!(reaction.reset_after_ms.is_none());
    match &reaction.emit[0] {
        RoomEvent::StartGame { game } => game.current_player_turn(),
        other => panic!("unexpected {:?}", other),
    }
}

#[test]
fn create_game_event_starts_the_game() {
    let mapping = registered_mapping();
    let mut games = GameService::new();
    let first = create(&mut games, &mapping);
    assert_eq!(games.get_game("room").unwrap().current_player_turn(), first);
}

#[test]
fn create_game_event_failures_are_handler_errors() {
    let mapping = registered_mapping();
    let mut games = GameService::new();
    let r = handle_game_event(&mut games, &mapping, "room", RoomEvent::CreateGame { players: vec![] });
    assert_eq!(
        r.err(),
        Some(RoomEventError::HandlerError(
            "Failed to create game: Bad request: Big Two requires exactly 4 players".to_string()
        ))
    );
}

#[test]
fn move_events_play_and_tell_the_room() {
    let mapping = registered_mapping();
    let mut games = GameService::new();
    let first = create(&mut games, &mapping);
    let three = Card::new(Rank::Three, Suit::Diamonds);
    let reaction = handle_game_event(
        &mut games,
        &mapping,
        "room",
        RoomEvent::TryPlayMove { player: first.clone(), cards: vec![three] },
    )
    .unwrap();
    assert_eq!(reaction.emit.len(), 2);
    assert!(matches!(&reaction.emit[0], RoomEvent::MovePlayed { player, .. } if player == &first));
    let next = games.get_game("room").unwrap().current_player_turn();
    assert!(matches!(&reaction.emit[1], RoomEvent::TurnChanged { player } if player == &next));

    let again = handle_game_event(
        &mut games,
        &mapping,
        "room",
        RoomEvent::TryPlayMove { player: first.clone(), cards: vec![three] },
    );
    assert_eq!(
        again.err(),
        Some(RoomEventError::HandlerError(
            "Failed to play move: Not found: Game error: Invalid player".to_string()
        ))
    );
    let missing = handle_game_event(
        &mut games,
        &mapping,
        "elsewhere",
        RoomEvent::TryPlayMove { player: first, cards: vec![three] },
    );
    assert_eq!(
        missing.err(),
        Some(RoomEventError::HandlerError(
            "Failed to play move: Not found: Game not found for room: elsewhere".to_string()
        ))
    );
}

#[test]
fn wins_schedule_a_reset_and_resets_end_the_game() {
    let mapping = registered_mapping();
    let mut games = GameService::new();
    create(&mut games, &mapping);
    let won = handle_game_event(
        &mut games,
        &mapping,
        "room",
        RoomEvent::GameWon { winner: IDS[0].to_string(), winning_hand: vec![] },
    )
    .unwrap();
    assert_eq!(won.reset_after_ms, Some(RESET_DELAY_MS));
    assert!(won.emit.is_empty());
    let reset = handle_game_event(&mut games, &mapping, "room", RoomEvent::GameReset).unwrap();
    assert!(reset.emit.is_empty());
    assert!(games.get_game("room").is_none());
    let other = handle_game_event(&mut games, &mapping, "room", RoomEvent::PlayerJoined { player: "x".into() });
    assert!(other.unwrap().emit.is_empty());
}

#[test]
fn bots_decide_only_on_their_turn() {
    let mapping = registered_mapping();
    let mut games = GameService::new();
    let mut bots = BotManager::new();
    assert!(matches!(decide_bot_turn(&games, &bots, "room", IDS[0]), Ok(BotTurn::NotABot)));
    assert_eq!(
        decide_bot_turn(&games, &bots, "room", "bot-unknown").err(),
        Some(RoomEventError::HandlerError("Bot not found: bot-unknown".to_string()))
    );
    let bot = bots.create_bot("room".to_string(), BotDifficulty::Easy).unwrap();
    assert!(matches!(decide_bot_turn(&games, &bots, "room", &bot.uuid), Ok(BotTurn::Skip)));
    create(&mut games, &mapping);
    assert!(matches!(decide_bot_turn(&games, &bots, "room", &bot.uuid), Ok(BotTurn::Skip)));
}

#[test]
fn bot_delay_is_between_a_tenth_and_half_a_second() {
    for _ in 0..20 {
        let d = bot_move_delay_ms();
        assert!((100..500).contains(&d));
    }
}

#[test]
fn app_errors_read_as_sentences() {
    assert_eq!(AppError::BadRequest("x".into()).message(), "Bad request: x");
    assert_eq!(AppError::NotFound("y".into()).message(), "Not found: y");
    assert_eq!(AppError::Internal.message(), "Internal server error");
    assert_eq!(AppError::Forbidden("z".into()).message(), "Forbidden: z");
    assert_eq!(AppError::DatabaseError("d".into()).message(), "Database error: d");
    assert_eq!(AppError::Unauthorized("u".into()).message(), "Unauthorized: u");
    assert_eq!(AppError::JwtError("j".into()).message(), "JWT error: j");
}
