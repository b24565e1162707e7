use bigtwo::bot::BotDifficulty;
use bigtwo::bot_handlers::{add_bot_to_room, default_difficulty, remove_bot_from_room};
use bigtwo::bot_manager::BotManager;
use bigtwo::cards::{Card, Rank, Suit};
use bigtwo::errors::AppError;
use bigtwo::events::RoomEvent;
use bigtwo::game_service::{GameRepository, GameService};
use bigtwo::players::{InMemoryPlayerMappingService, PlayerMappingService};
use bigtwo::room::{InMemoryRoomRepository, RoomModel, RoomRepository};
use bigtwo::service::AddBotRequest;

const IDS: [&str; 4] = [
    "550e8400-e29b-41d4-a716-446655440000",
    "550e8400-e29b-41d4-a716-446655440001",
    "550e8400-e29b-41d4-a716-446655440002",
    "550e8400-e29b-41d4-a716-446655440003",
];

fn registered() -> InMemoryPlayerMappingService {
    let mut m = InMemoryPlayerMappingService::new();
    for (i, id) in IDS.iter().enumerate() {
        m.register_player(id.to_string(), format!("player{}", i)).unwrap();
    }
    m
}

fn four() -> Vec<String> {
    IDS.iter().map(|s| s.to_string()).collect()
}

#[test]
fn game_service_deals_a_full_deck_to_four_registered_players() {
    let mapping = registered();
    let mut service = GameService::new();
    let game = service.create_game(&mapping, "room-1", &four()).unwrap();
    assert_eq!(game.players().len(), 4);
    let total: usize = game.players().iter().map(|p| p.cards.len()).sum();
    assert_eq!(total, 52);
    assert!(game.players()[0].cards.contains(&Card::new(Rank::Three, Suit::Diamonds)));
    assert!(service.get_game("room-1").is_some());
    assert!(service.get_game("room-2").is_none());
}

#[test]
fn game_service_refuses_unknown_players_and_bad_requests() {
    let mapping = registered();
    let mut service = GameService::new();
    let mut players = four();
    players[3] = "550e8400-e29b-41d4-a716-446655449999".to_string();
    assert_eq!(
        service.create_game(&mapping, "room-1", &players).err(),
        Some(AppError::BadRequest(
            "Player name not found for UUID: 550e8400-e29b-41d4-a716-446655449999".to_string()
        ))
    );
    assert_eq!(
        service.create_game(&mapping, " ", &four()).err(),
        Some(AppError::BadRequest("Room ID cannot be empty".to_string()))
    );
    assert!(service.get_game("room-1").is_none());
}

#[test]
fn game_service_plays_moves_and_keeps_the_game() {
    let mapping = registered();
    let mut service = GameService::new();
    let game = service.create_game(&mapping, "room-1", &four()).unwrap();
    let first = game.current_player_turn();
    assert_eq!(
        service.try_play_move("nowhere", &first, &[]).err(),
        Some(AppError::NotFound("Game not found for room: nowhere".to_string()))
    );
    let three = Card::new(Rank::Three, Suit::Diamonds);
    let result = service.try_play_move("room-1", &first, &[three]).unwrap();
    assert!(!result.player_won);
    let stored = service.get_game("room-1").unwrap();
    assert_eq!(stored.played_hands().len(), 1);
    assert_ne!(stored.current_player_turn(), first);
    assert_eq!(
        service.try_play_move("room-1", &first, &[three]).err(),
        Some(AppError::NotFound("Game error: Invalid player".to_string()))
    );
    service.reset_game_to_lobby("room-1").unwrap();
    assert!(service.get_game("room-1").is_none());
}

#[test]
fn game_repository_stores_by_room() {
    let mut repo = GameRepository::new();
    repo.create_game("r", &four()).unwrap();
    let g = repo.get_game("r").unwrap();
    repo.update_game("s", g.clone()).unwrap();
    assert!(repo.get_game("s").is_some());
    assert!(repo.remove_game("r").is_some());
    assert!(repo.remove_game("r").is_none());
}

fn room_with(host: &str) -> (InMemoryRoomRepository, String) {
    let mut rooms = InMemoryRoomRepository::new();
    let mut room = RoomModel::new(host.to_string());
    room.id = "room-1".to_string();
    room.add_player(host.to_string());
    rooms.create_room(&room).unwrap();
    (rooms, room.id)
}

#[test]
fn host_adds_and_removes_a_bot() {
    let (mut rooms, id) = room_with("host");
    let mut bots = BotManager::new();
    let mut players = InMemoryPlayerMappingService::new();
    let request = AddBotRequest { difficulty: BotDifficulty::Medium };
    let (bot, events) =
        add_bot_to_room(&mut rooms, &mut bots, &mut players, &id, Some("host"), &request).unwrap();
    assert!(bot.uuid.starts_with("bot-"));
    assert!(bot.name.ends_with(" Bot"));
    assert_eq!(bot.difficulty, BotDifficulty::Medium);
    assert_eq!(players.get_playername(&bot.uuid), Some(bot.name.clone()));
    assert!(rooms.get_room(&id).unwrap().unwrap().has_player(&bot.uuid));
    assert!(matches!(&events[0], RoomEvent::PlayerJoined { player } if player == &bot.uuid));
    assert!(matches!(&events[1], RoomEvent::BotAdded { bot_uuid, .. } if bot_uuid == &bot.uuid));

    let events = remove_bot_from_room(&mut rooms, &mut bots, &id, &bot.uuid, Some("host")).unwrap();
    assert!(matches!(&events[0], RoomEvent::PlayerLeft { player } if player == &bot.uuid));
    assert!(matches!(&events[1], RoomEvent::BotRemoved { bot_uuid } if bot_uuid == &bot.uuid));
    assert!(!rooms.get_room(&id).unwrap().unwrap().has_player(&bot.uuid));
    assert!(bots.get_bot(&bot.uuid).is_none());
}

#[test]
fn only_the_host_manages_bots() {
    let (mut rooms, id) = room_with("host");
    let mut bots = BotManager::new();
    let mut players = InMemoryPlayerMappingService::new();
    let request = AddBotRequest { difficulty: default_difficulty() };
    assert_eq!(
        add_bot_to_room(&mut rooms, &mut bots, &mut players, &id, Some("guest"), &request).err(),
        Some(AppError::Forbidden("Only the host can add bots".to_string()))
    );
    assert_eq!(
        add_bot_to_room(&mut rooms, &mut bots, &mut players, "missing", Some("host"), &request).err(),
        Some(AppError::NotFound("Room not found: missing".to_string()))
    );
    assert_eq!(bots.bot_count(), 0);
    let (bot, _) =
        add_bot_to_room(&mut rooms, &mut bots, &mut players, &id, Some("host"), &request).unwrap();
    assert_eq!(
        remove_bot_from_room(&mut rooms, &mut bots, &id, &bot.uuid, Some("guest")).err(),
        Some(AppError::Forbidden("Only the host can remove bots".to_string()))
    );
    assert_eq!(
        remove_bot_from_room(&mut rooms, &mut bots, &id, "host", Some("host")).err(),
        Some(AppError::BadRequest("UUID is not a bot: host".to_string()))
    );
    assert_eq!(bots.bot_count(), 1);
}

#[test]
fn a_room_takes_three_bots_at_most() {
    let (mut rooms, id) = room_with("host");
    let mut bots = BotManager::new();
    let mut players = InMemoryPlayerMappingService::new();
    let request = AddBotRequest { difficulty: BotDifficulty::Easy };
    for _ in 0..3 {
        add_bot_to_room(&mut rooms, &mut bots, &mut players, &id, Some("host"), &request).unwrap();
    }
    assert_eq!(
        add_bot_to_room(&mut rooms, &mut bots, &mut players, &id, Some("host"), &request).err(),
        Some(AppError::BadRequest("Room is full".to_string()))
    );
    assert_eq!(bots.get_bots_in_room(&id).len(), 3);
}
