use bigtwo::bot::BotDifficulty;
use bigtwo::bot_manager::BotManager;
use bigtwo::errors::AppError;

#[test]
fn test_create_bot() {
    let mut manager = BotManager::new();
    let bot = manager.create_bot("room1".to_string(), BotDifficulty::Easy).unwrap();
    assert!(bot.uuid.starts_with("bot-"));
    assert!(bot.name.ends_with(" Bot"));
    assert!(bot.name.contains('-'));
    assert_eq!(bot.room_id, "room1");
    assert_eq!(bot.difficulty, BotDifficulty::Easy);
    assert_eq!(manager.bot_count(), 1);
}

#[test]
fn test_get_bot() {
    let mut manager = BotManager::new();
    let bot = manager.create_bot("room1".to_string(), BotDifficulty::Easy).unwrap();
    let retrieved = manager.get_bot(&bot.uuid);
    assert_eq!(retrieved.unwrap().uuid, bot.uuid);
    assert!(manager.get_bot("bot-missing").is_none());
}

#[test]
fn test_remove_bot() {
    let mut manager = BotManager::new();
    let bot = manager.create_bot("room1".to_string(), BotDifficulty::Easy).unwrap();
    assert!(manager.remove_bot(&bot.uuid).is_ok());
    assert!(manager.get_bot(&bot.uuid).is_none());
    assert_eq!(
        manager.remove_bot(&bot.uuid),
        Err(AppError::NotFound(format!("Bot not found: {}", bot.uuid)))
    );
}

#[test]
fn test_get_bots_in_room() {
    let mut manager = BotManager::new();
    let bot1 = manager.create_bot("room1".to_string(), BotDifficulty::Easy).unwrap();
    let bot2 = manager.create_bot("room1".to_string(), BotDifficulty::Medium).unwrap();
    let _bot3 = manager.create_bot("room2".to_string(), BotDifficulty::Hard).unwrap();
    let room1_bots = manager.get_bots_in_room("room1");
    assert_eq!(room1_bots.len(), 2);
    assert_eq!(room1_bots[0].uuid, bot1.uuid);
    assert_eq!(room1_bots[1].uuid, bot2.uuid);
    assert_eq!(manager.get_bot_uuids_in_room("room1"), vec![bot1.uuid.clone(), bot2.uuid.clone()]);
}

#[test]
fn test_remove_all_bots_in_room() {
    let mut manager = BotManager::new();
    manager.create_bot("room1".to_string(), BotDifficulty::Easy).unwrap();
    manager.create_bot("room1".to_string(), BotDifficulty::Medium).unwrap();
    manager.create_bot("room2".to_string(), BotDifficulty::Hard).unwrap();
    assert!(manager.remove_all_bots_in_room("room1").is_ok());
    assert_eq!(manager.get_bots_in_room("room1").len(), 0);
    assert_eq!(manager.get_bots_in_room("room2").len(), 1);
    assert_eq!(manager.bot_count(), 1);
}

#[test]
fn test_is_bot() {
    let manager = BotManager::new();
    assert!(manager.is_bot("bot-123"));
    assert!(!manager.is_bot("user-123"));
}

#[test]
fn test_create_bot_respects_room_limit() {
    let mut manager = BotManager::new();
    for _ in 0..3 {
        manager.create_bot("room1".to_string(), BotDifficulty::Easy).unwrap();
    }
    let result = manager.create_bot("room1".to_string(), BotDifficulty::Easy);
    assert_eq!(
        result.err(),
        Some(AppError::BadRequest("Room room1 already has the maximum of 3 bots".to_string()))
    );
    assert_eq!(manager.get_bots_in_room("room1").len(), 3);
    assert!(manager.create_bot("room2".to_string(), BotDifficulty::Easy).is_ok());
}

#[test]
fn bot_names_are_two_words_and_bot() {
    let mut m = BotManager::new();
    let bot = m.create_bot("room-x".to_string(), BotDifficulty::Easy).unwrap();
    let stem = bot.name.strip_suffix(" Bot").unwrap();
    let parts: Vec<&str> = stem.split('-').collect();
    assert_eq!(parts.len(), 2);
    assert!(parts.iter().all(|p| !p.is_empty() && p.chars().all(|c| c.is_ascii_lowercase())));
}
