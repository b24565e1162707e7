use bigtwo::players::{InMemoryPlayerMappingService, MappingError, PlayerMappingService};

const UUID_A: &str = "550e8400-e29b-41d4-a716-446655440000";
const UUID_B: &str = "550e8400-e29b-41d4-a716-446655440001";

#[test]
fn test_generate_uuid() {
    let uuid1 = InMemoryPlayerMappingService::generate_uuid();
    let uuid2 = InMemoryPlayerMappingService::generate_uuid();

    assert!(uuid::Uuid::parse_str(&uuid1).is_ok());
    assert!(uuid::Uuid::parse_str(&uuid2).is_ok());

    assert_ne!(uuid1, uuid2);
}

#[test]
fn test_register_player_success() {
    let mut service = InMemoryPlayerMappingService::new();
    assert!(service.register_player(UUID_A.to_string(), "test-player".to_string()).is_ok());
    assert_eq!(service.get_playername(UUID_A), Some("test-player".to_string()));
}

#[test]
fn test_register_player_duplicate_uuid() {
    let mut service = InMemoryPlayerMappingService::new();
    service.register_player(UUID_A.to_string(), "player1".to_string()).unwrap();
    let result = service.register_player(UUID_A.to_string(), "player2".to_string());
    assert_eq!(
        result,
        Err(MappingError::UuidAlreadyExists {
            uuid: UUID_A.to_string(),
            existing_playername: "player1".to_string()
        })
    );
    assert_eq!(service.get_playername(UUID_A), Some("player1".to_string()));
}

#[test]
fn test_register_player_duplicate_playername_allowed() {
    let mut service = InMemoryPlayerMappingService::new();
    assert!(service.register_player(UUID_A.to_string(), "same".to_string()).is_ok());
    assert!(service.register_player(UUID_B.to_string(), "same".to_string()).is_ok());
}

#[test]
fn test_register_player_invalid_uuid() {
    let mut service = InMemoryPlayerMappingService::new();
    let result = service.register_player("invalid-uuid".to_string(), "player".to_string());
    assert_eq!(result, Err(MappingError::InvalidUuid { uuid: "invalid-uuid".to_string() }));
    assert_eq!(service.get_playername("invalid-uuid"), None);
}

#[test]
fn test_register_bot_uuid() {
    let mut service = InMemoryPlayerMappingService::new();
    let bot_uuid = format!("bot-{}", uuid::Uuid::new_v4());
    assert!(service.register_player(bot_uuid.clone(), "bot-player".to_string()).is_ok());
    assert_eq!(service.get_playername(&bot_uuid), Some("bot-player".to_string()));
    let bad_bot = "bot-xyz".to_string();
    assert!(matches!(
        service.register_player(bad_bot, "b".to_string()),
        Err(MappingError::InvalidUuid { .. })
    ));
}

#[test]
fn test_remove_player() {
    let mut service = InMemoryPlayerMappingService::new();
    service.register_player(UUID_A.to_string(), "test-player".to_string()).unwrap();
    assert!(service.remove_player(UUID_A));
    assert_eq!(service.get_playername(UUID_A), None);
}

#[test]
fn test_remove_nonexistent_player() {
    let mut service = InMemoryPlayerMappingService::new();
    assert!(!service.remove_player(UUID_A));
}

#[test]
fn test_get_all_mappings() {
    let mut service = InMemoryPlayerMappingService::new();
    service.register_player(UUID_A.to_string(), "player1".to_string()).unwrap();
    service.register_player(UUID_B.to_string(), "player2".to_string()).unwrap();
    let mappings = service.get_all_mappings();
    assert_eq!(mappings.len(), 2);
    assert!(mappings.iter().any(|(uuid, name)| uuid == UUID_A && name == "player1"));
    assert!(mappings.iter().any(|(uuid, name)| uuid == UUID_B && name == "player2"));
}

#[test]
fn mapping_errors_read_as_sentences() {
    assert_eq!(
        MappingError::InvalidUuid { uuid: "x".to_string() }.message(),
        "Invalid UUID format: x"
    );
    assert_eq!(
        MappingError::UuidAlreadyExists { uuid: "u".to_string(), existing_playername: "p".to_string() }
            .message(),
        "Player with UUID u already exists with playername: p"
    );
}

#[test]
fn bot_prefix_is_stripped_before_parsing() {
    assert_eq!(bigtwo::players::strip_bot_prefix("bot-abc"), "abc");
    assert_eq!(bigtwo::players::strip_bot_prefix("abc"), "abc");
    assert!(InMemoryPlayerMappingService::validate_uuid(UUID_A).is_ok());
    assert!(InMemoryPlayerMappingService::validate_uuid(&format!("bot-{}", UUID_A)).is_ok());
    assert!(InMemoryPlayerMappingService::validate_uuid("bot-").is_err());
}

#[test]
fn uuid_text_forms_accepted_by_the_parser() {
    let simple = "67e5504410b1426f9247bb680e5fe0c8";
    let upper = "67E55044-10B1-426F-9247-BB680E5FE0C8";
    let braced = "{67e55044-10b1-426f-9247-bb680e5fe0c8}";
    let urn = "URN:uuid:67e55044-10b1-426f-9247-bb680e5fe0c8";
    assert!(InMemoryPlayerMappingService::validate_uuid(simple).is_ok());
    assert!(InMemoryPlayerMappingService::validate_uuid(upper).is_ok());
    assert!(InMemoryPlayerMappingService::validate_uuid(braced).is_ok());
    assert!(InMemoryPlayerMappingService::validate_uuid(urn).is_ok());
    assert!(InMemoryPlayerMappingService::validate_uuid("67e55044-10b1-426f-9247-bb680e5fe0cg").is_err());
    assert!(InMemoryPlayerMappingService::validate_uuid("67e55044_10b1-426f-9247-bb680e5fe0c8").is_err());
    assert!(InMemoryPlayerMappingService::validate_uuid("{67e55044-10b1-426f-9247-bb680e5fe0c8").is_err());
}
