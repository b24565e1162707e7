use bigtwo::events::{tracks_activity, RoomEvent};
use bigtwo::room::CleanupConfig;
use bigtwo::session::{
    PetNameUsernameGenerator, SessionCreationConfig, SessionModel, TokenConfig, UsernameGenerator,
};

const NOW: i64 = 1_700_000_000_000;

#[test]
fn test_new_session_model() {
    let username = "test-user".to_string();
    let session = SessionModel::new(username.clone(), 7, NOW);

    assert_eq!(session.username, username);
    assert!(!session.id.is_empty());
    assert!(session.expires_at > session.created_at);
    assert!(!session.is_expired(NOW));
}

#[test]
fn test_session_expiration() {
    let mut session = SessionModel::new("test".to_string(), -1, NOW);
    assert!(session.is_expired(NOW));

    session.extend_expiration(7, NOW);
    assert!(!session.is_expired(NOW));
}

#[test]
fn session_times_follow_the_clock() {
    let mut session = SessionModel::new("u".to_string(), 2, NOW);
    assert_eq!(session.expires_at, NOW + 2 * 86_400_000);
    assert_eq!(session.get_last_accessed(), NOW);
    session.touch(NOW + 5);
    assert_eq!(session.get_last_accessed(), NOW + 5);
    session.last_accessed = None;
    assert_eq!(session.get_last_accessed(), NOW);
    assert!(!session.is_expired(NOW + 2 * 86_400_000));
    assert!(session.is_expired(NOW + 2 * 86_400_000 + 1));
}

#[test]
fn token_claims_expire_after_the_configured_days() {
    let config = TokenConfig::new("secret".to_string(), 365);
    assert_eq!(config.secret(), "secret");
    assert_eq!(config.expiration_days, 365);
    let claims = config.claims_for("sid".to_string(), "name".to_string(), 1_000);
    assert_eq!(claims.session_id, "sid");
    assert_eq!(claims.username, "name");
    assert_eq!(claims.iat, 1_000);
    assert_eq!(claims.exp, 1_000 + 365 * 86_400);
    assert!(claims.exp > claims.iat);
}

#[test]
fn defaults_of_sessions_and_cleanup() {
    assert_eq!(SessionCreationConfig::default().expiration_days, 7);
    let c = CleanupConfig::default();
    assert_eq!(c.cleanup_interval_secs, 1800);
    assert_eq!(c.inactivity_threshold_secs, 86_400);
}

#[test]
fn pet_names_have_two_words() {
    let name = PetNameUsernameGenerator::new().generate();
    assert_eq!(name.split('-').count(), 2);
}

#[test]
fn activity_is_what_players_do() {
    assert!(tracks_activity(&RoomEvent::PlayerJoined { player: "a".to_string() }));
    assert!(tracks_activity(&RoomEvent::ChatMessage { sender: "a".to_string(), content: "hi".to_string() }));
    assert!(tracks_activity(&RoomEvent::BotRemoved { bot_uuid: "bot-1".to_string() }));
    assert!(!tracks_activity(&RoomEvent::TurnChanged { player: "a".to_string() }));
    assert!(!tracks_activity(&RoomEvent::GameReset));
}

use bigtwo::errors::AppError;
use bigtwo::players::{InMemoryPlayerMappingService, PlayerMappingService};
use bigtwo::session::{InMemorySessionRepository, SessionService};

const PLAYER: &str = "550e8400-e29b-41d4-a716-446655440000";

fn service() -> SessionService {
    SessionService::new(InMemorySessionRepository::new(), TokenConfig::new("s".to_string(), 365))
}

#[test]
fn session_repository_keeps_one_session_per_id() {
    let mut repo = InMemorySessionRepository::new();
    let s = SessionModel::new("a".to_string(), 7, NOW);
    repo.create_session(&s).unwrap();
    assert_eq!(
        repo.create_session(&s),
        Err(AppError::DatabaseError("Session already exists".to_string()))
    );
    assert_eq!(repo.session_count(), 1);
    assert!(repo.has_session(&s.id));
    let mut changed = s.clone();
    changed.username = "b".to_string();
    repo.update_session(&changed).unwrap();
    assert_eq!(repo.get_session(&s.id).unwrap().unwrap().username, "b");
    repo.delete_session(&s.id).unwrap();
    assert_eq!(repo.delete_session(&s.id), Err(AppError::NotFound("Session not found".to_string())));
    assert_eq!(
        repo.update_session(&changed),
        Err(AppError::NotFound("Session not found".to_string()))
    );
    assert!(repo.get_session(&s.id).unwrap().is_none());
}

#[test]
fn cleanup_forgets_expired_sessions_only() {
    let old = SessionModel::new("old".to_string(), -1, NOW);
    let fresh = SessionModel::new("fresh".to_string(), 1, NOW);
    let mut repo = InMemorySessionRepository::with_sessions(vec![old.clone(), fresh.clone()]);
    assert_eq!(repo.session_count(), 2);
    assert_eq!(repo.cleanup_expired_sessions(NOW).unwrap(), 1);
    assert!(!repo.has_session(&old.id));
    assert!(repo.has_session(&fresh.id));
    assert_eq!(repo.cleanup_expired_sessions(NOW).unwrap(), 0);
}

#[test]
fn sessions_are_created_checked_and_revoked() {
    let mut sessions = service();
    let mut players = InMemoryPlayerMappingService::new();
    let (session, claims) = sessions
        .create_session(&mut players, "happy-cat".to_string(), PLAYER.to_string(), NOW)
        .unwrap();
    assert_eq!(claims.session_id, session.id);
    assert_eq!(claims.username, "happy-cat");
    assert_eq!(claims.iat, (NOW / 1000) as usize);
    assert_eq!(claims.exp, (NOW / 1000 + 365 * 86_400) as usize);
    assert_eq!(session.expires_at, NOW + 7 * 86_400_000);
    assert_eq!(sessions.get_player_uuid_by_session(&session.id).unwrap(), Some(PLAYER.to_string()));
    assert_eq!(sessions.get_playername_by_uuid(&players, PLAYER), Some("happy-cat".to_string()));
    assert!(sessions.validate_claims(&claims, NOW).is_ok());
    assert_eq!(
        sessions.validate_claims(&claims, NOW + 8 * 86_400_000),
        Err(AppError::Unauthorized("Session has expired".to_string()))
    );
    sessions.extend_session(&session.id, NOW + 8 * 86_400_000).unwrap();
    assert!(sessions.validate_claims(&claims, NOW + 8 * 86_400_000).is_ok());

    sessions.revoke_session(&mut players, &session.id).unwrap();
    assert_eq!(
        sessions.validate_claims(&claims, NOW),
        Err(AppError::Unauthorized("Session not found or has been revoked".to_string()))
    );
    assert_eq!(players.get_playername(PLAYER), None);
    assert_eq!(sessions.get_player_uuid_by_session(&session.id).unwrap(), None);
    assert_eq!(
        sessions.revoke_session(&mut players, &session.id),
        Err(AppError::NotFound("Session not found".to_string()))
    );
    assert_eq!(
        sessions.extend_session(&session.id, NOW),
        Err(AppError::NotFound("Session not found".to_string()))
    );
}

#[test]
fn session_for_an_invalid_player_fails_inside() {
    let mut sessions = service();
    let mut players = InMemoryPlayerMappingService::new();
    assert_eq!(
        sessions.create_session(&mut players, "x".to_string(), "not-a-uuid".to_string(), NOW).err(),
        Some(AppError::Internal)
    );
    assert_eq!(sessions.cleanup_expired_sessions(NOW + 30 * 86_400_000).unwrap(), 1);
}

#[test]
fn bearer_headers_carry_the_token() {
    assert_eq!(bigtwo::session::bearer_token(Some("Bearer abc.def")), Ok("abc.def".to_string()));
    assert_eq!(
        bigtwo::session::bearer_token(None),
        Err(AppError::Unauthorized("Missing authorization header".to_string()))
    );
    assert_eq!(
        bigtwo::session::bearer_token(Some("Basic x")),
        Err(AppError::Unauthorized("Invalid authorization header format".to_string()))
    );
}

#[test]
fn pet_names_are_two_lowercase_words() {
    let name = PetNameUsernameGenerator::new().generate();
    let parts: Vec<&str> = name.split('-').collect();
    assert_eq!(parts.len(), 2);
    assert!(parts.iter().all(|p| !p.is_empty() && p.chars().all(|c| c.is_ascii_lowercase())));
}
