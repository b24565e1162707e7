use bigtwo::errors::AppError;
use bigtwo::room::{InMemoryRoomRepository, JoinRoomResult, LeaveRoomResult, RoomModel, RoomRepository};

fn room(id: &str, host: &str, players: &[&str]) -> RoomModel {
    let mut r = RoomModel::new(host.to_string());
    r.id = id.to_string();
    for p in players {
        r.add_player(p.to_string());
    }
    r
}

#[test]
fn new_room_is_online_and_empty() {
    let r = RoomModel::new("host-1".to_string());
    assert_eq!(r.host_uuid, Some("host-1".to_string()));
    assert_eq!(r.status, "ONLINE");
    assert!(r.player_uuids.is_empty());
    assert!(r.ready_players.is_empty());
    assert_eq!(r.get_player_count(), 0);
    assert!(!r.is_full());
    assert!(!r.id.is_empty());
}

#[test]
fn room_players_and_readiness() {
    let mut r = room("r", "a", &["a", "b"]);
    r.add_player("a".to_string());
    assert_eq!(r.get_player_uuids(), &vec!["a".to_string(), "b".to_string()]);
    assert!(r.has_player("b"));
    assert!(!r.has_player("c"));
    r.mark_ready("c");
    assert!(r.get_ready_players().is_empty());
    r.mark_ready("a");
    r.mark_ready("a");
    assert_eq!(r.get_ready_players(), &vec!["a".to_string()]);
    r.toggle_ready("b");
    assert!(r.is_ready("b"));
    r.toggle_ready("a");
    assert!(!r.is_ready("a"));
    r.set_ready("a", true);
    r.set_ready("b", false);
    assert_eq!(r.get_ready_players(), &vec!["a".to_string()]);
    r.remove_player("a");
    assert_eq!(r.get_player_uuids(), &vec!["b".to_string()]);
    assert!(r.get_ready_players().is_empty());
    r.mark_ready("b");
    r.clear_ready_states();
    assert!(r.get_ready_players().is_empty());
    r.add_player("c".to_string());
    r.add_player("d".to_string());
    r.add_player("e".to_string());
    assert!(r.is_full());
    assert_eq!(r.get_player_count(), 4);
}

#[test]
fn join_is_idempotent_and_capped_at_four() {
    let mut repo = InMemoryRoomRepository::new();
    repo.create_room(&room("r1", "a", &[])).unwrap();
    assert!(matches!(repo.try_join_room("nope", "a"), Ok(JoinRoomResult::RoomNotFound)));
    for p in ["a", "b", "c", "d"] {
        match repo.try_join_room("r1", p).unwrap() {
            JoinRoomResult::Success(r) => assert!(r.has_player(p)),
            _ => panic!("expected to join"),
        }
    }
    assert!(matches!(repo.try_join_room("r1", "e"), Ok(JoinRoomResult::RoomFull)));
    // Already in: success even though the room is full.
    match repo.try_join_room("r1", "b").unwrap() {
        JoinRoomResult::Success(r) => assert_eq!(r.get_player_count(), 4),
        _ => panic!("expected success"),
    }
    let stored = repo.get_room("r1").unwrap().unwrap();
    assert_eq!(stored.player_uuids, vec!["a", "b", "c", "d"]);
}

#[test]
fn create_refuses_a_second_room_with_the_same_id() {
    let mut repo = InMemoryRoomRepository::new();
    assert!(repo.create_room(&room("r1", "a", &[])).is_ok());
    assert_eq!(
        repo.create_room(&room("r1", "b", &[])),
        Err(AppError::DatabaseError("Room already exists".to_string()))
    );
    assert!(repo.create_room(&room("r2", "b", &[])).is_ok());
    let ids: Vec<String> = repo.list_rooms().unwrap().into_iter().map(|r| r.id).collect();
    assert_eq!(ids, vec!["r1", "r2"]);
    assert!(repo.get_room("r3").unwrap().is_none());
}

#[test]
fn leaving_hands_the_room_to_the_first_human() {
    let mut repo = InMemoryRoomRepository::new();
    repo.create_room(&room("r", "h", &["h", "bot-1", "p", "q"])).unwrap();
    repo.set_ready("r", "h", true).unwrap();
    assert!(matches!(repo.leave_room("x", "h"), Ok(LeaveRoomResult::RoomNotFound)));
    assert!(matches!(repo.leave_room("r", "z"), Ok(LeaveRoomResult::PlayerNotInRoom)));
    match repo.leave_room("r", "h").unwrap() {
        LeaveRoomResult::Success(r) => {
            assert_eq!(r.player_uuids, vec!["bot-1", "p", "q"]);
            assert_eq!(r.host_uuid, Some("p".to_string()));
            assert!(r.ready_players.is_empty());
        }
        _ => panic!("expected success"),
    }
    // A player who is not the host leaves the host alone.
    match repo.leave_room("r", "q").unwrap() {
        LeaveRoomResult::Success(r) => assert_eq!(r.host_uuid, Some("p".to_string())),
        _ => panic!("expected success"),
    }
    // Only a bot would remain: the room is deleted.
    assert!(matches!(repo.leave_room("r", "p"), Ok(LeaveRoomResult::RoomDeleted)));
    assert!(repo.get_room("r").unwrap().is_none());
}

#[test]
fn last_player_leaving_deletes_the_room() {
    let mut repo = InMemoryRoomRepository::new();
    repo.create_room(&room("r", "h", &["h"])).unwrap();
    assert!(matches!(repo.leave_room("r", "h"), Ok(LeaveRoomResult::RoomDeleted)));
    assert!(repo.list_rooms().unwrap().is_empty());
}

#[test]
fn readiness_changes_need_the_room() {
    let mut repo = InMemoryRoomRepository::new();
    assert_eq!(repo.toggle_ready("r", "a"), Err(AppError::NotFound("Room not found".to_string())));
    assert_eq!(repo.set_ready("r", "a", true), Err(AppError::NotFound("Room not found".to_string())));
    assert_eq!(repo.clear_ready_states("r"), Err(AppError::NotFound("Room not found".to_string())));
    repo.create_room(&room("r", "a", &["a", "b"])).unwrap();
    repo.toggle_ready("r", "a").unwrap();
    repo.set_ready("r", "b", true).unwrap();
    assert_eq!(repo.get_room("r").unwrap().unwrap().ready_players, vec!["a", "b"]);
    repo.clear_ready_states("r").unwrap();
    assert!(repo.get_room("r").unwrap().unwrap().ready_players.is_empty());
}

#[test]
fn errors_answer_with_status_and_message() {
    assert_eq!(AppError::JwtError("bad".to_string()).status_and_message(), (400, "bad".to_string()));
    assert_eq!(AppError::Unauthorized("who".to_string()).status_and_message(), (401, "who".to_string()));
    assert_eq!(
        AppError::DatabaseError("down".to_string()).status_and_message(),
        (500, "Database error: down".to_string())
    );
    assert_eq!(AppError::NotFound("gone".to_string()).status_and_message(), (404, "gone".to_string()));
    assert_eq!(AppError::BadRequest("no".to_string()).status_and_message(), (400, "no".to_string()));
    assert_eq!(AppError::Forbidden("host only".to_string()).status_and_message(), (403, "host only".to_string()));
    assert_eq!(AppError::Internal.status_and_message(), (500, "Internal server error".to_string()));
}

#[test]
fn toggling_twice_restores_readiness_and_mark_is_idempotent() {
    let mut r = room("r", "a", &["a", "b"]);
    r.mark_ready("a");
    let before_a = r.is_ready("a");
    let before_b = r.is_ready("b");
    r.toggle_ready("b");
    r.toggle_ready("b");
    assert_eq!(r.is_ready("b"), before_b);
    assert_eq!(r.is_ready("a"), before_a);
    r.toggle_ready("a");
    r.toggle_ready("a");
    assert_eq!(r.is_ready("a"), before_a);
    r.toggle_ready("z");
    assert!(!r.is_ready("z"));
    let snapshot = r.get_ready_players().clone();
    r.mark_ready("a");
    assert_eq!(r.get_ready_players(), &snapshot);
    assert_eq!(r.get_player_uuids(), &vec!["a".to_string(), "b".to_string()]);
}

#[test]
fn new_room_ids_are_lowercase_words() {
    let r = RoomModel::new("h".to_string());
    assert!(!r.id.is_empty());
    assert!(r.id.chars().all(|c| c.is_ascii_lowercase()));
}
