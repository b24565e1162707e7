use bigtwo::errors::AppError;
use bigtwo::room::{InMemoryRoomRepository, LeaveRoomResult};
use bigtwo::room_service::{room_response, RoomService};
use bigtwo::service::RoomCreateRequest;

#[test]
fn room_service_creates_and_describes_rooms() {
    let mut service = RoomService::new(InMemoryRoomRepository::new());
    let room = service.create_room(RoomCreateRequest { host_name: "test-player".to_string() }).unwrap();
    let response = room_response(&room);
    assert!(!response.id.is_empty());
    assert_eq!(response.host_name, "test-player");
    assert_eq!(response.status, "ONLINE");
    assert_eq!(response.player_count, 0);
    assert_eq!(service.list_rooms().unwrap().len(), 1);
    assert_eq!(service.get_room_details(&room.id).unwrap().id, room.id);
    assert_eq!(
        service.get_room_details("missing").err(),
        Some(AppError::DatabaseError("Room not found".to_string()))
    );
}

#[test]
fn room_service_joins_until_full_and_leaves() {
    let mut service = RoomService::new(InMemoryRoomRepository::new());
    let room = service.create_room(RoomCreateRequest { host_name: "a".to_string() }).unwrap();
    for p in ["a", "b", "c", "d"] {
        service.join_room(&room.id, p).unwrap();
    }
    assert_eq!(
        service.join_room(&room.id, "e").err(),
        Some(AppError::DatabaseError("Room is full".to_string()))
    );
    assert_eq!(
        service.join_room("missing", "e").err(),
        Some(AppError::DatabaseError("Room not found".to_string()))
    );
    assert_eq!(service.get_room(&room.id).unwrap().unwrap().get_player_count(), 4);
    assert!(matches!(service.leave_room(&room.id, "a").unwrap(), LeaveRoomResult::Success(_)));
    let r = service.get_room(&room.id).unwrap().unwrap();
    assert_eq!(r.host_uuid, Some("b".to_string()));
}
