use vstd::prelude::*;

use crate::errors::{AppError, AppErrorView};
use crate::room::{
    find_room, join_outcome, leave_outcome, room_views, InMemoryRoomRepository, JoinRoomResult, JoinView,
    LeaveRoomResult, RoomModel, RoomRepository, RoomView,
};
use crate::service::{RoomCreateRequest, RoomResponse};

verus! {

/// What joining gives as an answer: the room, or why the player could not join.
pub open spec fn join_answer(j: JoinView) -> Result<RoomView, AppErrorView> {
    match j {
        JoinView::Success(r) => Ok(r),
        JoinView::RoomNotFound => Err(AppErrorView::DatabaseError("Room not found"@)),
        JoinView::RoomFull => Err(AppErrorView::DatabaseError("Room is full"@)),
    }
}

/// The value of an optional room answer.
pub open spec fn room_answer(r: Result<RoomModel, AppError>) -> Result<RoomView, AppErrorView> {
    match r {
        Ok(m) => Ok(m@),
        Err(e) => Err(e@),
    }
}

/// Creates, finds, joins and leaves rooms.
pub struct RoomService {
    repository: InMemoryRoomRepository,
}

impl RoomService {
    /// A service over the rooms of `repository`.
    pub fn new(repository: InMemoryRoomRepository) -> (s: RoomService)
        ensures
            s.rooms() == repository@,
    {
        RoomService { repository }
    }

    /// The rooms.
    pub closed spec fn rooms(&self) -> Seq<RoomView> {
        self.repository@
    }

    /// The rooms, for reading and writing.
    pub fn repository(&mut self) -> (r: &mut InMemoryRoomRepository)
        ensures
            r@ == old(self).rooms(),
            final(self).rooms() == final(r)@,
    {
        &mut self.repository
    }

    /// Creates an online room hosted by the player named in the request (see `RoomModel::new`).
    pub fn create_room(&mut self, request: RoomCreateRequest) -> (r: Result<RoomModel, AppError>)
        ensures
            match r {
                Ok(room) => {
                    &&& room@.host_uuid == Some(request.host_name@)
                    &&& room@.status == "ONLINE"@
                    &&& room@.player_uuids.len() == 0
                    &&& find_room(old(self).rooms(), room@.id) is None
                    &&& final(self).rooms() == old(self).rooms().push(room@)
                },
                Err(AppError::DatabaseError(m)) => m@ == "Room already exists"@ && final(self).rooms()
                    == old(self).rooms(),
                Err(_) => false,
            },
    {
        let room = RoomModel::new(request.host_name);
        match self.repository.create_room(&room) {
            Ok(()) => Ok(room),
            Err(e) => Err(e),
        }
    }

    /// The room; a missing room is answered as a database error.
    pub fn get_room_details(&self, room_id: &str) -> (r: Result<RoomModel, AppError>)
        ensures
            match find_room(self.rooms(), room_id@) {
                Some(i) => r matches Ok(room) && room@ == self.rooms()[i],
                None => r matches Err(AppError::DatabaseError(m)) && m@ == "Room not found"@,
            },
    {
        match self.repository.get_room(room_id) {
            Ok(Some(room)) => Ok(room),
            Ok(None) => Err(AppError::DatabaseError(String::from_str("Room not found"))),
            Err(e) => Err(e),
        }
    }

    /// The room, if there is one.
    pub fn get_room(&self, room_id: &str) -> (r: Result<Option<RoomModel>, AppError>)
        ensures
            r matches Ok(o) && match find_room(self.rooms(), room_id@) {
                Some(i) => o matches Some(room) && room@ == self.rooms()[i],
                None => o is None,
            },
    {
        self.repository.get_room(room_id)
    }

    /// All the rooms.
    pub fn list_rooms(&self) -> (r: Result<Vec<RoomModel>, AppError>)
        ensures
            r matches Ok(v) && room_views(v@) == self.rooms(),
    {
        self.repository.list_rooms()
    }

    /// Joins the player to the room (see `join_outcome`): the room as it now is, or a database
    /// error when the room is missing or full.
    pub fn join_room(&mut self, room_id: &str, player_uuid: &str) -> (r: Result<RoomModel, AppError>)
        ensures
            final(self).rooms() == join_outcome(old(self).rooms(), room_id@, player_uuid@).0,
            room_answer(r) == join_answer(join_outcome(old(self).rooms(), room_id@, player_uuid@).1),
    {
        match self.repository.try_join_room(room_id, player_uuid) {
            Ok(JoinRoomResult::Success(room)) => Ok(room),
            Ok(JoinRoomResult::RoomNotFound) => Err(AppError::DatabaseError(String::from_str("Room not found"))),
            Ok(JoinRoomResult::RoomFull) => Err(AppError::DatabaseError(String::from_str("Room is full"))),
            Err(e) => Err(e),
        }
    }

    /// Takes the player out of the room (see `leave_outcome`).
    pub fn leave_room(&mut self, room_id: &str, player_uuid: &str) -> (r: Result<LeaveRoomResult, AppError>)
        ensures
            r matches Ok(l) && (final(self).rooms(), l@) == leave_outcome(
                old(self).rooms(),
                room_id@,
                player_uuid@,
            ),
    {
        self.repository.leave_room(room_id, player_uuid)
    }
}

/// How a room is described: its id, its host (empty when it has none), its status and how
/// many players it holds.
pub fn room_response(room: &RoomModel) -> (r: RoomResponse)
    ensures
        r.id@ == room@.id,
        r.host_name@ == match room@.host_uuid {
            Some(h) => h,
            None => Seq::<char>::empty(),
        },
        r.status@ == room@.status,
        r.player_count == room@.player_uuids.len() as i32,
{
    let host_name = match &room.host_uuid {
        Some(h) => h.clone(),
        None => String::new(),
    };
    RoomResponse {
        id: room.id.clone(),
        host_name,
        status: room.status.clone(),
        player_count: room.get_player_count(),
    }
}

} // verus!
