use vstd::prelude::*;

use crate::bot::{is_bot_id, is_hyphenated_id, BotDifficulty, BotPlayerView};
use crate::bot_manager::{bot_index, bots_in, with_bot, BotManager};
use crate::errors::{checked, AppError, AppErrorView};
use crate::events::RoomEvent;
use crate::players::{without_bot_prefix, InMemoryPlayerMappingService, PlayerMappingService};
use crate::room::{find_room, is_pet_name, join_outcome, leave_outcome, InMemoryRoomRepository, JoinRoomResult, RoomRepository, RoomView};
use crate::service::{
    add_bot_check, check_add_bot, check_remove_bot, remove_bot_check, str_opt, AddBotRequest,
    BotResponse,
};

verus! {

/// The difficulty of a bot when the request names none.
pub fn default_difficulty() -> (d: BotDifficulty)
    ensures
        d == BotDifficulty::Easy,
{
    BotDifficulty::Easy
}

/// The room with this id, if there is one.
pub open spec fn room_named(rooms: Seq<RoomView>, id: Seq<char>) -> Option<RoomView> {
    match find_room(rooms, id) {
        Some(i) => Some(rooms[i]),
        None => None,
    }
}

/// The bots without the one with this identifier.
pub open spec fn without_bot(s: Seq<BotPlayerView>, uuid: Seq<char>) -> Seq<BotPlayerView> {
    match bot_index(s, uuid) {
        Some(i) => s.remove(i),
        None => s,
    }
}

/// Adds a bot to the room at the request of `requester` (the player of the session, if
/// known). The request is checked first (see `add_bot_check`); then a bot is created with a
/// random identifier ("bot-" and a fresh hyphenated UUID) and a name of two pet-name words
/// joined by "-" and followed by " Bot". Only if that identifier
/// was already registered among the players' names is the bot forgotten and the request
/// failed as an internal error. Otherwise the bot joins the room, and the room is told that a
/// player joined and that a bot was added.
pub fn add_bot_to_room(
    rooms: &mut InMemoryRoomRepository,
    bots: &mut BotManager,
    players: &mut InMemoryPlayerMappingService,
    room_id: &str,
    requester: Option<&str>,
    request: &AddBotRequest,
) -> (r: Result<(BotResponse, Vec<RoomEvent>), AppError>)
    ensures
        ({
            let check = add_bot_check(
                room_id@,
                room_named(old(rooms)@, room_id@),
                str_opt(requester),
                bots_in(old(bots)@, room_id@).len() as int,
            );
            check matches Err(e) ==> checked(r) == Err::<(BotResponse, Vec<RoomEvent>), AppErrorView>(e)
                && final(rooms)@ == old(rooms)@ && final(bots)@ == old(bots)@ && final(players)@
                == old(players)@
        }),
        add_bot_check(
            room_id@,
            room_named(old(rooms)@, room_id@),
            str_opt(requester),
            bots_in(old(bots)@, room_id@).len() as int,
        ) is Ok ==> exists|b: BotPlayerView|
            {
                &&& b.room_id == room_id@
                &&& b.difficulty == request.difficulty
                &&& is_bot_id(b.uuid)
                &&& b.uuid.len() == 40
                &&& is_hyphenated_id(b.uuid.subrange(4, 40))
                &&& b.name.len() >= 4
                &&& b.name.subrange(b.name.len() - 4, b.name.len() as int) == " Bot"@
                &&& is_pet_name(b.name.subrange(0, b.name.len() - 4), 2, seq!['-'])
                &&& if old(players)@.contains_key(b.uuid) {
                    &&& r == Err::<(BotResponse, Vec<RoomEvent>), AppError>(AppError::Internal)
                    &&& final(players)@ == old(players)@
                    &&& final(rooms)@ == old(rooms)@
                    &&& final(bots)@ == without_bot(with_bot(old(bots)@, b), b.uuid)
                } else {
                    &&& final(players)@ == old(players)@.insert(b.uuid, b.name)
                    &&& final(bots)@ == with_bot(old(bots)@, b)
                    &&& final(rooms)@ == join_outcome(old(rooms)@, room_id@, b.uuid).0
                    &&& r matches Ok((resp, events))
                    &&& resp.uuid@ == b.uuid && resp.name@ == b.name && resp.difficulty
                        == b.difficulty
                    &&& events@.len() == 2
                    &&& events@[0] matches RoomEvent::PlayerJoined { player } && player@ == b.uuid
                    &&& events@[1] matches RoomEvent::BotAdded { bot_uuid, bot_name }
                        && bot_uuid@ == b.uuid && bot_name@ == b.name
                }
            },
{
    let room = match rooms.get_room(room_id) {
        Ok(o) => o,
        Err(e) => {
            return Err(e);
        },
    };
    proof {
        match find_room(old(rooms)@, room_id@) {
            Some(i) => {},
            None => {},
        }
    }
    let existing = bots.get_bots_in_room(room_id).len();
    let room_ref = room.as_ref();
    proof {
        assert(crate::service::room_opt(room_ref) == room_named(old(rooms)@, room_id@));
    }
    match check_add_bot(room_id, room_ref, requester, existing) {
        Ok(()) => {},
        Err(e) => {
            return Err(e);
        },
    }
    let bot = match bots.create_bot(room_id.to_string(), request.difficulty) {
        Ok(b) => b,
        Err(e) => {
            return Err(e);
        },
    };
    let ghost b = bot@;
    let ghost bots_with = bots@;
    proof {
        assert(without_bot_prefix(b.uuid) == b.uuid.subrange(4, 40));
        crate::players::lemma_hyphenated_id_parses(b.uuid.subrange(4, 40));
    }
    match players.register_player(bot.uuid.clone(), bot.name.clone()) {
        Ok(()) => {},
        Err(_) => {
            let _ = bots.remove_bot(bot.uuid.as_str());
            proof {
                assert(bots@ == without_bot(bots_with, b.uuid));
            }
            return Err(AppError::Internal);
        },
    }
    match rooms.try_join_room(room_id, bot.uuid.as_str()) {
        Ok(JoinRoomResult::Success(_)) => {},
        Ok(JoinRoomResult::RoomNotFound) => {
            let _ = bots.remove_bot(bot.uuid.as_str());
            return Err(AppError::DatabaseError(String::from_str("Room not found")));
        },
        Ok(JoinRoomResult::RoomFull) => {
            let _ = bots.remove_bot(bot.uuid.as_str());
            return Err(AppError::DatabaseError(String::from_str("Room is full")));
        },
        Err(e) => {
            let _ = bots.remove_bot(bot.uuid.as_str());
            return Err(e);
        },
    }
    let events = vec![
        RoomEvent::PlayerJoined { player: bot.uuid.clone() },
        RoomEvent::BotAdded { bot_uuid: bot.uuid.clone(), bot_name: bot.name.clone() },
    ];
    Ok((BotResponse { uuid: bot.uuid, name: bot.name, difficulty: bot.difficulty }, events))
}

/// Removes the bot `bot_uuid` from the room at the request of `requester` (the player of the
/// session, if known). The request is checked first (see `remove_bot_check`); then the bot
/// leaves the room (see `leave_outcome`) and is forgotten, and the room is told that a player
/// left and that a bot was removed.
pub fn remove_bot_from_room(
    rooms: &mut InMemoryRoomRepository,
    bots: &mut BotManager,
    room_id: &str,
    bot_uuid: &str,
    requester: Option<&str>,
) -> (r: Result<Vec<RoomEvent>, AppError>)
    ensures
        ({
            let check = remove_bot_check(
                room_id@,
                bot_uuid@,
                room_named(old(rooms)@, room_id@),
                str_opt(requester),
                match bot_index(old(bots)@, bot_uuid@) {
                    Some(i) => Some(old(bots)@[i].room_id),
                    None => None,
                },
            );
            &&& check matches Err(e) ==> checked(r) == Err::<Vec<RoomEvent>, AppErrorView>(e)
                && final(rooms)@ == old(rooms)@ && final(bots)@ == old(bots)@
            &&& check is Ok ==> {
                &&& final(rooms)@ == leave_outcome(old(rooms)@, room_id@, bot_uuid@).0
                &&& final(bots)@ == without_bot(old(bots)@, bot_uuid@)
                &&& r matches Ok(events)
                &&& events@.len() == 2
                &&& events@[0] matches RoomEvent::PlayerLeft { player } && player@ == bot_uuid@
                &&& events@[1] matches RoomEvent::BotRemoved { bot_uuid: u } && u@ == bot_uuid@
            }
        }),
{
    let room = match rooms.get_room(room_id) {
        Ok(o) => o,
        Err(e) => {
            return Err(e);
        },
    };
    let bot = bots.get_bot(bot_uuid);
    let room_ref = room.as_ref();
    let bot_ref = bot.as_ref();
    proof {
        assert(crate::service::room_opt(room_ref) == room_named(old(rooms)@, room_id@));
    }
    match check_remove_bot(room_id, bot_uuid, room_ref, requester, bot_ref) {
        Ok(()) => {},
        Err(e) => {
            return Err(e);
        },
    }
    match rooms.leave_room(room_id, bot_uuid) {
        Ok(_) => {},
        Err(e) => {
            return Err(e);
        },
    }
    match bots.remove_bot(bot_uuid) {
        Ok(()) => {},
        Err(e) => {
            return Err(e);
        },
    }
    Ok(
        vec![
            RoomEvent::PlayerLeft { player: bot_uuid.to_string() },
            RoomEvent::BotRemoved { bot_uuid: bot_uuid.to_string() },
        ],
    )
}

} // verus!
