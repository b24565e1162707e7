use vstd::prelude::*;

use crate::bot::is_bot_id;
use crate::bot_manager::{bot_index, BotManager};
use crate::errors::{app_error_text, AppErrorView};
use crate::events::{RoomEvent, RoomEventError};
use crate::game::play_result;
use crate::game_service::{names_known, GameService};
use crate::players::InMemoryPlayerMappingService;
use crate::service::{
    bot_turn_step, create_game_check, events_after_move, game_error_message, last_move_cards, BotTurn,
};
use crate::strategy::{bot_candidates, picked_move, tied_sizes};
use crate::text::texts;

verus! {

/// How long after a win the game goes back to the lobby, in milliseconds.
pub const RESET_DELAY_MS: u64 = 5000;

/// What the game's handler does about an event: the events to tell the room at once, and
/// whether to reset the game after a delay (in milliseconds).
#[derive(Debug, Clone)]
pub struct GameReaction {
    pub emit: Vec<RoomEvent>,
    pub reset_after_ms: Option<u64>,
}

/// Handles an event of the room `room_id` for its game: a request to create a game starts one
/// (see `GameService::create_game`) and tells the room; a request to play a move plays it (see
/// `GameService::try_play_move`) and tells the room what follows (see `events_after_move`); a
/// win schedules a reset; a reset ends the game. A failure is a handler error that tells what
/// failed and why.
pub fn handle_game_event(
    games: &mut GameService,
    player_mapping: &InMemoryPlayerMappingService,
    room_id: &str,
    event: RoomEvent,
) -> (r: Result<GameReaction, RoomEventError>)
    ensures
        match event {
            RoomEvent::CreateGame { players } => {
                &&& create_game_check(room_id@, texts(players@)) matches Err(m) ==> (r matches Err(
                    RoomEventError::HandlerError(t),
                ) && t@ == "Failed to create game: "@ + app_error_text(AppErrorView::BadRequest(m)))
                    && final(games).games() == old(games).games()
                &&& create_game_check(room_id@, texts(players@)) is Ok && !names_known(
                    player_mapping@,
                    texts(players@),
                ) ==> r is Err && final(games).games() == old(games).games()
                &&& create_game_check(room_id@, texts(players@)) is Ok && names_known(
                    player_mapping@,
                    texts(players@),
                ) ==> match r {
                    Ok(re) => re.reset_after_ms is None && re.emit@.len() == 1 && (
                    re.emit@[0] matches RoomEvent::StartGame { game } && final(games).games()
                        == old(games).games().insert(room_id@, game@)),
                    Err(_) => false,
                }
            },
            RoomEvent::TryPlayMove { player, cards } => {
                &&& !old(games).games().contains_key(room_id@) ==> (r matches Err(
                    RoomEventError::HandlerError(t),
                ) && t@ == "Failed to play move: "@ + app_error_text(
                    AppErrorView::NotFound("Game not found for room: "@ + room_id@),
                )) && final(games).games() == old(games).games()
                &&& old(games).games().contains_key(room_id@) ==> match play_result(
                    old(games).games()[room_id@],
                    player@,
                    cards@,
                ) {
                    Err(e) => (r matches Err(RoomEventError::HandlerError(t)) && t@
                        == "Failed to play move: "@ + app_error_text(
                        AppErrorView::NotFound("Game error: "@ + game_error_message(e)),
                    )) && final(games).games() == old(games).games(),
                    Ok((g, won)) => final(games).games() == old(games).games().insert(room_id@, g)
                        && (r matches Ok(re) && re.reset_after_ms is None && (won ==> (
                    re.emit@.len() == 1 && (re.emit@[0] matches RoomEvent::GameWon {
                        winner,
                        winning_hand,
                    } && winner@ == player@ && winning_hand@ == last_move_cards(g)))) && (!won ==> (
                    re.emit@.len() == 2 && (re.emit@[0] matches RoomEvent::MovePlayed {
                        player: p,
                        cards: c,
                        game,
                    } && p@ == player@ && c@ == cards@ && game@ == g) && (
                    re.emit@[1] matches RoomEvent::TurnChanged { player: next } && next@
                        == g.players[g.current_turn as int].name)))),
                }
            },
            RoomEvent::GameWon { .. } => (r matches Ok(re) && re.emit@.len() == 0
                && re.reset_after_ms == Some(RESET_DELAY_MS)) && final(games).games() == old(games).games(),
            RoomEvent::GameReset => (r matches Ok(re) && re.emit@.len() == 0
                && re.reset_after_ms is None) && final(games).games() == old(games).games().remove(
                room_id@,
            ),
            _ => (r matches Ok(re) && re.emit@.len() == 0 && re.reset_after_ms is None) && final(games).games() == old(games).games(),
        },
{
    match event {
        RoomEvent::CreateGame { players } => {
            match games.create_game(player_mapping, room_id, players.as_slice()) {
                Ok(game) => Ok(
                    GameReaction { emit: vec![RoomEvent::StartGame { game }], reset_after_ms: None },
                ),
                Err(e) => {
                    let mut t = String::from_str("Failed to create game: ");
                    let why = e.message();
                    t.append(why.as_str());
                    Err(RoomEventError::HandlerError(t))
                },
            }
        },
        RoomEvent::TryPlayMove { player, cards } => {
            match games.try_play_move(room_id, player.as_str(), cards.as_slice()) {
                Ok(result) => {
                    let emit = events_after_move(player.as_str(), cards.as_slice(), result);
                    Ok(GameReaction { emit, reset_after_ms: None })
                },
                Err(e) => {
                    let mut t = String::from_str("Failed to play move: ");
                    let why = e.message();
                    t.append(why.as_str());
                    Err(RoomEventError::HandlerError(t))
                },
            }
        },
        RoomEvent::GameWon { .. } => Ok(
            GameReaction { emit: Vec::new(), reset_after_ms: Some(RESET_DELAY_MS) },
        ),
        RoomEvent::GameReset => {
            let _ = games.reset_game_to_lobby(room_id);
            Ok(GameReaction { emit: Vec::new(), reset_after_ms: None })
        },
        _ => Ok(GameReaction { emit: Vec::new(), reset_after_ms: None }),
    }
}

/// Decides what the bot `player_uuid` does now that the turn passed to it in the room (see
/// `bot_turn_step`), finding the bot among the registered bots and the room's game.
pub fn decide_bot_turn(
    games: &GameService,
    bots: &BotManager,
    room_id: &str,
    player_uuid: &str,
) -> (r: Result<BotTurn, RoomEventError>)
    ensures
        !is_bot_id(player_uuid@) ==> r == Ok::<BotTurn, RoomEventError>(BotTurn::NotABot),
        is_bot_id(player_uuid@) && bot_index(bots@, player_uuid@) is None ==> (match r {
            Err(RoomEventError::HandlerError(m)) => m@ == "Bot not found: "@ + player_uuid@,
            _ => false,
        }),
        is_bot_id(player_uuid@) && bot_index(bots@, player_uuid@) is Some && !games.games().contains_key(
            room_id@,
        ) ==> r == Ok::<BotTurn, RoomEventError>(BotTurn::Skip),
        is_bot_id(player_uuid@) && bot_index(bots@, player_uuid@) is Some && games.games().contains_key(
            room_id@,
        ) ==> ({
            let gv = games.games()[room_id@];
            let cands = bot_candidates(gv, player_uuid@);
            if gv.players[gv.current_turn as int].name != player_uuid@ {
                r == Ok::<BotTurn, RoomEventError>(BotTurn::Skip)
            } else {
                match r {
                    Ok(BotTurn::Play(cards)) => if cands.len() == 0 {
                        cards@.len() == 0
                    } else {
                        exists|pick: int|
                            0 <= pick < tied_sizes(cands).len() && picked_move(cands, pick) == Some(
                                cards@,
                            )
                    },
                    _ => false,
                }
            }
        }),
{
    let bot = bots.get_bot(player_uuid);
    let game = games.get_game(room_id);
    bot_turn_step(player_uuid, bot.as_ref(), game.as_ref())
}

/// How long a bot waits before it moves, in milliseconds: a hundred, plus a random part
/// below four hundred.
pub fn bot_move_delay_ms() -> (d: u64)
    ensures
        100 <= d < 500,
{
    let extra = crate::strategy::random_index(400);
    100 + extra as u64
}

} // verus!
