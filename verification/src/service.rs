use vstd::prelude::*;

use crate::bot::{is_bot_id, BotDifficulty, BotPlayer, BotStrategy, BotStrategyFactory};
use crate::cards::{card_text, Card};
use crate::errors::{checked, AppError, AppErrorView};
use crate::events::{RoomEvent, RoomEventError};
use crate::game::{play_result, Game, GameError, GameView};
use crate::hands::hand_cards;
use crate::room::{RoomModel, RoomView};
use crate::strategy::{bot_candidates, picked_move, tied_sizes};

verus! {

// ----------------------------------------------------------------------------
// Playing a move in a room
// ----------------------------------------------------------------------------
/// The message of a refused move.
pub open spec fn game_error_message(e: GameError) -> Seq<char> {
    match e {
        GameError::InvalidPlayerTurn => "Invalid player"@,
        GameError::InvalidPlayedCards => "Invalid played cards"@,
        GameError::CannotPass => "Cannot pass - must play cards (3 consecutive passes)"@,
        GameError::CardNotOwned(c) => "Player does not own card: "@ + card_text(c),
        GameError::HandError(_) => "Hand construction error"@,
    }
}

impl GameError {
    /// The message of this error.
    pub fn message(&self) -> (m: String)
        ensures
            m@ == game_error_message(*self),
    {
        match self {
            GameError::InvalidPlayerTurn => String::from_str("Invalid player"),
            GameError::InvalidPlayedCards => String::from_str("Invalid played cards"),
            GameError::CannotPass => String::from_str(
                "Cannot pass - must play cards (3 consecutive passes)",
            ),
            GameError::CardNotOwned(c) => {
                let mut m = String::from_str("Player does not own card: ");
                let t = c.to_string();
                m.append(t.as_str());
                m
            },
            GameError::HandError(_) => String::from_str("Hand construction error"),
        }
    }
}

/// A move played in a room: the game after it, whether the player won, and with what cards.
#[derive(Debug, Clone)]
pub struct MoveResult {
    pub game: Game,
    pub player_won: bool,
    pub winning_hand: Option<Vec<Card>>,
}

/// The cards of the last move of a game.
pub open spec fn last_move_cards(g: GameView) -> Seq<Card> {
    hand_cards(g.played_hands.last())
}

/// Plays a move in a room's game: a refused move is answered as not found, with the game's
/// reason; a winning move comes back with the winning cards.
pub fn play_move(game: Game, player_uuid: &str, cards: &[Card]) -> (r: Result<MoveResult, AppError>)
    requires
        game@.current_turn < game@.players.len(),
    ensures
        match play_result(game@, player_uuid@, cards@) {
            Err(e) => match r {
                Err(err) => err@ == AppErrorView::NotFound("Game error: "@ + game_error_message(e)),
                Ok(_) => false,
            },
            Ok((g, won)) => match r {
                Ok(mr) => {
                    &&& mr.game@ == g
                    &&& mr.player_won == won
                    &&& won ==> (match mr.winning_hand {
                        Some(w) => w@ == last_move_cards(g),
                        None => false,
                    })
                    &&& !won ==> mr.winning_hand is None
                },
                Err(_) => false,
            },
        },
{
    let mut game = game;
    match game.play_cards(player_uuid, cards) {
        Err(e) => {
            let mut m = String::from_str("Game error: ");
            let reason = e.message();
            m.append(reason.as_str());
            Err(AppError::NotFound(m))
        },
        Ok(won) => {
            let winning_hand = if won {
                Some(game.last_played_cards())
            } else {
                None
            };
            Ok(MoveResult { game, player_won: won, winning_hand })
        },
    }
}

/// The events that tell a room about a move: the win, or the move played and whose turn it
/// is now.
pub fn events_after_move(player_uuid: &str, cards: &[Card], result: MoveResult) -> (events: Vec<
    RoomEvent,
>)
    requires
        result.player_won ==> result.winning_hand is Some,
        !result.player_won ==> result.game@.current_turn < result.game@.players.len(),
    ensures
        result.player_won ==> events@.len() == 1 && (match events@[0] {
            RoomEvent::GameWon { winner, winning_hand } => winner@ == player_uuid@ && (match result.winning_hand {
                Some(w) => winning_hand@ == w@,
                None => false,
            }),
            _ => false,
        }),
        !result.player_won ==> events@.len() == 2 && (match events@[0] {
            RoomEvent::MovePlayed { player, cards: played, game } => player@ == player_uuid@
                && played@ == cards@ && game@ == result.game@,
            _ => false,
        }) && (match events@[1] {
            RoomEvent::TurnChanged { player } => player@
                == result.game@.players[result.game@.current_turn as int].name,
            _ => false,
        }),
{
    if result.player_won {
        let winning_hand = match result.winning_hand {
            Some(w) => w,
            None => Vec::new(),
        };
        vec![RoomEvent::GameWon { winner: player_uuid.to_string(), winning_hand }]
    } else {
        let next = result.game.current_player_turn();
        let played = crate::hands::copy_cards(cards);
        vec![
            RoomEvent::MovePlayed { player: player_uuid.to_string(), cards: played, game: result.game },
            RoomEvent::TurnChanged { player: next },
        ]
    }
}

// ----------------------------------------------------------------------------
// Starting a game
// ----------------------------------------------------------------------------
/// A whitespace character (the Unicode White_Space property, as `char::is_whitespace`).
pub open spec fn is_white_space(c: char) -> bool {
    ('\u{9}' <= c && c <= '\u{d}') || c == ' ' || c == '\u{85}' || c == '\u{a0}' || c
        == '\u{1680}' || ('\u{2000}' <= c && c <= '\u{200a}') || c == '\u{2028}' || c
        == '\u{2029}' || c == '\u{202f}' || c == '\u{205f}' || c == '\u{3000}'
}

/// The text without its leading whitespace.
pub open spec fn trim_start(s: Seq<char>) -> Seq<char>
    decreases s.len(),
{
    if s.len() > 0 && is_white_space(s[0]) {
        trim_start(s.drop_first())
    } else {
        s
    }
}

/// The text without its trailing whitespace.
pub open spec fn trim_end(s: Seq<char>) -> Seq<char>
    decreases s.len(),
{
    if s.len() > 0 && is_white_space(s.last()) {
        trim_end(s.drop_last())
    } else {
        s
    }
}

/// The text without leading or trailing whitespace.
pub open spec fn trimmed(s: Seq<char>) -> Seq<char> {
    trim_end(trim_start(s))
}

/// Whether the character is whitespace.
fn white_space(c: char) -> (b: bool)
    ensures
        b == is_white_space(c),
{
    ('\u{9}' <= c && c <= '\u{d}') || c == ' ' || c == '\u{85}' || c == '\u{a0}' || c
        == '\u{1680}' || ('\u{2000}' <= c && c <= '\u{200a}') || c == '\u{2028}' || c
        == '\u{2029}' || c == '\u{202f}' || c == '\u{205f}' || c == '\u{3000}'
}

/// The text without leading or trailing whitespace.
pub fn trim_text(s: &str) -> (t: String)
    ensures
        t@ == trimmed(s@),
{
    let n = s.unicode_len();
    let mut i: usize = 0;
    proof {
        assert(s@.subrange(0, n as int) == s@);
    }
    while i < n && white_space(s.get_char(i))
        invariant
            n == s@.len(),
            i <= n,
            trim_start(s@) == trim_start(s@.subrange(i as int, n as int)),
        decreases n - i,
    {
        proof {
            assert(s@.subrange(i as int, n as int).drop_first() == s@.subrange(i + 1, n as int));
        }
        i = i + 1;
    }
    let ghost rest = s@.subrange(i as int, n as int);
    proof {
        assert(trim_start(rest) == rest);
    }
    let mut j: usize = n;
    proof {
        assert(rest.subrange(0, (j - i) as int) == rest);
    }
    while j > i && white_space(s.get_char(j - 1))
        invariant
            n == s@.len(),
            i <= j <= n,
            rest == s@.subrange(i as int, n as int),
            trim_end(rest) == trim_end(s@.subrange(i as int, j as int)),
        decreases j,
    {
        proof {
            assert(s@.subrange(i as int, j as int).drop_last() == s@.subrange(i as int, j - 1));
        }
        j = j - 1;
    }
    proof {
        let kept = s@.subrange(i as int, j as int);
        assert(trim_end(kept) == kept);
    }
    s.substring_char(i, j).to_string()
}

/// What asking to start a game gives: the room id must have more than whitespace, there must
/// be exactly four players, none of them blank, and no two the same once trimmed.
pub open spec fn create_game_check(room_id: Seq<char>, players: Seq<Seq<char>>) -> Result<
    (),
    Seq<char>,
> {
    if trimmed(room_id).len() == 0 {
        Err("Room ID cannot be empty"@)
    } else if players.len() != 4 {
        Err("Big Two requires exactly 4 players"@)
    } else if exists|i: int| 0 <= i < 4 && #[trigger] trimmed(players[i]).len() == 0 {
        Err("Player UUIDs cannot be empty"@)
    } else if exists|i: int, j: int|
        0 <= i < j < 4 && #[trigger] trimmed(players[i]) == #[trigger] trimmed(players[j]) {
        Err("All player UUIDs must be unique"@)
    } else {
        Ok(())
    }
}

/// Checks a request to start a game (see `create_game_check`); a refusal is a bad request.
pub fn check_create_game(room_id: &str, player_uuids: &[String]) -> (r: Result<(), AppError>)
    ensures
        checked(r) == match create_game_check(room_id@, crate::text::texts(player_uuids@)) {
            Ok(()) => Ok(()),
            Err(m) => Err(AppErrorView::BadRequest(m)),
        },
{
    let ghost ps = crate::text::texts(player_uuids@);
    let id = trim_text(room_id);
    if id.unicode_len() == 0 {
        return Err(AppError::BadRequest(String::from_str("Room ID cannot be empty")));
    }
    if player_uuids.len() != 4 {
        return Err(AppError::BadRequest(String::from_str("Big Two requires exactly 4 players")));
    }
    let mut trimmed_ids: Vec<String> = Vec::new();
    let mut i: usize = 0;
    while i < 4
        invariant
            player_uuids@.len() == 4,
            ps == crate::text::texts(player_uuids@),
            i <= 4,
            trimmed_ids@.len() == i,
            forall|k: int| 0 <= k < i ==> (#[trigger] trimmed_ids@[k])@ == trimmed(ps[k]),
        decreases 4 - i,
    {
        let t = trim_text(player_uuids[i].as_str());
        proof {
            assert(ps[i as int] == player_uuids@[i as int]@);
        }
        trimmed_ids.push(t);
        i = i + 1;
    }
    let mut i: usize = 0;
    while i < 4
        invariant
            trimmed_ids@.len() == 4,
            forall|k: int| 0 <= k < 4 ==> (#[trigger] trimmed_ids@[k])@ == trimmed(ps[k]),
            i <= 4,
            trimmed(room_id@).len() != 0,
            ps.len() == 4,
            ps == crate::text::texts(player_uuids@),
            forall|k: int| 0 <= k < i ==> #[trigger] trimmed(ps[k]).len() != 0,
        decreases 4 - i,
    {
        if trimmed_ids[i].unicode_len() == 0 {
            proof {
                assert(trimmed(ps[i as int]).len() == 0);
            }
            return Err(AppError::BadRequest(String::from_str("Player UUIDs cannot be empty")));
        }
        i = i + 1;
    }
    let mut i: usize = 0;
    while i < 4
        invariant
            trimmed_ids@.len() == 4,
            forall|k: int| 0 <= k < 4 ==> (#[trigger] trimmed_ids@[k])@ == trimmed(ps[k]),
            i <= 4,
            trimmed(room_id@).len() != 0,
            ps.len() == 4,
            ps == crate::text::texts(player_uuids@),
            forall|k: int| 0 <= k < 4 ==> #[trigger] trimmed(ps[k]).len() != 0,
            forall|a: int, b: int|
                0 <= a < i && a < b < 4 ==> #[trigger] trimmed(ps[a]) != #[trigger] trimmed(ps[b]),
        decreases 4 - i,
    {
        let mut j: usize = i + 1;
        while j < 4
            invariant
                trimmed_ids@.len() == 4,
                forall|k: int| 0 <= k < 4 ==> (#[trigger] trimmed_ids@[k])@ == trimmed(ps[k]),
                i < 4,
                i + 1 <= j <= 4,
                trimmed(room_id@).len() != 0,
                ps.len() == 4,
                ps == crate::text::texts(player_uuids@),
            ps == crate::text::texts(player_uuids@),
                forall|k: int| 0 <= k < 4 ==> #[trigger] trimmed(ps[k]).len() != 0,
                forall|a: int, b: int|
                    0 <= a < i && a < b < 4 ==> #[trigger] trimmed(ps[a]) != #[trigger] trimmed(ps[b]),
                forall|b: int| i < b < j ==> trimmed(ps[i as int]) != #[trigger] trimmed(ps[b]),
            decreases 4 - j,
        {
            if trimmed_ids[i] == trimmed_ids[j] {
                proof {
                    assert(trimmed(ps[i as int]) == trimmed(ps[j as int]));
                }
                return Err(AppError::BadRequest(String::from_str("All player UUIDs must be unique")));
            }
            j = j + 1;
        }
        i = i + 1;
    }
    Ok(())
}

// ----------------------------------------------------------------------------
// A bot's turn
// ----------------------------------------------------------------------------
/// What a bot does when the turn passes to it.
#[derive(Debug, Clone)]
pub enum BotTurn {
    /// The player is not a bot: nothing to do.
    NotABot,
    /// There is no game, or the turn moved on: nothing to do.
    Skip,
    /// Ask to play these cards (none: a pass).
    Play(Vec<Card>),
}

/// Decides what the bot `player_uuid` (whose record is `bot`, if registered) does in `game`
/// (if there is one) when the turn passes to it: a player who is not a bot, a missing game or
/// a turn that moved on lead to nothing; an unregistered bot is an error; otherwise the bot
/// plays what its strategy chooses, or passes when it finds nothing.
pub fn bot_turn_step(player_uuid: &str, bot: Option<&BotPlayer>, game: Option<&Game>) -> (r: Result<
    BotTurn,
    RoomEventError,
>)
    requires
        game is Some ==> game->Some_0@.current_turn < game->Some_0@.players.len(),
    ensures
        !is_bot_id(player_uuid@) ==> r == Ok::<BotTurn, RoomEventError>(BotTurn::NotABot),
        is_bot_id(player_uuid@) && bot is None ==> (match r {
            Err(RoomEventError::HandlerError(m)) => m@ == "Bot not found: "@ + player_uuid@,
            _ => false,
        }),
        is_bot_id(player_uuid@) && bot is Some && game is None ==> r == Ok::<BotTurn, RoomEventError>(BotTurn::Skip),
        is_bot_id(player_uuid@) && bot is Some && game is Some ==> ({
            let gv = game->Some_0@;
            let cands = bot_candidates(gv, player_uuid@);
            if gv.players[gv.current_turn as int].name != player_uuid@ {
                r == Ok::<BotTurn, RoomEventError>(BotTurn::Skip)
            } else {
                match r {
                    Ok(BotTurn::Play(cards)) => if cands.len() == 0 {
                        cards@.len() == 0
                    } else {
                        exists|pick: int|
                            0 <= pick < tied_sizes(cands).len() && picked_move(cands, pick) == Some(
                                cards@,
                            )
                    },
                    _ => false,
                }
            }
        }),
{
    if !BotPlayer::is_bot_uuid(player_uuid) {
        return Ok(BotTurn::NotABot);
    }
    let bot = match bot {
        Some(b) => b,
        None => {
            let mut m = String::from_str("Bot not found: ");
            m.append(player_uuid);
            return Err(RoomEventError::HandlerError(m));
        },
    };
    let game = match game {
        Some(g) => g,
        None => {
            return Ok(BotTurn::Skip);
        },
    };
    let current = game.current_player_turn();
    let me = String::from_str(player_uuid);
    if !(current == me) {
        return Ok(BotTurn::Skip);
    }
    let strategy = BotStrategyFactory::create_strategy(bot.difficulty);
    let decision = strategy.decide_move(game, player_uuid);
    match decision {
        Some(cards) => Ok(BotTurn::Play(cards)),
        None => Ok(BotTurn::Play(Vec::new())),
    }
}

// ----------------------------------------------------------------------------
// Adding and removing bots
// ----------------------------------------------------------------------------
/// The most bots a room may hold.
pub const MAX_BOTS_PER_ROOM: usize = 3;

/// A request to add a bot.
#[derive(Debug, Clone)]
pub struct AddBotRequest {
    pub difficulty: BotDifficulty,
}

/// The bot that was added.
#[derive(Debug, Clone)]
pub struct BotResponse {
    pub uuid: String,
    pub name: String,
    pub difficulty: BotDifficulty,
}

/// What a request to add a bot gives, checked in order: the room must exist, the requester be
/// known and be the host of a room that has one, the room must have a free seat and fewer than
/// the most bots.
pub open spec fn add_bot_check(
    room_id: Seq<char>,
    room: Option<RoomView>,
    requester: Option<Seq<char>>,
    existing_bots: int,
) -> Result<(), AppErrorView> {
    match room {
        None => Err(AppErrorView::NotFound("Room not found: "@ + room_id)),
        Some(r) => match requester {
            None => Err(AppErrorView::Unauthorized("No player UUID for session"@)),
            Some(p) => match r.host_uuid {
                None => Err(AppErrorView::BadRequest("Room has no host"@)),
                Some(h) => if p != h {
                    Err(AppErrorView::Forbidden("Only the host can add bots"@))
                } else if r.player_uuids.len() >= 4 {
                    Err(AppErrorView::BadRequest("Room is full"@))
                } else if existing_bots >= 3 {
                    Err(
                        AppErrorView::BadRequest(
                            "Room "@ + room_id + " already has the maximum of 3 bots"@,
                        ),
                    )
                } else {
                    Ok(())
                },
            },
        },
    }
}

/// The value of an optional room.
pub open spec fn room_opt(room: Option<&RoomModel>) -> Option<RoomView> {
    match room {
        Some(x) => Some(x@),
        None => None,
    }
}

/// The text of an optional string slice.
pub open spec fn str_opt(s: Option<&str>) -> Option<Seq<char>> {
    match s {
        Some(x) => Some(x@),
        None => None,
    }
}

/// Checks a request by `requester` to add a bot to the room `room_id` (found as `room`, if it
/// exists) that already holds `existing_bots` bots (see `add_bot_check`).
pub fn check_add_bot(
    room_id: &str,
    room: Option<&RoomModel>,
    requester: Option<&str>,
    existing_bots: usize,
) -> (r: Result<(), AppError>)
    ensures
        checked(r) == add_bot_check(room_id@, room_opt(room), str_opt(requester), existing_bots as int),
{
    let room = match room {
        Some(r) => r,
        None => {
            let mut m = String::from_str("Room not found: ");
            m.append(room_id);
            return Err(AppError::NotFound(m));
        },
    };
    let requester = match requester {
        Some(p) => p,
        None => {
            return Err(AppError::Unauthorized(String::from_str("No player UUID for session")));
        },
    };
    let host = match &room.host_uuid {
        Some(h) => h,
        None => {
            return Err(AppError::BadRequest(String::from_str("Room has no host")));
        },
    };
    let who = String::from_str(requester);
    if !(who == *host) {
        return Err(AppError::Forbidden(String::from_str("Only the host can add bots")));
    }
    if room.is_full() {
        return Err(AppError::BadRequest(String::from_str("Room is full")));
    }
    if existing_bots >= MAX_BOTS_PER_ROOM {
        let mut m = String::from_str("Room ");
        m.append(room_id);
        m.append(" already has the maximum of 3 bots");
        return Err(AppError::BadRequest(m));
    }
    Ok(())
}

/// What a request to remove a bot gives, checked in order: the id must be a bot's, the room
/// must exist, the requester be known and be the host of a room that has one, and the bot must
/// be registered and sit in that room.
pub open spec fn remove_bot_check(
    room_id: Seq<char>,
    bot_uuid: Seq<char>,
    room: Option<RoomView>,
    requester: Option<Seq<char>>,
    bot_room: Option<Seq<char>>,
) -> Result<(), AppErrorView> {
    if !is_bot_id(bot_uuid) {
        Err(AppErrorView::BadRequest("UUID is not a bot: "@ + bot_uuid))
    } else {
        match room {
            None => Err(AppErrorView::NotFound("Room not found: "@ + room_id)),
            Some(r) => match requester {
                None => Err(AppErrorView::Unauthorized("No player UUID for session"@)),
                Some(p) => match r.host_uuid {
                    None => Err(AppErrorView::BadRequest("Room has no host"@)),
                    Some(h) => if p != h {
                        Err(AppErrorView::Forbidden("Only the host can remove bots"@))
                    } else {
                        match bot_room {
                            None => Err(AppErrorView::NotFound("Bot not found: "@ + bot_uuid)),
                            Some(b) => if b != room_id {
                                Err(AppErrorView::BadRequest("Bot not in specified room"@))
                            } else {
                                Ok(())
                            },
                        }
                    },
                },
            },
        }
    }
}

/// Checks a request by `requester` to remove the bot `bot_uuid` (registered as `bot`, if it
/// is) from the room `room_id` (found as `room`, if it exists); see `remove_bot_check`.
pub fn check_remove_bot(
    room_id: &str,
    bot_uuid: &str,
    room: Option<&RoomModel>,
    requester: Option<&str>,
    bot: Option<&BotPlayer>,
) -> (r: Result<(), AppError>)
    ensures
        checked(r) == remove_bot_check(
            room_id@,
            bot_uuid@,
            room_opt(room),
            str_opt(requester),
            match bot {
                Some(b) => Some(b.room_id@),
                None => None,
            },
        ),
{
    if !BotPlayer::is_bot_uuid(bot_uuid) {
        let mut m = String::from_str("UUID is not a bot: ");
        m.append(bot_uuid);
        return Err(AppError::BadRequest(m));
    }
    let room = match room {
        Some(r) => r,
        None => {
            let mut m = String::from_str("Room not found: ");
            m.append(room_id);
            return Err(AppError::NotFound(m));
        },
    };
    let requester = match requester {
        Some(p) => p,
        None => {
            return Err(AppError::Unauthorized(String::from_str("No player UUID for session")));
        },
    };
    let host = match &room.host_uuid {
        Some(h) => h,
        None => {
            return Err(AppError::BadRequest(String::from_str("Room has no host")));
        },
    };
    let who = String::from_str(requester);
    if !(who == *host) {
        return Err(AppError::Forbidden(String::from_str("Only the host can remove bots")));
    }
    let bot = match bot {
        Some(b) => b,
        None => {
            let mut m = String::from_str("Bot not found: ");
            m.append(bot_uuid);
            return Err(AppError::NotFound(m));
        },
    };
    let here = String::from_str(room_id);
    if !(bot.room_id == here) {
        return Err(AppError::BadRequest(String::from_str("Bot not in specified room")));
    }
    Ok(())
}

// ----------------------------------------------------------------------------
// Requests and responses about rooms
// ----------------------------------------------------------------------------
/// A request to create a room.
#[derive(Debug, Clone)]
pub struct RoomCreateRequest {
    pub host_name: String,
}

/// A request to join a room (what the session says about the player is enough).
#[derive(Debug, Clone)]
pub struct JoinRoomRequest {}

/// A room as the server describes it.
#[derive(Debug, Clone)]
pub struct RoomResponse {
    pub id: String,
    pub host_name: String,
    pub status: String,
    pub player_count: i32,
}

} // verus!
