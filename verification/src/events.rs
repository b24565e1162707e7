use vstd::prelude::*;

use crate::cards::Card;
use crate::game::Game;

verus! {

/// What happens in a room, as told to the room's subscribers.
#[derive(Debug, Clone)]
pub enum RoomEvent {
    /// A player joined the room.
    PlayerJoined { player: String },
    /// A player left the room.
    PlayerLeft { player: String },
    /// The room's host changed.
    HostChanged { old_host: String, new_host: String },
    /// A chat message was sent in the room.
    ChatMessage { sender: String, content: String },
    /// A player asked to leave (as opposed to losing the connection).
    PlayerLeaveRequested { player: String },
    /// A player's connection was established.
    PlayerConnected { player: String },
    /// A player's connection was lost.
    PlayerDisconnected { player: String },
    /// The host asked to start the game.
    TryStartGame { host: String },
    /// Create the game (after a successful start request).
    CreateGame { players: Vec<String> },
    /// The game started.
    StartGame { game: Game },
    /// A player asked to play cards (none: a pass).
    TryPlayMove { player: String, cards: Vec<Card> },
    /// A move was played.
    MovePlayed { player: String, cards: Vec<Card>, game: Game },
    /// The turn passed to a player.
    TurnChanged { player: String },
    /// A player won with the given cards.
    GameWon { winner: String, winning_hand: Vec<Card> },
    /// The finished game goes back to the lobby.
    GameReset,
    /// A bot was added to the room.
    BotAdded { bot_uuid: String, bot_name: String },
    /// A bot was removed from the room.
    BotRemoved { bot_uuid: String },
}

/// Why a room event could not be handled.
#[derive(Debug, Clone, PartialEq, Eq)]
pub enum RoomEventError {
    RoomNotFound(String),
    ConnectionError(String),
    HandlerError(String),
}

/// Why handling an event failed.
#[derive(Debug, Clone, PartialEq, Eq)]
pub enum EventError {
    Timeout,
    Retryable(String),
    NonRetryable(String),
    Panic(String),
}

/// The error asks for the handling to be tried again: a retryable failure or a timeout.
pub open spec fn retryable_error(e: EventError) -> bool {
    e is Retryable || e is Timeout
}

impl EventError {
    /// Whether the handling should be tried again: after a retryable failure or a timeout.
    pub fn is_retryable(&self) -> (b: bool)
        ensures
            b == retryable_error(*self),
    {
        match self {
            EventError::Retryable(_) | EventError::Timeout => true,
            _ => false,
        }
    }

    /// A failure worth trying again.
    pub fn retryable(msg: &str) -> (e: EventError)
        ensures
            e matches EventError::Retryable(m) && m@ == msg@,
    {
        EventError::Retryable(msg.to_string())
    }

    /// A failure not worth trying again.
    pub fn non_retryable(msg: &str) -> (e: EventError)
        ensures
            e matches EventError::NonRetryable(m) && m@ == msg@,
    {
        EventError::NonRetryable(msg.to_string())
    }
}

/// How one attempt at handling an event ended.
#[derive(Debug, Clone, PartialEq, Eq)]
pub enum AttemptOutcome {
    Succeeded,
    Failed(EventError),
    TimedOut,
}

/// What to do after an attempt.
#[derive(Debug, Clone, PartialEq, Eq)]
pub enum RetryDecision {
    /// The event was handled.
    Done,
    /// Try again after waiting this many milliseconds.
    RetryAfter(u64),
    /// Try again at once.
    RetryNow,
    /// Stop, failing with this error.
    GiveUp(EventError),
}

/// The wait before the retry that follows failed attempt number `attempt` (counted from
/// zero): 100 milliseconds, doubling with each attempt.
pub open spec fn backoff_ms(attempt: nat) -> nat
    decreases attempt,
{
    if attempt == 0 {
        100
    } else {
        2 * backoff_ms((attempt - 1) as nat)
    }
}

/// What follows attempt number `attempt` (counted from zero) of at most `max_retries + 1`:
/// success ends it; a retryable failure is tried again after the backoff while retries remain;
/// a timeout is tried again at once while retries remain; anything else gives up with the
/// error (a timeout with the timeout error).
pub open spec fn retry_decision(attempt: nat, max_retries: nat, outcome: AttemptOutcome) -> RetryDecision {
    match outcome {
        AttemptOutcome::Succeeded => RetryDecision::Done,
        AttemptOutcome::Failed(e) => if retryable_error(e) && attempt < max_retries {
            RetryDecision::RetryAfter(backoff_ms(attempt) as u64)
        } else {
            RetryDecision::GiveUp(e)
        },
        AttemptOutcome::TimedOut => if attempt < max_retries {
            RetryDecision::RetryNow
        } else {
            RetryDecision::GiveUp(EventError::Timeout)
        },
    }
}

/// Decides what follows an attempt at handling an event (see `retry_decision`).
pub fn next_after_attempt(attempt: u32, max_retries: u32, outcome: AttemptOutcome) -> (d: RetryDecision)
    requires
        attempt < max_retries && (outcome matches AttemptOutcome::Failed(e) && retryable_error(e))
            ==> backoff_ms(attempt as nat) <= u64::MAX,
    ensures
        d == retry_decision(attempt as nat, max_retries as nat, outcome),
{
    match outcome {
        AttemptOutcome::Succeeded => RetryDecision::Done,
        AttemptOutcome::Failed(e) => {
            if e.is_retryable() && attempt < max_retries {
                let mut delay: u64 = 100;
                let mut k: u32 = 0;
                while k < attempt
                    invariant
                        k <= attempt,
                        delay == backoff_ms(k as nat),
                        backoff_ms(attempt as nat) <= u64::MAX,
                    decreases attempt - k,
                {
                    proof {
                        lemma_backoff_grows(k as nat + 1, attempt as nat);
                    }
                    delay = delay * 2;
                    k = k + 1;
                }
                RetryDecision::RetryAfter(delay)
            } else {
                RetryDecision::GiveUp(e)
            }
        },
        AttemptOutcome::TimedOut => {
            if attempt < max_retries {
                RetryDecision::RetryNow
            } else {
                RetryDecision::GiveUp(EventError::Timeout)
            }
        },
    }
}

/// Backoff grows with the attempt.
pub proof fn lemma_backoff_grows(i: nat, j: nat)
    requires
        i <= j,
    ensures
        backoff_ms(i) <= backoff_ms(j),
    decreases j,
{
    if i < j {
        lemma_backoff_grows(i, (j - 1) as nat);
    }
}

/// Handling stops at the last attempt: whatever the outcome of attempt `max_retries`, there
/// is no further attempt. So an event is tried at most `max_retries + 1` times.
pub proof fn lemma_last_attempt_stops(max_retries: nat, outcome: AttemptOutcome)
    ensures
        retry_decision(max_retries, max_retries, outcome) is Done || retry_decision(
            max_retries,
            max_retries,
            outcome,
        ) is GiveUp,
{
}

/// Each wait doubles the one before.
pub proof fn lemma_backoff_doubles(attempt: nat)
    ensures
        backoff_ms(attempt + 1) == 2 * backoff_ms(attempt),
        backoff_ms(0) == 100,
{
}

/// An error that is not worth trying again ends the handling at once.
pub proof fn lemma_non_retryable_gives_up(attempt: nat, max_retries: nat, e: EventError)
    requires
        !retryable_error(e),
    ensures
        retry_decision(attempt, max_retries, AttemptOutcome::Failed(e)) == RetryDecision::GiveUp(e),
{
}

/// The event shows that someone is active in the room: a player joined or left, chatted,
/// asked to start a game or to play a move, or a bot was added or removed.
pub open spec fn is_activity(e: RoomEvent) -> bool {
    match e {
        RoomEvent::PlayerJoined { .. } | RoomEvent::PlayerLeft { .. } | RoomEvent::ChatMessage {
            ..
        } | RoomEvent::TryStartGame { .. } | RoomEvent::TryPlayMove { .. } | RoomEvent::BotAdded {
            ..
        } | RoomEvent::BotRemoved { .. } => true,
        _ => false,
    }
}

/// Whether the event counts as activity in its room (see `is_activity`).
pub fn tracks_activity(event: &RoomEvent) -> (b: bool)
    ensures
        b == is_activity(*event),
{
    match event {
        RoomEvent::PlayerJoined { .. } | RoomEvent::PlayerLeft { .. } | RoomEvent::ChatMessage {
            ..
        } | RoomEvent::TryStartGame { .. } | RoomEvent::TryPlayMove { .. } | RoomEvent::BotAdded {
            ..
        } | RoomEvent::BotRemoved { .. } => true,
        _ => false,
    }
}

} // verus!
