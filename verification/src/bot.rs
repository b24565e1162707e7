use vstd::prelude::*;

use std::sync::Arc;

use crate::cards::Card;
use crate::game::Game;
use crate::strategy::BasicBotStrategy;
use crate::text::{starts_with, text_starts_with};

verus! {

/// How hard a bot plays.
#[derive(Debug, Clone, Copy, PartialEq, Eq, Structural)]
pub enum BotDifficulty {
    Easy,
    Medium,
    Hard,
}

/// A bot seated in a room.
#[derive(Debug, Clone)]
pub struct BotPlayer {
    /// The bot's identifier: "bot-" followed by a random identifier.
    pub uuid: String,
    /// The name shown for the bot.
    pub name: String,
    /// The room the bot sits in.
    pub room_id: String,
    pub difficulty: BotDifficulty,
}

/// The value of a bot.
pub struct BotPlayerView {
    pub uuid: Seq<char>,
    pub name: Seq<char>,
    pub room_id: Seq<char>,
    pub difficulty: BotDifficulty,
}

impl View for BotPlayer {
    type V = BotPlayerView;

    open spec fn view(&self) -> BotPlayerView {
        BotPlayerView {
            uuid: self.uuid@,
            name: self.name@,
            room_id: self.room_id@,
            difficulty: self.difficulty,
        }
    }
}

/// The prefix that marks the identifier of a bot.
pub open spec fn bot_prefix() -> Seq<char> {
    seq!['b', 'o', 't', '-']
}

/// The identifier is a bot's: it begins with "bot-".
pub open spec fn is_bot_id(id: Seq<char>) -> bool {
    starts_with(id, bot_prefix())
}

/// A lowercase hexadecimal digit.
pub open spec fn is_lower_hex(c: char) -> bool {
    ('0' <= c && c <= '9') || ('a' <= c && c <= 'f')
}

/// The hyphenated form of an identifier: 36 characters, hyphens at positions 8, 13, 18 and 23
/// and lowercase hexadecimal digits elsewhere.
pub open spec fn is_hyphenated_id(s: Seq<char>) -> bool {
    &&& s.len() == 36
    &&& forall|i: int|
        0 <= i < 36 ==> if i == 8 || i == 13 || i == 18 || i == 23 {
            #[trigger] s[i] == '-'
        } else {
            is_lower_hex(s[i])
        }
}

/// A fresh random identifier (`uuid::Uuid::new_v4`), in the hyphenated lowercase form that
/// `Uuid::to_string` writes. Which identifier comes out is left to chance; the contract states
/// its form only.
#[verifier::external_body]
pub(crate) fn new_id_text() -> (s: String)
    ensures
        is_hyphenated_id(s@),
{
    uuid::Uuid::new_v4().to_string()
}

impl BotPlayer {
    /// A bot for the room, with a fresh identifier "bot-" followed by a random identifier.
    pub fn new(room_id: String, name: String, difficulty: BotDifficulty) -> (b: BotPlayer)
        ensures
            b.name@ == name@,
            b.room_id@ == room_id@,
            b.difficulty == difficulty,
            b.uuid@.len() == 40,
            b.uuid@.subrange(0, 4) == bot_prefix(),
            is_hyphenated_id(b.uuid@.subrange(4, 40)),
            is_bot_id(b.uuid@),
    {
        let id = new_id_text();
        let mut uuid = String::from_str("bot-");
        proof {
            reveal_strlit("bot-");
        }
        uuid.append(id.as_str());
        proof {
            assert(uuid@.subrange(0, 4) == bot_prefix());
            assert(uuid@.subrange(4, 40) == id@);
        }
        BotPlayer { uuid, name, room_id, difficulty }
    }

    /// A copy of this bot.
    pub fn duplicate(&self) -> (r: BotPlayer)
        ensures
            r@ == self@,
    {
        BotPlayer {
            uuid: self.uuid.clone(),
            name: self.name.clone(),
            room_id: self.room_id.clone(),
            difficulty: self.difficulty,
        }
    }

    /// Whether the identifier is a bot's: it begins with "bot-".
    pub fn is_bot_uuid(uuid: &str) -> (b: bool)
        ensures
            b == is_bot_id(uuid@),
    {
        proof {
            reveal_strlit("bot-");
            assert("bot-"@ == bot_prefix());
        }
        text_starts_with(uuid, "bot-")
    }
}

/// How a bot decides its moves.
pub trait BotStrategy {
    /// The cards to play for the bot `bot_uuid` in `game`; nothing means a pass.
    fn decide_move(&self, game: &Game, bot_uuid: &str) -> (r: Option<Vec<Card>>)
        requires
            game@.current_turn < game@.players.len(),
    ;

    /// The name of the strategy.
    fn strategy_name(&self) -> (name: &'static str);
}

/// Gives out the strategy for each difficulty.
pub struct BotStrategyFactory;

impl BotStrategyFactory {
    /// The strategy for a difficulty: every difficulty plays the basic strategy, handed out as
    /// that type (which implements `BotStrategy`), since Verus does not turn an `Arc` of it into
    /// an `Arc<dyn BotStrategy>`.
    pub fn create_strategy(difficulty: BotDifficulty) -> (s: Arc<BasicBotStrategy>) {
        match difficulty {
            BotDifficulty::Easy | BotDifficulty::Medium | BotDifficulty::Hard => Arc::new(
                BasicBotStrategy::new(),
            ),
        }
    }
}

} // verus!
