use vstd::prelude::*;

use crate::cards::Card;
use crate::hands::{compare_played_cards, copy_cards, hand_of, HandError};

verus! {

/// A seat at a basic game: a name and the cards in hand.
#[derive(Debug, Clone)]
pub struct Player {
    name: String,
    cards: Vec<Card>,
}

/// The value of a seat: the name's text and the cards in hand.
pub struct SeatView {
    pub name: Seq<char>,
    pub cards: Seq<Card>,
}

impl View for Player {
    type V = SeatView;

    closed spec fn view(&self) -> SeatView {
        SeatView { name: self.name@, cards: self.cards@ }
    }
}

/// Why a move was refused.
#[derive(Debug, Clone, PartialEq, Eq, Structural)]
pub enum GameError {
    /// It is not this player's turn.
    InvalidPlayerTurn,
    /// The cards on the table or the cards played form no hand.
    InvalidPlayedCards,
    /// Three passes in a row: the player must play cards.
    CannotPass,
    /// The cards form no hand.
    HandError(HandError),
}

/// A basic game: it keeps the turn, the count of passes in a row and the last cards played,
/// and checks that moves are made in turn and form hands; it does not track who holds which
/// card.
#[derive(Debug, Clone)]
pub struct Game {
    id: String,
    players: Vec<Player>,
    current_turn: usize,
    consecutive_passes: usize,
    last_played_cards: Vec<Card>,
}

/// The value of a basic game.
pub struct BasicGameView {
    pub id: Seq<char>,
    pub players: Seq<SeatView>,
    pub current_turn: int,
    pub consecutive_passes: int,
    pub last_played_cards: Seq<Card>,
}

impl View for Game {
    type V = BasicGameView;

    closed spec fn view(&self) -> BasicGameView {
        BasicGameView {
            id: self.id@,
            players: self.players@.map_values(|p: Player| p@),
            current_turn: self.current_turn as int,
            consecutive_passes: self.consecutive_passes as int,
            last_played_cards: self.last_played_cards@,
        }
    }
}

/// What playing `played` in the name of `name` does to the basic game `g`, or why it is refused.
/// The move must come from the player whose turn it is, and both the cards on the table and
/// the cards played must form hands (no cards are a pass). A pass is refused after three passes
/// in a row and otherwise counts one more; played cards start the count again. The cards played
/// become the cards on the table and the turn moves to the next seat.
pub open spec fn basic_play_result(g: BasicGameView, name: Seq<char>, played: Seq<Card>) -> Result<
    BasicGameView,
    GameError,
> {
    if g.players[g.current_turn as int].name != name {
        Err(GameError::InvalidPlayerTurn)
    } else if hand_of(g.last_played_cards) is Err || hand_of(played) is Err {
        Err(GameError::InvalidPlayedCards)
    } else if played.len() == 0 && g.consecutive_passes >= 3 {
        Err(GameError::CannotPass)
    } else {
        Ok(
            BasicGameView {
                current_turn: (g.current_turn + 1) % (g.players.len() as int),
                consecutive_passes: if played.len() == 0 {
                    g.consecutive_passes + 1
                } else {
                    0
                },
                last_played_cards: played,
                ..g
            },
        )
    }
}

impl Game {
    /// A new game with the given players; the first player moves first.
    pub fn new(id: String, players: Vec<Player>) -> (g: Game)
        ensures
            g@ == (BasicGameView {
                id: id@,
                players: players@.map_values(|p: Player| p@),
                current_turn: 0,
                consecutive_passes: 0,
                last_played_cards: Seq::<Card>::empty(),
            }),
    {
        Game { id, players, current_turn: 0, consecutive_passes: 0, last_played_cards: Vec::new() }
    }

    /// Plays `cards` (none: a pass) for the player named `player_name`; see `basic_play_result`.
    /// A refused move leaves the game as it was.
    pub fn play_cards(&mut self, player_name: &str, cards: &Vec<Card>) -> (r: Result<(), GameError>)
        requires
            0 <= old(self)@.current_turn < old(self)@.players.len(),
        ensures
            match basic_play_result(old(self)@, player_name@, cards@) {
                Ok(g) => r is Ok && final(self)@ == g,
                Err(e) => r == Err::<(), GameError>(e) && final(self)@ == old(self)@,
            },
    {
        let turn = self.current_turn;
        proof {
            assert(turn < self.players@.len());
        }
        let name = String::from_str(player_name);
        if !(self.players[turn].name == name) {
            return Err(GameError::InvalidPlayerTurn);
        }
        if compare_played_cards(self.last_played_cards.as_slice(), cards.as_slice()).is_err() {
            return Err(GameError::InvalidPlayedCards);
        }
        if cards.len() == 0 {
            if self.consecutive_passes >= 3 {
                return Err(GameError::CannotPass);
            }
            self.consecutive_passes = self.consecutive_passes + 1;
        } else {
            self.consecutive_passes = 0;
        }
        self.last_played_cards = copy_cards(cards);
        let n = self.players.len();
        self.current_turn = (turn + 1) % n;
        Ok(())
    }
}

} // verus!
