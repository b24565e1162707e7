use vstd::prelude::*;

use crate::cards::Card;
use crate::errors::{checked, AppError, AppErrorView};
use crate::game::{deal_outcome, game_result_view, play_result, Game, GameError, GameView};
use crate::players::{InMemoryPlayerMappingService, PlayerMappingService};
use crate::service::{
    check_create_game, create_game_check, game_error_message, last_move_cards, play_move, MoveResult,
};
use crate::text::{keyed_map, keys_unique, lemma_keyed_at, lemma_keyed_push, lemma_keyed_remove, lemma_keyed_update, texts};

verus! {

/// A move can be asked of the game: the turn points at a seat.
pub open spec fn playable(g: GameView) -> bool {
    0 <= g.current_turn < g.players.len()
}

/// An accepted move leaves the turn pointing at a seat.
pub proof fn lemma_move_keeps_game_playable(g: GameView, name: Seq<char>, played: Seq<Card>)
    requires
        playable(g),
        play_result(g, name, played) is Ok,
    ensures
        playable(play_result(g, name, played)->Ok_0.0),
        play_result(g, name, played)->Ok_0.0.players.len() == g.players.len(),
{
    let n = g.players.len() as int;
    let t = g.current_turn as int;
    assert(0 <= (t + 1) % n < n) by (nonlinear_arith)
        requires
            n > 0,
            0 <= t,
    ;
}

/// A game that was dealt can be played.
pub proof fn lemma_dealt_game_playable(id: Seq<char>, names: Seq<String>, deck: Seq<Card>, g: GameView)
    requires
        deal_outcome(id, names, deck, Ok(g)),
    ensures
        playable(g),
{
    let n = names.len() as int;
    let f = choose|f: int| #![trigger crate::game::is_first_holder(deck, n, f)]
        crate::game::is_first_holder(deck, n, f) && forall|k: int|
            0 <= k < n ==> #[trigger] g.players[k] == (crate::game::PlayerView {
                name: names[(f + k) % n]@,
                cards: crate::game::dealt_hand(deck, (f + k) % n),
            });
    assert(0 <= f < n);
}

/// The values of a list of (room, game) entries.
pub open spec fn game_entries(s: Seq<(String, Game)>) -> Seq<(Seq<char>, GameView)> {
    s.map_values(|e: (String, Game)| (e.0@, e.1@))
}

/// The games in progress, by room.
pub struct GameRepository {
    games: Vec<(String, Game)>,
}

impl View for GameRepository {
    type V = Map<Seq<char>, GameView>;

    closed spec fn view(&self) -> Map<Seq<char>, GameView> {
        keyed_map(game_entries(self.games@))
    }
}

impl GameRepository {
    #[verifier::type_invariant]
    spec fn well_kept(self) -> bool {
        &&& keys_unique(game_entries(self.games@))
        &&& forall|i: int| 0 <= i < self.games@.len() ==> playable(#[trigger] self.games@[i].1@)
    }

    /// No games.
    pub fn new() -> (r: GameRepository)
        ensures
            r@ == Map::<Seq<char>, GameView>::empty(),
    {
        let r = GameRepository { games: Vec::new() };
        proof {
            assert(r@ =~= Map::<Seq<char>, GameView>::empty());
        }
        r
    }

    /// Where the room's game stands, if it has one.
    fn position(&self, room_id: &str) -> (r: Option<usize>)
        ensures
            match r {
                Some(i) => i < self.games@.len() && self.games@[i as int].0@ == room_id@,
                None => !self@.contains_key(room_id@),
            },
    {
        let target = String::from_str(room_id);
        let mut i: usize = 0;
        while i < self.games.len()
            invariant
                i <= self.games@.len(),
                target@ == room_id@,
                forall|j: int| 0 <= j < i ==> #[trigger] self.games@[j].0@ != room_id@,
            decreases self.games@.len() - i,
        {
            if self.games[i].0 == target {
                return Some(i);
            }
            i = i + 1;
        }
        proof {
            let s = game_entries(self.games@);
            if self@.contains_key(room_id@) {
                let c = choose|j: int| 0 <= j < s.len() && #[trigger] s[j].0 == room_id@;
                assert(self.games@[c].0@ == room_id@);
            }
        }
        None
    }

    /// Stores the room's game, replacing the one it had.
    pub fn update_game(&mut self, room_id: &str, game: Game) -> (r: Result<(), GameError>)
        requires
            playable(game@),
        ensures
            r is Ok,
            final(self)@ == old(self)@.insert(room_id@, game@),
    {
        proof {
            use_type_invariant(&*self);
        }
        let ghost before = game_entries(self.games@);
        let ghost gv = game@;
        let idx = self.position(room_id);
        let mut games: Vec<(String, Game)> = Vec::new();
        std::mem::swap(&mut games, &mut self.games);
        match idx {
            Some(i) => {
                let key = games[i].0.clone();
                games.set(i, (key, game));
                proof {
                    assert(game_entries(games@) =~= before.update(i as int, (before[i as int].0, gv)));
                    lemma_keyed_update(before, i as int, gv);
                }
            },
            None => {
                games.push((String::from_str(room_id), game));
                proof {
                    assert(game_entries(games@) =~= before.push((room_id@, gv)));
                    lemma_keyed_push(before, (room_id@, gv));
                }
            },
        }
        self.games = games;
        Ok(())
    }

    /// Deals a new game for the players (see `Game::new_game`) and stores it for the room.
    pub fn create_game(&mut self, room_id: &str, player_names: &[String]) -> (r: Result<(), GameError>)
        requires
            player_names@.len() <= 4,
        ensures
            exists|deck: Seq<Card>, res: Result<GameView, GameError>|
                #![trigger deal_outcome(room_id@, player_names@, deck, res)]
                deck.to_multiset() == crate::cards::full_deck().to_multiset() && deal_outcome(
                    room_id@,
                    player_names@,
                    deck,
                    res,
                ) && match res {
                    Ok(g) => r is Ok && final(self)@ == old(self)@.insert(room_id@, g),
                    Err(e) => r == Err::<(), GameError>(e) && final(self)@ == old(self)@,
                },
            player_names@.len() == 4 ==> r is Ok,
    {
        let dealt = Game::new_game(String::from_str(room_id), player_names);
        let ghost res = game_result_view(dealt);
        let ghost deck = choose|deck: Seq<Card>|
            #![trigger deal_outcome(room_id@, player_names@, deck, res)]
            deck.to_multiset() == crate::cards::full_deck().to_multiset() && deal_outcome(
                room_id@,
                player_names@,
                deck,
                res,
            );
        match dealt {
            Ok(game) => {
                proof {
                    lemma_dealt_game_playable(room_id@, player_names@, deck, game@);
                }
                self.update_game(room_id, game)
            },
            Err(e) => {
                proof {
                    if player_names@.len() == 4 {
                        crate::game::lemma_four_player_deal(room_id@, player_names@, deck, res);
                    }
                }
                Err(e)
            },
        }
    }

    /// A copy of the room's game, if it has one.
    pub fn get_game(&self, room_id: &str) -> (r: Option<Game>)
        ensures
            match r {
                Some(g) => self@.contains_key(room_id@) && g@ == self@[room_id@] && playable(g@),
                None => !self@.contains_key(room_id@),
            },
    {
        proof {
            use_type_invariant(self);
        }
        match self.position(room_id) {
            Some(i) => {
                proof {
                    lemma_keyed_at(game_entries(self.games@), i as int);
                    assert(game_entries(self.games@)[i as int] == (
                        self.games@[i as int].0@,
                        self.games@[i as int].1@,
                    ));
                }
                Some(self.games[i].1.duplicate())
            },
            None => None,
        }
    }

    /// Takes the room's game out, if it has one.
    pub fn remove_game(&mut self, room_id: &str) -> (r: Option<Game>)
        ensures
            match r {
                Some(g) => old(self)@.contains_key(room_id@) && g@ == old(self)@[room_id@],
                None => !old(self)@.contains_key(room_id@),
            },
            final(self)@ == old(self)@.remove(room_id@),
    {
        proof {
            use_type_invariant(&*self);
        }
        let ghost before = game_entries(self.games@);
        match self.position(room_id) {
            Some(i) => {
                proof {
                    lemma_keyed_at(before, i as int);
                    lemma_keyed_remove(before, i as int);
                    assert(before[i as int] == (self.games@[i as int].0@, self.games@[i as int].1@));
                }
                let mut games: Vec<(String, Game)> = Vec::new();
                std::mem::swap(&mut games, &mut self.games);
                let (_, game) = games.remove(i);
                proof {
                    assert(game_entries(games@) =~= before.remove(i as int));
                }
                self.games = games;
                Some(game)
            },
            None => {
                proof {
                    assert(old(self)@.remove(room_id@) =~= old(self)@);
                }
                None
            },
        }
    }
}

/// Starts games and plays moves, one game per room.
pub struct GameService {
    game_repository: GameRepository,
}

/// The players' names are all registered.
pub open spec fn names_known(names: Map<Seq<char>, Seq<char>>, uuids: Seq<Seq<char>>) -> bool {
    forall|i: int| 0 <= i < uuids.len() ==> names.contains_key(#[trigger] uuids[i])
}

impl GameService {
    /// A service with no games.
    pub fn new() -> (s: GameService)
        ensures
            s.games() == Map::<Seq<char>, GameView>::empty(),
    {
        GameService { game_repository: GameRepository::new() }
    }

    /// The games, by room.
    pub closed spec fn games(&self) -> Map<Seq<char>, GameView> {
        self.game_repository@
    }

    /// Starts a game in the room for four players: the request is checked (see
    /// `create_game_check`), every player must have a registered name, and the cards are
    /// dealt at random (see `Game::new_game`). A request that passes both always starts a
    /// game: the four players share the full deck, so someone holds the three of diamonds.
    pub fn create_game(
        &mut self,
        player_mapping: &InMemoryPlayerMappingService,
        room_id: &str,
        player_uuids: &[String],
    ) -> (r: Result<Game, AppError>)
        ensures
            create_game_check(room_id@, texts(player_uuids@)) matches Err(m) ==> checked(r) == Err::<
                Game,
                AppErrorView,
            >(AppErrorView::BadRequest(m)) && final(self).games() == old(self).games(),
            create_game_check(room_id@, texts(player_uuids@)) is Ok && !names_known(
                player_mapping@,
                texts(player_uuids@),
            ) ==> (r matches Err(AppError::BadRequest(m)) && exists|i: int|
                0 <= i < player_uuids@.len() && !player_mapping@.contains_key(
                    #[trigger] player_uuids@[i]@,
                ) && m@ == "Player name not found for UUID: "@ + player_uuids@[i]@)
                && final(self).games() == old(self).games(),
            create_game_check(room_id@, texts(player_uuids@)) is Ok && names_known(
                player_mapping@,
                texts(player_uuids@),
            ) ==> match r {
                Ok(g) => final(self).games() == old(self).games().insert(room_id@, g@) && exists|
                    deck: Seq<Card>,
                |
                    #![trigger deal_outcome(room_id@, player_uuids@, deck, Ok(g@))]
                    deck.to_multiset() == crate::cards::full_deck().to_multiset() && deal_outcome(
                        room_id@,
                        player_uuids@,
                        deck,
                        Ok(g@),
                    ),
                Err(_) => false,
            },
    {
        match check_create_game(room_id, player_uuids) {
            Ok(()) => {},
            Err(e) => {
                return Err(e);
            },
        }
        let mut i: usize = 0;
        while i < player_uuids.len()
            invariant
                i <= player_uuids@.len(),
                create_game_check(room_id@, texts(player_uuids@)) is Ok,
                self.games() == old(self).games(),
                forall|j: int| 0 <= j < i ==> player_mapping@.contains_key(#[trigger] player_uuids@[j]@),
            decreases player_uuids@.len() - i,
        {
            match player_mapping.get_playername(player_uuids[i].as_str()) {
                Some(_name) => {},
                None => {
                    let mut m = String::from_str("Player name not found for UUID: ");
                    m.append(player_uuids[i].as_str());
                    proof {
                        assert(texts(player_uuids@)[i as int] == player_uuids@[i as int]@);
                        assert(!player_mapping@.contains_key(texts(player_uuids@)[i as int]));
                        assert(!names_known(player_mapping@, texts(player_uuids@)));
                    }
                    return Err(AppError::BadRequest(m));
                },
            }
            i = i + 1;
        }
        proof {
            assert forall|j: int| 0 <= j < texts(player_uuids@).len() implies player_mapping@.contains_key(
                #[trigger] texts(player_uuids@)[j],
            ) by {
                assert(texts(player_uuids@)[j] == player_uuids@[j]@);
            }
            assert(texts(player_uuids@).len() == 4);
        }
        match self.game_repository.create_game(room_id, player_uuids) {
            Ok(()) => {},
            Err(_) => {
                return Err(AppError::Internal);
            },
        }
        match self.game_repository.get_game(room_id) {
            Some(g) => Ok(g),
            None => Err(AppError::Internal),
        }
    }

    /// Plays a move in the room's game and keeps the game it leads to (see `play_move`); a
    /// room without a game is not found.
    pub fn try_play_move(&mut self, room_id: &str, player_uuid: &str, cards: &[Card]) -> (r: Result<
        MoveResult,
        AppError,
    >)
        ensures
            !old(self).games().contains_key(room_id@) ==> (r matches Err(AppError::NotFound(m))
                && m@ == "Game not found for room: "@ + room_id@) && final(self).games() == old(
                self,
            ).games(),
            old(self).games().contains_key(room_id@) ==> match play_result(
                old(self).games()[room_id@],
                player_uuid@,
                cards@,
            ) {
                Err(e) => (r matches Err(AppError::NotFound(m)) && m@ == "Game error: "@
                    + game_error_message(e)) && final(self).games() == old(self).games(),
                Ok((g, won)) => (r matches Ok(mr) && mr.game@ == g && mr.player_won == won && (won
                    ==> (mr.winning_hand matches Some(w) && w@ == last_move_cards(g))) && (!won
                    ==> mr.winning_hand is None)) && final(self).games() == old(self).games().insert(
                    room_id@,
                    g,
                ),
            },
            r matches Ok(mr) ==> playable(mr.game@),
    {
        let game = match self.game_repository.get_game(room_id) {
            Some(g) => g,
            None => {
                let mut m = String::from_str("Game not found for room: ");
                m.append(room_id);
                return Err(AppError::NotFound(m));
            },
        };
        let ghost before = game@;
        let result = match play_move(game, player_uuid, cards) {
            Ok(mr) => mr,
            Err(e) => {
                return Err(e);
            },
        };
        proof {
            lemma_move_keeps_game_playable(before, player_uuid@, cards@);
        }
        match self.game_repository.update_game(room_id, result.game.duplicate()) {
            Ok(()) => {},
            Err(_) => {
                return Err(AppError::Internal);
            },
        }
        Ok(result)
    }

    /// A copy of the room's game, if it has one.
    pub fn get_game(&self, room_id: &str) -> (r: Option<Game>)
        ensures
            match r {
                Some(g) => self.games().contains_key(room_id@) && g@ == self.games()[room_id@]
                    && playable(g@),
                None => !self.games().contains_key(room_id@),
            },
    {
        self.game_repository.get_game(room_id)
    }

    /// Ends the room's game, back to the lobby.
    pub fn reset_game_to_lobby(&mut self, room_id: &str) -> (r: Result<(), AppError>)
        ensures
            r is Ok,
            final(self).games() == old(self).games().remove(room_id@),
    {
        let _ = self.game_repository.remove_game(room_id);
        Ok(())
    }
}

} // verus!
