use vstd::prelude::*;

use crate::text::{contains_text, copy_strings, differs_from, strings_without, texts, without};

verus! {

/// Why a lobby refused a change.
#[derive(Debug, Clone, PartialEq, Eq, Structural)]
pub enum LobbyError {
    RoomFull,
    PlayerAlreadyInRoom,
    PlayerNotInRoom,
}

/// Players gathering for a game, with a host.
pub struct Lobby {
    players: Vec<String>,
    host: String,
}

/// The value of a lobby: its players in order of arrival and its host.
pub struct LobbyView {
    pub players: Seq<Seq<char>>,
    pub host: Seq<char>,
}

impl View for Lobby {
    type V = LobbyView;

    closed spec fn view(&self) -> LobbyView {
        LobbyView { players: texts(self.players@), host: self.host@ }
    }
}

/// A lobby in good order: one to four players, none twice, the host among them.
pub open spec fn lobby_ok(l: LobbyView) -> bool {
    &&& 1 <= l.players.len() <= 4
    &&& l.players.no_duplicates()
    &&& l.players.contains(l.host)
}

impl Lobby {
    /// A lobby whose only player is its host.
    pub fn new(host: String) -> (l: Lobby)
        ensures
            l@.players == seq![host@],
            l@.host == host@,
            lobby_ok(l@),
    {
        let first = host.clone();
        let l = Lobby { players: vec![first], host };
        proof {
            assert(l@.players == seq![host@]);
            assert(l@.players[0] == host@);
        }
        l
    }

    /// Adds a player: refused when four players are in, or the player already is.
    pub fn add_player(&mut self, player: String) -> (r: Result<(), LobbyError>)
        ensures
            old(self)@.players.len() == 4 ==> r == Err::<(), LobbyError>(LobbyError::RoomFull)
                && final(self)@ == old(self)@,
            old(self)@.players.len() != 4 && old(self)@.players.contains(player@) ==> r == Err::<
                (),
                LobbyError,
            >(LobbyError::PlayerAlreadyInRoom) && final(self)@ == old(self)@,
            old(self)@.players.len() != 4 && !old(self)@.players.contains(player@) ==> r is Ok
                && final(self)@.players == old(self)@.players.push(player@) && final(self)@.host
                == old(self)@.host,
            lobby_ok(old(self)@) ==> lobby_ok(final(self)@),
    {
        if self.players.len() == 4 {
            return Err(LobbyError::RoomFull);
        }
        if contains_text(&self.players, player.as_str()) {
            return Err(LobbyError::PlayerAlreadyInRoom);
        }
        let ghost before = self@;
        self.players.push(player);
        proof {
            assert(self@.players == before.players.push(player@));
            if lobby_ok(before) {
                assert(self@.players.contains(before.host)) by {
                    let k = choose|k: int| 0 <= k < before.players.len() && before.players[k] == before.host;
                    assert(self@.players[k] == before.host);
                }
            }
        }
        Ok(())
    }

    /// Removes a player and makes the first remaining player the host, whom it returns.
    /// Refused when the player is not in the lobby.
    pub fn remove_player(&mut self, player: &str) -> (r: Result<String, LobbyError>)
        requires
            old(self)@.players.contains(player@) ==> without(old(self)@.players, player@).len() > 0,
        ensures
            !old(self)@.players.contains(player@) ==> r == Err::<String, LobbyError>(
                LobbyError::PlayerNotInRoom,
            ) && final(self)@ == old(self)@,
            old(self)@.players.contains(player@) ==> (r matches Ok(h) && final(self)@.players
                == without(old(self)@.players, player@) && final(self)@.host
                == final(self)@.players[0] && h@ == final(self)@.host),
            lobby_ok(old(self)@) && old(self)@.players.contains(player@) ==> lobby_ok(final(self)@),
    {
        if !contains_text(&self.players, player) {
            return Err(LobbyError::PlayerNotInRoom);
        }
        let ghost before = self@;
        self.players = strings_without(&self.players, player);
        proof {
            assert(texts(self.players@)[0] == self.players@[0]@);
        }
        self.host = self.players[0].clone();
        proof {
            let pred = differs_from(player@);
            before.players.filter_lemma(pred);
            if lobby_ok(before) {
                lemma_filter_no_duplicates(before.players, pred);
                assert(self@.players.contains(self@.host)) by {
                    assert(self@.players[0] == self@.host);
                }
            }
        }
        Ok(self.host.clone())
    }

    /// The host.
    pub fn host(&self) -> (h: String)
        ensures
            h@ == self@.host,
    {
        self.host.clone()
    }

    /// The players, in order of arrival.
    pub fn players(&self) -> (p: Vec<String>)
        ensures
            texts(p@) == self@.players,
    {
        copy_strings(&self.players)
    }

    /// Whether the game can start: four players are in.
    pub fn can_start(&self) -> (b: bool)
        ensures
            b == (self@.players.len() == 4),
    {
        self.players.len() == 4
    }
}

/// Filtering keeps a sequence free of duplicates and never makes it longer.
proof fn lemma_filter_no_duplicates(s: Seq<Seq<char>>, pred: spec_fn(Seq<char>) -> bool)
    requires
        s.no_duplicates(),
    ensures
        s.filter(pred).no_duplicates(),
        s.filter(pred).len() <= s.len(),
    decreases s.len(),
{
    reveal(Seq::filter);
    if s.len() > 0 {
        let pre = s.drop_last();
        assert(pre.no_duplicates());
        lemma_filter_no_duplicates(pre, pred);
        if pred(s.last()) {
            let f = pre.filter(pred);
            assert(!f.contains(s.last())) by {
                if f.contains(s.last()) {
                    pre.lemma_filter_contains_rev(pred, s.last());
                    let k = choose|k: int| 0 <= k < pre.len() && pre[k] == s.last();
                    assert(s[k] == s[s.len() - 1]);
                }
            }
            assert(f.push(s.last()).no_duplicates()) by {
                assert forall|i: int, j: int| 0 <= i < j < f.len() + 1 implies f.push(s.last())[i] != f.push(s.last())[j] by {
                    if j == f.len() {
                        assert(f.push(s.last())[i] == f[i]);
                    }
                }
            }
        }
    }
}

} // verus!
