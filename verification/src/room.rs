use vstd::prelude::*;

use petname::Generator;

use crate::bot::is_bot_id;
use crate::errors::AppError;
use crate::text::{contains_text, copy_strings, differs_from, strings_without, texts, without};

verus! {

/// A room where players gather: its id, its host, its status ("ONLINE" or "OFFLINE"), the
/// players in it and those of them ready to start.
#[derive(Debug, Clone)]
pub struct RoomModel {
    pub id: String,
    pub host_uuid: Option<String>,
    pub status: String,
    pub player_uuids: Vec<String>,
    pub ready_players: Vec<String>,
}

/// The value of a room.
pub struct RoomView {
    pub id: Seq<char>,
    pub host_uuid: Option<Seq<char>>,
    pub status: Seq<char>,
    pub player_uuids: Seq<Seq<char>>,
    pub ready_players: Seq<Seq<char>>,
}

/// The text of an optional string.
pub open spec fn opt_text(o: Option<String>) -> Option<Seq<char>> {
    match o {
        Some(s) => Some(s@),
        None => None,
    }
}

impl View for RoomModel {
    type V = RoomView;

    open spec fn view(&self) -> RoomView {
        RoomView {
            id: self.id@,
            host_uuid: opt_text(self.host_uuid),
            status: self.status@,
            player_uuids: texts(self.player_uuids@),
            ready_players: texts(self.ready_players@),
        }
    }
}

/// A room in good order: no player twice, and only players of the room are ready, each once.
pub open spec fn room_ok(r: RoomView) -> bool {
    &&& r.player_uuids.no_duplicates()
    &&& r.ready_players.no_duplicates()
    &&& forall|k: int|
        0 <= k < r.ready_players.len() ==> r.player_uuids.contains(#[trigger] r.ready_players[k])
}

/// The room after `player` toggles readiness: a ready player becomes not ready, and any
/// other player of the room becomes ready.
pub open spec fn toggled_ready(r: RoomView, player: Seq<char>) -> RoomView {
    RoomView {
        ready_players: if r.ready_players.contains(player) {
            without(r.ready_players, player)
        } else if r.player_uuids.contains(player) {
            r.ready_players.push(player)
        } else {
            r.ready_players
        },
        ..r
    }
}

/// The room after `player` is set ready (if in the room) or not ready.
pub open spec fn with_ready(r: RoomView, player: Seq<char>, is_ready: bool) -> RoomView {
    RoomView {
        ready_players: if !is_ready {
            without(r.ready_players, player)
        } else if r.player_uuids.contains(player) && !r.ready_players.contains(player) {
            r.ready_players.push(player)
        } else {
            r.ready_players
        },
        ..r
    }
}

/// The room with nobody ready.
pub open spec fn cleared(r: RoomView) -> RoomView {
    RoomView { ready_players: Seq::<Seq<char>>::empty(), ..r }
}

/// A word of the default word lists: one or more lowercase ASCII letters.
pub open spec fn is_pet_word(w: Seq<char>) -> bool {
    &&& w.len() > 0
    &&& forall|i: int| 0 <= i < w.len() ==> 'a' <= #[trigger] w[i] && w[i] <= 'z'
}

/// The words one after the other, with `separator` between each two.
pub open spec fn joined(words: Seq<Seq<char>>, separator: Seq<char>) -> Seq<char>
    decreases words.len(),
{
    if words.len() == 0 {
        Seq::empty()
    } else if words.len() == 1 {
        words[0]
    } else {
        joined(words.drop_last(), separator) + separator + words.last()
    }
}

/// `name` is `count` words of the default word lists joined by `separator`.
pub open spec fn is_pet_name(name: Seq<char>, count: nat, separator: Seq<char>) -> bool {
    exists|words: Seq<Seq<char>>|
        #![trigger joined(words, separator)]
        {
            &&& words.len() == count
            &&& forall|i: int| 0 <= i < words.len() ==> is_pet_word(#[trigger] words[i])
            &&& name == joined(words, separator)
        }
}

/// A random name of `words` words joined by `separator`, from the default (medium) word lists
/// (`petname::Petnames::default().generate_one`, which uses the thread's random number
/// generator). Each word list is a non-empty list of words of lowercase ASCII letters, and a pick
/// from a non-empty list always gives a word, so a name
/// of one word or more always comes back, made of exactly that many words; with no words the
/// name is empty and nothing comes back. Which words come out is left to chance.
#[verifier::external_body]
pub(crate) fn pet_name(words: u8, separator: &str) -> (r: Option<String>)
    ensures
        words == 0 ==> r is None,
        words >= 1 ==> r is Some,
        r matches Some(s) ==> is_pet_name(s@, words as nat, separator@),
{
    petname::Petnames::default().generate_one(words, separator)
}

/// A name of two words joined by `separator` is the first word, the separator and the second.
pub proof fn lemma_two_word_name(name: Seq<char>, separator: Seq<char>)
    requires
        is_pet_name(name, 2, separator),
    ensures
        exists|a: Seq<char>, b: Seq<char>|
            is_pet_word(a) && is_pet_word(b) && name == #[trigger] (a + separator + b),
{
    let words = choose|words: Seq<Seq<char>>|
        #![trigger joined(words, separator)]
        {
            &&& words.len() == 2
            &&& forall|i: int| 0 <= i < words.len() ==> is_pet_word(#[trigger] words[i])
            &&& name == joined(words, separator)
        };
    assert(words.drop_last() == seq![words[0]]);
    assert(joined(words.drop_last(), separator) == words[0]);
    assert(is_pet_word(words[0]) && is_pet_word(words[1]));
    assert(name == words[0] + separator + words[1]);
}

/// Filtering keeps a sequence free of duplicates.
pub proof fn lemma_without_no_duplicates(s: Seq<Seq<char>>, x: Seq<char>)
    requires
        s.no_duplicates(),
    ensures
        without(s, x).no_duplicates(),
        !without(s, x).contains(x),
        forall|y: Seq<char>| y != x ==> (without(s, x).contains(y) <==> s.contains(y)),
    decreases s.len(),
{
    reveal(Seq::filter);
    let pred = differs_from(x);
    if s.len() > 0 {
        let pre = s.drop_last();
        assert(pre.no_duplicates());
        lemma_without_no_duplicates(pre, x);
        let f = without(pre, x);
        assert(without(s, x) == if pred(s.last()) { f.push(s.last()) } else { f });
        assert forall|y: Seq<char>| y != x implies (without(s, x).contains(y) <==> s.contains(y)) by {
            if s.contains(y) {
                let k = choose|k: int| 0 <= k < s.len() && s[k] == y;
                if k < s.len() - 1 {
                    assert(pre[k] == y);
                    assert(pre.contains(y));
                    assert(f.contains(y));
                    let j = choose|j: int| 0 <= j < f.len() && f[j] == y;
                    if pred(s.last()) {
                        assert(f.push(s.last())[j] == y);
                    }
                } else {
                    assert(f.push(s.last())[f.len() as int] == y);
                }
            }
            if without(s, x).contains(y) {
                let j = choose|j: int| 0 <= j < without(s, x).len() && without(s, x)[j] == y;
                if pred(s.last()) && j == f.len() {
                    assert(s[s.len() - 1] == y);
                } else {
                    assert(f[j] == y);
                    assert(f.contains(y));
                    assert(pre.contains(y));
                    let k = choose|k: int| 0 <= k < pre.len() && pre[k] == y;
                    assert(s[k] == y);
                }
            }
        }
        if pred(s.last()) {
            assert(!f.contains(s.last())) by {
                if f.contains(s.last()) {
                    assert(pre.contains(s.last()));
                    let k = choose|k: int| 0 <= k < pre.len() && pre[k] == s.last();
                    assert(s[k] == s[s.len() - 1]);
                }
            }
            assert forall|i: int, j: int|
                0 <= i < j < f.len() + 1 implies f.push(s.last())[i] != f.push(s.last())[j] by {
                if j == f.len() {
                    assert(f.push(s.last())[i] == f[i]);
                }
            }
        }
        assert(!without(s, x).contains(x)) by {
            if without(s, x).contains(x) {
                let j = choose|j: int| 0 <= j < without(s, x).len() && without(s, x)[j] == x;
                if pred(s.last()) && j == f.len() {
                } else {
                    assert(f[j] == x);
                }
            }
        }
    } else {
        assert(without(s, x) == s);
    }
}

impl RoomModel {
    /// A new online room with a random id of two pet-name words written together, and the given
    /// host; the host joins the players later, like anyone else.
    pub fn new(host_uuid: String) -> (r: RoomModel)
        ensures
            r@.host_uuid == Some(host_uuid@),
            r@.status == "ONLINE"@,
            r@.player_uuids == Seq::<Seq<char>>::empty(),
            r@.ready_players == Seq::<Seq<char>>::empty(),
            is_pet_name(r@.id, 2, Seq::<char>::empty()),
    {
        proof {
            reveal_strlit("");
            assert(""@ =~= Seq::<char>::empty());
        }
        let id = match pet_name(2, "") {
            Some(name) => name,
            None => String::new(),
        };
        let r = RoomModel {
            id,
            host_uuid: Some(host_uuid),
            status: String::from_str("ONLINE"),
            player_uuids: Vec::new(),
            ready_players: Vec::new(),
        };
        proof {
            assert(texts(r.player_uuids@) == Seq::<Seq<char>>::empty());
            assert(texts(r.ready_players@) == Seq::<Seq<char>>::empty());
        }
        r
    }

    /// A copy of the room.
    pub fn duplicate(&self) -> (r: RoomModel)
        ensures
            r@ == self@,
    {
        let host_uuid = match &self.host_uuid {
            Some(h) => Some(h.clone()),
            None => None,
        };
        RoomModel {
            id: self.id.clone(),
            host_uuid,
            status: self.status.clone(),
            player_uuids: copy_strings(&self.player_uuids),
            ready_players: copy_strings(&self.ready_players),
        }
    }

    /// The number of players, as a 32-bit signed number.
    pub fn get_player_count(&self) -> (n: i32)
        ensures
            n == self@.player_uuids.len() as i32,
    {
        self.player_uuids.len() as i32
    }

    /// Whether the room holds four players or more.
    pub fn is_full(&self) -> (b: bool)
        ensures
            b == (self@.player_uuids.len() >= 4),
    {
        self.player_uuids.len() >= 4
    }

    /// Whether the player is in the room.
    pub fn has_player(&self, player_uuid: &str) -> (b: bool)
        ensures
            b == self@.player_uuids.contains(player_uuid@),
    {
        contains_text(&self.player_uuids, player_uuid)
    }

    /// The players in the room, in order of arrival.
    pub fn get_player_uuids(&self) -> (r: &Vec<String>)
        ensures
            texts(r@) == self@.player_uuids,
    {
        &self.player_uuids
    }

    /// Adds the player, unless already in the room.
    pub fn add_player(&mut self, player_uuid: String)
        ensures
            final(self)@ == (RoomView {
                player_uuids: if old(self)@.player_uuids.contains(player_uuid@) {
                    old(self)@.player_uuids
                } else {
                    old(self)@.player_uuids.push(player_uuid@)
                },
                ..old(self)@
            }),
    {
        if !self.has_player(player_uuid.as_str()) {
            self.player_uuids.push(player_uuid);
            proof {
                assert(texts(self.player_uuids@) == texts(old(self).player_uuids@).push(
                    player_uuid@,
                ));
            }
        }
    }

    /// Removes the player from the room and from the ready players.
    pub fn remove_player(&mut self, player_uuid: &str)
        ensures
            final(self)@ == (RoomView {
                player_uuids: without(old(self)@.player_uuids, player_uuid@),
                ready_players: without(old(self)@.ready_players, player_uuid@),
                ..old(self)@
            }),
    {
        self.player_uuids = strings_without(&self.player_uuids, player_uuid);
        self.ready_players = strings_without(&self.ready_players, player_uuid);
    }

    /// Marks the player ready, if in the room and not ready yet.
    pub fn mark_ready(&mut self, player_uuid: &str)
        ensures
            final(self)@ == with_ready(old(self)@, player_uuid@, true),
    {
        if self.has_player(player_uuid) && !self.is_ready(player_uuid) {
            self.ready_players.push(player_uuid.to_string());
            proof {
                assert(texts(self.ready_players@) == texts(old(self).ready_players@).push(
                    player_uuid@,
                ));
            }
        }
    }

    /// Marks the player not ready.
    pub fn mark_unready(&mut self, player_uuid: &str)
        ensures
            final(self)@ == (RoomView {
                ready_players: without(old(self)@.ready_players, player_uuid@),
                ..old(self)@
            }),
    {
        self.ready_players = strings_without(&self.ready_players, player_uuid);
    }

    /// Marks a ready player not ready, and any other player ready (if in the room).
    pub fn toggle_ready(&mut self, player_uuid: &str)
        ensures
            final(self)@ == toggled_ready(old(self)@, player_uuid@),
    {
        if self.is_ready(player_uuid) {
            self.mark_unready(player_uuid);
        } else {
            self.mark_ready(player_uuid);
        }
    }

    /// Marks the player ready (if in the room) or not ready.
    pub fn set_ready(&mut self, player_uuid: &str, is_ready: bool)
        ensures
            final(self)@ == with_ready(old(self)@, player_uuid@, is_ready),
    {
        if is_ready {
            self.mark_ready(player_uuid);
        } else {
            self.mark_unready(player_uuid);
        }
    }

    /// Whether the player is ready.
    pub fn is_ready(&self, player_uuid: &str) -> (b: bool)
        ensures
            b == self@.ready_players.contains(player_uuid@),
    {
        contains_text(&self.ready_players, player_uuid)
    }

    /// The ready players, in the order they got ready.
    pub fn get_ready_players(&self) -> (r: &Vec<String>)
        ensures
            texts(r@) == self@.ready_players,
    {
        &self.ready_players
    }

    /// Marks every player not ready (when the game starts).
    pub fn clear_ready_states(&mut self)
        ensures
            final(self)@ == cleared(old(self)@),
    {
        self.ready_players.clear();
        proof {
            assert(texts(self.ready_players@) == Seq::<Seq<char>>::empty());
        }
    }
}

// ----------------------------------------------------------------------------
// The store of rooms
// ----------------------------------------------------------------------------
/// What joining a room gave.
#[derive(Debug, Clone)]
pub enum JoinRoomResult {
    /// Joined (or already in): the room as it now is.
    Success(RoomModel),
    /// The room already holds four players.
    RoomFull,
    /// There is no such room.
    RoomNotFound,
}

/// What leaving a room gave.
#[derive(Debug, Clone)]
pub enum LeaveRoomResult {
    /// Left: the room as it now is.
    Success(RoomModel),
    /// The player was not in the room.
    PlayerNotInRoom,
    /// There is no such room.
    RoomNotFound,
    /// The room was deleted: no one, or only bots, remained.
    RoomDeleted,
}

/// The value of a join result.
pub enum JoinView {
    Success(RoomView),
    RoomFull,
    RoomNotFound,
}

/// The value of a leave result.
pub enum LeaveView {
    Success(RoomView),
    PlayerNotInRoom,
    RoomNotFound,
    RoomDeleted,
}

impl View for JoinRoomResult {
    type V = JoinView;

    open spec fn view(&self) -> JoinView {
        match self {
            JoinRoomResult::Success(r) => JoinView::Success(r@),
            JoinRoomResult::RoomFull => JoinView::RoomFull,
            JoinRoomResult::RoomNotFound => JoinView::RoomNotFound,
        }
    }
}

impl View for LeaveRoomResult {
    type V = LeaveView;

    open spec fn view(&self) -> LeaveView {
        match self {
            LeaveRoomResult::Success(r) => LeaveView::Success(r@),
            LeaveRoomResult::PlayerNotInRoom => LeaveView::PlayerNotInRoom,
            LeaveRoomResult::RoomNotFound => LeaveView::RoomNotFound,
            LeaveRoomResult::RoomDeleted => LeaveView::RoomDeleted,
        }
    }
}

/// No two rooms share an id.
pub open spec fn ids_unique(rooms: Seq<RoomView>) -> bool {
    forall|i: int, j: int|
        0 <= i < rooms.len() && 0 <= j < rooms.len() && i != j ==> #[trigger] rooms[i].id
            != #[trigger] rooms[j].id
}

/// Where the room with this id stands, if there is one.
pub open spec fn find_room(rooms: Seq<RoomView>, id: Seq<char>) -> Option<int> {
    if exists|i: int| 0 <= i < rooms.len() && #[trigger] rooms[i].id == id {
        Some(choose|i: int| 0 <= i < rooms.len() && #[trigger] rooms[i].id == id)
    } else {
        None
    }
}

/// Every identifier is a bot's.
pub open spec fn all_bots(ids: Seq<Seq<char>>) -> bool {
    forall|k: int| 0 <= k < ids.len() ==> is_bot_id(#[trigger] ids[k])
}

/// The first identifier that is not a bot's, if any.
pub open spec fn first_human(ids: Seq<Seq<char>>) -> Option<Seq<char>>
    decreases ids.len(),
{
    if ids.len() == 0 {
        None
    } else if !is_bot_id(ids[0]) {
        Some(ids[0])
    } else {
        first_human(ids.drop_first())
    }
}

/// What a player joining the room `id` does to the rooms, and what it gives. A player already
/// in the room just gets the room back (even when it is full); a room of four refuses anyone
/// else; otherwise the player is added.
pub open spec fn join_outcome(rooms: Seq<RoomView>, id: Seq<char>, player: Seq<char>) -> (
    Seq<RoomView>,
    JoinView,
) {
    match find_room(rooms, id) {
        None => (rooms, JoinView::RoomNotFound),
        Some(i) => {
            let r = rooms[i];
            if r.player_uuids.contains(player) {
                (rooms, JoinView::Success(r))
            } else if r.player_uuids.len() >= 4 {
                (rooms, JoinView::RoomFull)
            } else {
                let r2 = RoomView { player_uuids: r.player_uuids.push(player), ..r };
                (rooms.update(i, r2), JoinView::Success(r2))
            }
        },
    }
}

/// What a player leaving the room `id` does to the rooms, and what it gives. The player leaves
/// the players and the ready players; a room left with no one, or with bots only, is deleted;
/// a host who leaves hands the room to the first remaining player who is not a bot.
pub open spec fn leave_outcome(rooms: Seq<RoomView>, id: Seq<char>, player: Seq<char>) -> (
    Seq<RoomView>,
    LeaveView,
) {
    match find_room(rooms, id) {
        None => (rooms, LeaveView::RoomNotFound),
        Some(i) => {
            let r = rooms[i];
            if !r.player_uuids.contains(player) {
                (rooms, LeaveView::PlayerNotInRoom)
            } else {
                let left = without(r.player_uuids, player);
                if left.len() == 0 || all_bots(left) {
                    (rooms.remove(i), LeaveView::RoomDeleted)
                } else {
                    let r2 = RoomView {
                        player_uuids: left,
                        ready_players: without(r.ready_players, player),
                        host_uuid: if r.host_uuid == Some(player) {
                            first_human(left)
                        } else {
                            r.host_uuid
                        },
                        ..r
                    };
                    (rooms.update(i, r2), LeaveView::Success(r2))
                }
            }
        },
    }
}

/// What a change to one room does to the rooms: nothing when there is no such room (which is
/// refused as not found), otherwise the room is changed by `f`.
pub open spec fn change_room(
    rooms: Seq<RoomView>,
    id: Seq<char>,
    f: spec_fn(RoomView) -> RoomView,
) -> Seq<RoomView> {
    match find_room(rooms, id) {
        None => rooms,
        Some(i) => rooms.update(i, f(rooms[i])),
    }
}

/// The rooms, kept in memory: at most one room per id.
pub struct InMemoryRoomRepository {
    rooms: Vec<RoomModel>,
}

/// The values of a sequence of rooms.
pub open spec fn room_views(rooms: Seq<RoomModel>) -> Seq<RoomView> {
    rooms.map_values(|r: RoomModel| r@)
}

impl View for InMemoryRoomRepository {
    type V = Seq<RoomView>;

    closed spec fn view(&self) -> Seq<RoomView> {
        room_views(self.rooms@)
    }
}

impl InMemoryRoomRepository {
    #[verifier::type_invariant]
    spec fn ids_are_unique(self) -> bool {
        ids_unique(room_views(self.rooms@))
    }

    /// An empty store.
    pub fn new() -> (r: InMemoryRoomRepository)
        ensures
            r@ == Seq::<RoomView>::empty(),
            ids_unique(r@),
    {
        let r = InMemoryRoomRepository { rooms: Vec::new() };
        proof {
            assert(room_views(r.rooms@) == Seq::<RoomView>::empty());
        }
        r
    }

    /// Where the room with this id stands, if there is one.
    fn position(&self, room_id: &str) -> (r: Option<usize>)
        ensures
            match r {
                Some(i) => i < self.rooms@.len() && find_room(self@, room_id@) == Some(i as int),
                None => find_room(self@, room_id@) is None,
            },
    {
        proof {
            use_type_invariant(self);
        }
        let target = String::from_str(room_id);
        let ghost rv = self@;
        let mut i: usize = 0;
        while i < self.rooms.len()
            invariant
                i <= self.rooms@.len(),
                target@ == room_id@,
                rv == room_views(self.rooms@),
                ids_unique(rv),
                forall|j: int| 0 <= j < i ==> #[trigger] rv[j].id != room_id@,
            decreases self.rooms@.len() - i,
        {
            proof {
                assert(rv[i as int] == self.rooms@[i as int]@);
            }
            if self.rooms[i].id == target {
                proof {
                    assert(rv[i as int].id == room_id@);
                    let c = choose|j: int| 0 <= j < rv.len() && #[trigger] rv[j].id == room_id@;
                    assert(ids_unique(rv));
                    if c != i {
                        assert(rv[c].id != rv[i as int].id);
                    }
                }
                return Some(i);
            }
            i = i + 1;
        }
        None
    }
}

/// Every identifier is a bot's.
fn only_bots(ids: &Vec<String>) -> (b: bool)
    ensures
        b == all_bots(texts(ids@)),
{
    let ghost t = texts(ids@);
    let mut i: usize = 0;
    while i < ids.len()
        invariant
            i <= ids@.len(),
            t == texts(ids@),
            forall|k: int| 0 <= k < i ==> is_bot_id(#[trigger] t[k]),
        decreases ids@.len() - i,
    {
        if !crate::bot::BotPlayer::is_bot_uuid(ids[i].as_str()) {
            proof {
                assert(t[i as int] == ids@[i as int]@);
            }
            return false;
        }
        i = i + 1;
    }
    true
}

/// The first identifier that is not a bot's, if any.
fn first_human_of(ids: &Vec<String>) -> (r: Option<String>)
    ensures
        opt_text(r) == first_human(texts(ids@)),
{
    let ghost t = texts(ids@);
    let mut i: usize = 0;
    proof {
        assert(t.skip(0) == t);
    }
    while i < ids.len()
        invariant
            i <= ids@.len(),
            t == texts(ids@),
            first_human(t) == first_human(t.skip(i as int)),
        decreases ids@.len() - i,
    {
        proof {
            assert(t.skip(i as int)[0] == ids@[i as int]@);
            assert(t.skip(i as int).drop_first() == t.skip(i + 1));
        }
        if !crate::bot::BotPlayer::is_bot_uuid(ids[i].as_str()) {
            return Some(ids[i].clone());
        }
        i = i + 1;
    }
    proof {
        assert(t.skip(i as int) == Seq::<Seq<char>>::empty());
    }
    None
}

/// The error for a missing room.
fn room_not_found() -> (e: AppError)
    ensures
        e matches AppError::NotFound(m) && m@ == "Room not found"@,
{
    AppError::NotFound(String::from_str("Room not found"))
}

/// Where rooms are kept.
pub trait RoomRepository {
    /// Adds a room; refused when a room with its id exists.
    fn create_room(&mut self, room: &RoomModel) -> Result<(), AppError>;

    /// The room with this id, if any.
    fn get_room(&self, room_id: &str) -> Result<Option<RoomModel>, AppError>;

    /// All the rooms.
    fn list_rooms(&self) -> Result<Vec<RoomModel>, AppError>;

    /// Joins a player to a room (see `join_outcome`).
    fn try_join_room(&mut self, room_id: &str, player_uuid: &str) -> Result<
        JoinRoomResult,
        AppError,
    >;

    /// Takes a player out of a room (see `leave_outcome`).
    fn leave_room(&mut self, room_id: &str, player_uuid: &str) -> Result<
        LeaveRoomResult,
        AppError,
    >;

    /// Toggles a player's readiness in a room.
    fn toggle_ready(&mut self, room_id: &str, player_uuid: &str) -> Result<(), AppError>;

    /// Sets a player's readiness in a room.
    fn set_ready(&mut self, room_id: &str, player_uuid: &str, is_ready: bool) -> Result<
        (),
        AppError,
    >;

    /// Marks everyone in a room not ready.
    fn clear_ready_states(&mut self, room_id: &str) -> Result<(), AppError>;
}

impl RoomRepository for InMemoryRoomRepository {
    fn create_room(&mut self, room: &RoomModel) -> (r: Result<(), AppError>)
        ensures
            find_room(old(self)@, room@.id) is Some ==> (r matches Err(AppError::DatabaseError(m))
                && m@ == "Room already exists"@ && final(self)@ == old(self)@),
            find_room(old(self)@, room@.id) is None ==> r is Ok && final(self)@ == old(self)@.push(
                room@,
            ),
    {
        proof {
            use_type_invariant(&*self);
        }
        if self.position(room.id.as_str()).is_some() {
            return Err(AppError::DatabaseError(String::from_str("Room already exists")));
        }
        let ghost before = self@;
        let copy = room.duplicate();
        proof {
            assert(room_views(self.rooms@.push(copy)) == before.push(room@));
            assert forall|i: int| 0 <= i < before.len() implies #[trigger] before[i].id != room@.id by {
                if before[i].id == room@.id {
                    assert(exists|j: int| 0 <= j < before.len() && #[trigger] before[j].id == room@.id);
                }
            }
        }
        let mut rooms: Vec<RoomModel> = Vec::new();
        std::mem::swap(&mut rooms, &mut self.rooms);
        rooms.push(copy);
        self.rooms = rooms;
        Ok(())
    }

    fn get_room(&self, room_id: &str) -> (r: Result<Option<RoomModel>, AppError>)
        ensures
            r matches Ok(o) && match find_room(self@, room_id@) {
                Some(i) => o matches Some(room) && room@ == self@[i],
                None => o is None,
            },
            ids_unique(self@),
    {
        proof {
            use_type_invariant(self);
        }
        match self.position(room_id) {
            Some(i) => {
                let room = self.rooms[i].duplicate();
                proof {
                    assert(self@[i as int] == self.rooms@[i as int]@);
                }
                Ok(Some(room))
            },
            None => Ok(None),
        }
    }

    fn list_rooms(&self) -> (r: Result<Vec<RoomModel>, AppError>)
        ensures
            r matches Ok(v) && room_views(v@) == self@,
            ids_unique(self@),
    {
        proof {
            use_type_invariant(self);
        }
        let mut out: Vec<RoomModel> = Vec::new();
        let mut i: usize = 0;
        while i < self.rooms.len()
            invariant
                i <= self.rooms@.len(),
                out@.len() == i,
                forall|k: int| 0 <= k < i ==> (#[trigger] out@[k])@ == self.rooms@[k]@,
            decreases self.rooms@.len() - i,
        {
            out.push(self.rooms[i].duplicate());
            i = i + 1;
        }
        proof {
            assert(room_views(out@) == room_views(self.rooms@));
        }
        Ok(out)
    }

    fn try_join_room(&mut self, room_id: &str, player_uuid: &str) -> (r: Result<
        JoinRoomResult,
        AppError,
    >)
        ensures
            r matches Ok(j) && (final(self)@, j@) == join_outcome(old(self)@, room_id@, player_uuid@),
    {
        proof {
            use_type_invariant(&*self);
        }
        let ghost before = self@;
        let i = match self.position(room_id) {
            None => {
                return Ok(JoinRoomResult::RoomNotFound);
            },
            Some(i) => i,
        };
        proof {
            assert(before[i as int] == self.rooms@[i as int]@);
        }
        if self.rooms[i].has_player(player_uuid) {
            return Ok(JoinRoomResult::Success(self.rooms[i].duplicate()));
        }
        if self.rooms[i].is_full() {
            return Ok(JoinRoomResult::RoomFull);
        }
        let mut room = self.rooms[i].duplicate();
        room.add_player(player_uuid.to_string());
        let out = room.duplicate();
        proof {
            assert(room_views(self.rooms@.update(i as int, room)) == before.update(i as int, room@));
            assert forall|a: int, b: int|
                0 <= a < before.len() && 0 <= b < before.len() && a != b implies #[trigger] before.update(i as int, room@)[a].id
                    != #[trigger] before.update(i as int, room@)[b].id by {
                assert(before[a].id != before[b].id);
            }
        }
        let mut rooms: Vec<RoomModel> = Vec::new();
        std::mem::swap(&mut rooms, &mut self.rooms);
        rooms.set(i, room);
        self.rooms = rooms;
        Ok(JoinRoomResult::Success(out))
    }

    fn leave_room(&mut self, room_id: &str, player_uuid: &str) -> (r: Result<
        LeaveRoomResult,
        AppError,
    >)
        ensures
            r matches Ok(l) && (final(self)@, l@) == leave_outcome(old(self)@, room_id@, player_uuid@),
    {
        proof {
            use_type_invariant(&*self);
        }
        let ghost before = self@;
        let i = match self.position(room_id) {
            None => {
                return Ok(LeaveRoomResult::RoomNotFound);
            },
            Some(i) => i,
        };
        proof {
            assert(before[i as int] == self.rooms@[i as int]@);
        }
        if !self.rooms[i].has_player(player_uuid) {
            return Ok(LeaveRoomResult::PlayerNotInRoom);
        }
        let mut room = self.rooms[i].duplicate();
        room.remove_player(player_uuid);
        if room.player_uuids.len() == 0 || only_bots(&room.player_uuids) {
            proof {
                assert(room_views(self.rooms@.remove(i as int)) == before.remove(i as int));
                assert forall|a: int, b: int|
                    0 <= a < before.len() - 1 && 0 <= b < before.len() - 1 && a != b implies #[trigger] before.remove(i as int)[a].id
                        != #[trigger] before.remove(i as int)[b].id by {
                    let a2 = if a < i { a } else { a + 1 };
                    let b2 = if b < i { b } else { b + 1 };
                    assert(before[a2].id != before[b2].id);
                }
            }
            let mut rooms: Vec<RoomModel> = Vec::new();
            std::mem::swap(&mut rooms, &mut self.rooms);
            rooms.remove(i);
            self.rooms = rooms;
            return Ok(LeaveRoomResult::RoomDeleted);
        }
        let leaver = String::from_str(player_uuid);
        let host_left = match &room.host_uuid {
            Some(h) => *h == leaver,
            None => false,
        };
        if host_left {
            room.host_uuid = first_human_of(&room.player_uuids);
        }
        let out = room.duplicate();
        proof {
            assert(room_views(self.rooms@.update(i as int, room)) == before.update(i as int, room@));
            assert forall|a: int, b: int|
                0 <= a < before.len() && 0 <= b < before.len() && a != b implies #[trigger] before.update(i as int, room@)[a].id
                    != #[trigger] before.update(i as int, room@)[b].id by {
                assert(before[a].id != before[b].id);
            }
        }
        let mut rooms: Vec<RoomModel> = Vec::new();
        std::mem::swap(&mut rooms, &mut self.rooms);
        rooms.set(i, room);
        self.rooms = rooms;
        Ok(LeaveRoomResult::Success(out))
    }

    fn toggle_ready(&mut self, room_id: &str, player_uuid: &str) -> (r: Result<(), AppError>)
        ensures
            find_room(old(self)@, room_id@) is None ==> (r matches Err(AppError::NotFound(m)) && m@
                == "Room not found"@ && final(self)@ == old(self)@),
            find_room(old(self)@, room_id@) is Some ==> r is Ok && final(self)@ == change_room(
                old(self)@,
                room_id@,
                |v: RoomView| toggled_ready(v, player_uuid@),
            ),
    {
        proof {
            use_type_invariant(&*self);
        }
        let ghost before = self@;
        let i = match self.position(room_id) {
            None => {
                return Err(room_not_found());
            },
            Some(i) => i,
        };
        let mut room = self.rooms[i].duplicate();
        room.toggle_ready(player_uuid);
        proof {
            assert(before[i as int] == self.rooms@[i as int]@);
            assert(room_views(self.rooms@.update(i as int, room)) == before.update(i as int, room@));
            assert forall|a: int, b: int|
                0 <= a < before.len() && 0 <= b < before.len() && a != b implies #[trigger] before.update(i as int, room@)[a].id
                    != #[trigger] before.update(i as int, room@)[b].id by {
                assert(before[a].id != before[b].id);
            }
        }
        let mut rooms: Vec<RoomModel> = Vec::new();
        std::mem::swap(&mut rooms, &mut self.rooms);
        rooms.set(i, room);
        self.rooms = rooms;
        Ok(())
    }

    fn set_ready(&mut self, room_id: &str, player_uuid: &str, is_ready: bool) -> (r: Result<
        (),
        AppError,
    >)
        ensures
            find_room(old(self)@, room_id@) is None ==> (r matches Err(AppError::NotFound(m)) && m@
                == "Room not found"@ && final(self)@ == old(self)@),
            find_room(old(self)@, room_id@) is Some ==> r is Ok && final(self)@ == change_room(
                old(self)@,
                room_id@,
                |v: RoomView| with_ready(v, player_uuid@, is_ready),
            ),
    {
        proof {
            use_type_invariant(&*self);
        }
        let ghost before = self@;
        let i = match self.position(room_id) {
            None => {
                return Err(room_not_found());
            },
            Some(i) => i,
        };
        let mut room = self.rooms[i].duplicate();
        room.set_ready(player_uuid, is_ready);
        proof {
            assert(before[i as int] == self.rooms@[i as int]@);
            assert(room_views(self.rooms@.update(i as int, room)) == before.update(i as int, room@));
            assert forall|a: int, b: int|
                0 <= a < before.len() && 0 <= b < before.len() && a != b implies #[trigger] before.update(i as int, room@)[a].id
                    != #[trigger] before.update(i as int, room@)[b].id by {
                assert(before[a].id != before[b].id);
            }
        }
        let mut rooms: Vec<RoomModel> = Vec::new();
        std::mem::swap(&mut rooms, &mut self.rooms);
        rooms.set(i, room);
        self.rooms = rooms;
        Ok(())
    }

    fn clear_ready_states(&mut self, room_id: &str) -> (r: Result<(), AppError>)
        ensures
            find_room(old(self)@, room_id@) is None ==> (r matches Err(AppError::NotFound(m)) && m@
                == "Room not found"@ && final(self)@ == old(self)@),
            find_room(old(self)@, room_id@) is Some ==> r is Ok && final(self)@ == change_room(
                old(self)@,
                room_id@,
                |v: RoomView| cleared(v),
            ),
    {
        proof {
            use_type_invariant(&*self);
        }
        let ghost before = self@;
        let i = match self.position(room_id) {
            None => {
                return Err(room_not_found());
            },
            Some(i) => i,
        };
        let mut room = self.rooms[i].duplicate();
        room.clear_ready_states();
        proof {
            assert(before[i as int] == self.rooms@[i as int]@);
            assert(room_views(self.rooms@.update(i as int, room)) == before.update(i as int, room@));
            assert forall|a: int, b: int|
                0 <= a < before.len() && 0 <= b < before.len() && a != b implies #[trigger] before.update(i as int, room@)[a].id
                    != #[trigger] before.update(i as int, room@)[b].id by {
                assert(before[a].id != before[b].id);
            }
        }
        let mut rooms: Vec<RoomModel> = Vec::new();
        std::mem::swap(&mut rooms, &mut self.rooms);
        rooms.set(i, room);
        self.rooms = rooms;
        Ok(())
    }
}

// ----------------------------------------------------------------------------
// Laws of rooms
// ----------------------------------------------------------------------------
/// The room found for an id has that id, and with ids unique it is the only one.
pub proof fn lemma_find_room(rooms: Seq<RoomView>, id: Seq<char>)
    requires
        ids_unique(rooms),
    ensures
        match find_room(rooms, id) {
            Some(i) => 0 <= i < rooms.len() && rooms[i].id == id && forall|j: int|
                0 <= j < rooms.len() && #[trigger] rooms[j].id == id ==> j == i,
            None => forall|j: int| 0 <= j < rooms.len() ==> #[trigger] rooms[j].id != id,
        },
{
}

/// Adding a player who is in the room and not yet ready to the ready players keeps a room in
/// good order.
proof fn lemma_push_ready_ok(r: RoomView, p: Seq<char>)
    requires
        room_ok(r),
        r.player_uuids.contains(p),
        !r.ready_players.contains(p),
    ensures
        room_ok(RoomView { ready_players: r.ready_players.push(p), ..r }),
{
    let t = r.ready_players.push(p);
    assert forall|i: int, j: int| 0 <= i < t.len() && 0 <= j < t.len() && i != j implies t[i]
        != t[j] by {
        if i < r.ready_players.len() && j < r.ready_players.len() {
            assert(t[i] == r.ready_players[i] && t[j] == r.ready_players[j]);
        } else if i < r.ready_players.len() {
            assert(t[i] == r.ready_players[i]);
        } else if j < r.ready_players.len() {
            assert(t[j] == r.ready_players[j]);
        }
    }
    assert forall|k: int| 0 <= k < t.len() implies r.player_uuids.contains(#[trigger] t[k]) by {
        if k < r.ready_players.len() {
            assert(t[k] == r.ready_players[k]);
        }
    }
}

/// Taking a player out of the ready players keeps a room in good order.
proof fn lemma_unready_ok(r: RoomView, p: Seq<char>)
    requires
        room_ok(r),
    ensures
        room_ok(RoomView { ready_players: without(r.ready_players, p), ..r }),
{
    lemma_without_no_duplicates(r.ready_players, p);
    let t = without(r.ready_players, p);
    assert forall|k: int| 0 <= k < t.len() implies r.player_uuids.contains(#[trigger] t[k]) by {
        assert(t.contains(t[k]));
        assert(r.ready_players.contains(t[k]));
        let j = choose|j: int| 0 <= j < r.ready_players.len() && r.ready_players[j] == t[k];
        assert(r.player_uuids.contains(r.ready_players[j]));
    }
}

/// Marking a player ready (`RoomModel::mark_ready`) keeps a room in good order and its
/// players, adds the player to the ready players only if in the room and not yet ready, and a
/// second time changes nothing.
pub proof fn lemma_mark_ready(r: RoomView, p: Seq<char>)
    requires
        room_ok(r),
    ensures
        room_ok(with_ready(r, p, true)),
        with_ready(r, p, true).player_uuids == r.player_uuids,
        with_ready(r, p, true).ready_players == if r.player_uuids.contains(p)
            && !r.ready_players.contains(p) {
            r.ready_players.push(p)
        } else {
            r.ready_players
        },
        with_ready(with_ready(r, p, true), p, true) == with_ready(r, p, true),
{
    if r.player_uuids.contains(p) && !r.ready_players.contains(p) {
        lemma_push_ready_ok(r, p);
        assert(r.ready_players.push(p)[r.ready_players.len() as int] == p);
    }
}

/// Toggling a player's readiness (`RoomModel::toggle_ready`) keeps a room in good order and
/// its players: the player is ready afterwards exactly when in the room and not ready before,
/// every other player keeps their readiness, and toggling twice gives a player of the room
/// their readiness back.
pub proof fn lemma_toggle_ready(r: RoomView, p: Seq<char>)
    requires
        room_ok(r),
    ensures
        room_ok(toggled_ready(r, p)),
        toggled_ready(r, p).player_uuids == r.player_uuids,
        toggled_ready(r, p).ready_players.contains(p) == (r.player_uuids.contains(p)
            && !r.ready_players.contains(p)),
        forall|q: Seq<char>|
            q != p ==> (#[trigger] toggled_ready(r, p).ready_players.contains(q)
                == r.ready_players.contains(q)),
        r.player_uuids.contains(p) ==> toggled_ready(toggled_ready(r, p), p).ready_players.contains(p)
            == r.ready_players.contains(p),
{
    let t = toggled_ready(r, p);
    if r.ready_players.contains(p) {
        lemma_unready_ok(r, p);
        lemma_without_no_duplicates(r.ready_players, p);
        let k = choose|k: int| 0 <= k < r.ready_players.len() && r.ready_players[k] == p;
        assert(r.player_uuids.contains(r.ready_players[k]));
    } else if r.player_uuids.contains(p) {
        lemma_push_ready_ok(r, p);
        assert(r.ready_players.push(p)[r.ready_players.len() as int] == p);
        assert forall|q: Seq<char>| q != p implies (#[trigger] t.ready_players.contains(q)
            == r.ready_players.contains(q)) by {
            if t.ready_players.contains(q) {
                let j = choose|j: int| 0 <= j < t.ready_players.len() && t.ready_players[j] == q;
                assert(j < r.ready_players.len());
                assert(r.ready_players[j] == q);
            }
            if r.ready_players.contains(q) {
                let j = choose|j: int| 0 <= j < r.ready_players.len() && r.ready_players[j] == q;
                assert(t.ready_players[j] == q);
            }
        }
    }
    if r.player_uuids.contains(p) {
        if t.ready_players.contains(p) {
            lemma_without_no_duplicates(t.ready_players, p);
        } else {
            assert(t.ready_players.push(p)[t.ready_players.len() as int] == p);
        }
    }
}

/// Joining never puts a fifth player in a room.
pub proof fn lemma_join_keeps_capacity(rooms: Seq<RoomView>, id: Seq<char>, player: Seq<char>)
    requires
        forall|i: int| 0 <= i < rooms.len() ==> (#[trigger] rooms[i]).player_uuids.len() <= 4,
    ensures
        forall|i: int|
            0 <= i < join_outcome(rooms, id, player).0.len() ==> (#[trigger] join_outcome(
                rooms,
                id,
                player,
            ).0[i]).player_uuids.len() <= 4,
{
}

/// Joining keeps the ids of the rooms, and so keeps them unique.
pub proof fn lemma_join_keeps_ids(rooms: Seq<RoomView>, id: Seq<char>, player: Seq<char>)
    requires
        ids_unique(rooms),
    ensures
        join_outcome(rooms, id, player).0.len() == rooms.len(),
        forall|i: int| 0 <= i < rooms.len() ==> (#[trigger] join_outcome(rooms, id, player).0[i]).id == rooms[i].id,
        ids_unique(join_outcome(rooms, id, player).0),
{
    let after = join_outcome(rooms, id, player).0;
    assert forall|a: int, b: int|
        0 <= a < after.len() && 0 <= b < after.len() && a != b implies #[trigger] after[a].id
            != #[trigger] after[b].id by {
        assert(rooms[a].id != rooms[b].id);
    }
}

/// After a successful join the player sits in the room, and the room given back is the room
/// as stored.
pub proof fn lemma_join_seats_player(rooms: Seq<RoomView>, id: Seq<char>, player: Seq<char>)
    requires
        ids_unique(rooms),
        join_outcome(rooms, id, player).1 is Success,
    ensures
        ({
            let (after, res) = join_outcome(rooms, id, player);
            &&& find_room(after, id) is Some
            &&& after[find_room(after, id)->Some_0].player_uuids.contains(player)
            &&& res->Success_0 == after[find_room(after, id)->Some_0]
        }),
{
    let (after, res) = join_outcome(rooms, id, player);
    lemma_find_room(rooms, id);
    lemma_join_keeps_ids(rooms, id, player);
    lemma_find_room(after, id);
    let i = find_room(rooms, id)->Some_0;
    assert(after[i].id == id);
    assert(find_room(after, id) == Some(i));
    if !rooms[i].player_uuids.contains(player) {
        assert(after[i].player_uuids.last() == player);
    }
}

/// Joining twice is joining once: the second join changes nothing and gives the same room.
pub proof fn lemma_join_idempotent(rooms: Seq<RoomView>, id: Seq<char>, player: Seq<char>)
    requires
        ids_unique(rooms),
        join_outcome(rooms, id, player).1 is Success,
    ensures
        join_outcome(join_outcome(rooms, id, player).0, id, player) == join_outcome(rooms, id, player),
{
    let (after, res) = join_outcome(rooms, id, player);
    lemma_find_room(rooms, id);
    lemma_join_keeps_ids(rooms, id, player);
    lemma_find_room(after, id);
    let i = find_room(rooms, id)->Some_0;
    assert(find_room(after, id) == Some(i));
    assert(after[i].player_uuids.contains(player)) by {
        if !rooms[i].player_uuids.contains(player) {
            assert(after[i].player_uuids[rooms[i].player_uuids.len() as int] == player);
        }
    }
}

/// A player who leaves a room is gone from it, players and ready players alike; a room that
/// stays has someone who is not a bot, and a host who left hands the room to such a player.
pub proof fn lemma_leave_removes_player(rooms: Seq<RoomView>, id: Seq<char>, player: Seq<char>)
    requires
        ids_unique(rooms),
        leave_outcome(rooms, id, player).1 is Success,
    ensures
        ({
            let r = leave_outcome(rooms, id, player).1->Success_0;
            &&& !r.player_uuids.contains(player)
            &&& !r.ready_players.contains(player)
            &&& !all_bots(r.player_uuids)
            &&& rooms[find_room(rooms, id)->Some_0].host_uuid == Some(player) ==> (r.host_uuid
                matches Some(h) && r.player_uuids.contains(h) && !is_bot_id(h))
            &&& r.id == id
        }),
{
    lemma_find_room(rooms, id);
    let i = find_room(rooms, id)->Some_0;
    let old_room = rooms[i];
    let left = without(old_room.player_uuids, player);
    let pred = differs_from(player);
    old_room.player_uuids.filter_lemma(pred);
    old_room.ready_players.filter_lemma(pred);
    lemma_first_human(left);
}

/// The first player who is not a bot is one of the players and not a bot; there is one unless
/// all are bots.
pub proof fn lemma_first_human(ids: Seq<Seq<char>>)
    ensures
        first_human(ids) matches Some(h) ==> ids.contains(h) && !is_bot_id(h),
        first_human(ids) is None <==> all_bots(ids),
    decreases ids.len(),
{
    if ids.len() > 0 {
        lemma_first_human(ids.drop_first());
        if is_bot_id(ids[0]) {
            if first_human(ids.drop_first()) is Some {
                let h = first_human(ids.drop_first())->Some_0;
                let k = choose|k: int| 0 <= k < ids.drop_first().len() && ids.drop_first()[k] == h;
                assert(ids[k + 1] == h);
            }
            if all_bots(ids.drop_first()) {
                assert forall|k: int| 0 <= k < ids.len() implies is_bot_id(#[trigger] ids[k]) by {
                    if k > 0 {
                        assert(ids[k] == ids.drop_first()[k - 1]);
                    }
                }
            }
            if all_bots(ids) {
                assert forall|k: int| 0 <= k < ids.drop_first().len() implies is_bot_id(#[trigger] ids.drop_first()[k]) by {
                    assert(ids.drop_first()[k] == ids[k + 1]);
                }
            }
        } else {
            assert(ids[0] == ids[0]);
            assert(!all_bots(ids)) by {
                assert(!is_bot_id(ids[0]));
            }
        }
    }
}

/// Every operation on rooms keeps each room in good order: no player twice, and the ready
/// players are players of the room, each once.
pub proof fn lemma_room_ops_keep_order(r: RoomView, player: Seq<char>, is_ready: bool)
    requires
        room_ok(r),
    ensures
        !r.player_uuids.contains(player) ==> room_ok(RoomView { player_uuids: r.player_uuids.push(player), ..r }),
        room_ok(RoomView {
            player_uuids: without(r.player_uuids, player),
            ready_players: without(r.ready_players, player),
            ..r
        }),
        room_ok(toggled_ready(r, player)),
        room_ok(with_ready(r, player, is_ready)),
        room_ok(cleared(r)),
{
    lemma_without_no_duplicates(r.player_uuids, player);
    lemma_without_no_duplicates(r.ready_players, player);
    let pred = differs_from(player);
    r.ready_players.filter_lemma(pred);
    let joined = r.player_uuids.push(player);
    if !r.player_uuids.contains(player) {
        assert forall|i: int, j: int| 0 <= i < j < joined.len() implies joined[i] != joined[j] by {
            if j == r.player_uuids.len() {
                assert(r.player_uuids[i] == joined[i]);
            }
        }
        assert forall|k: int| 0 <= k < r.ready_players.len() implies joined.contains(#[trigger] r.ready_players[k]) by {
            let m = choose|m: int| 0 <= m < r.player_uuids.len() && r.player_uuids[m] == r.ready_players[k];
            assert(joined[m] == r.ready_players[k]);
        }
    }
    let wp = without(r.player_uuids, player);
    let wr = without(r.ready_players, player);
    assert forall|k: int| 0 <= k < wr.len() implies wp.contains(#[trigger] wr[k]) by {
        assert(wr.contains(wr[k]));
        r.ready_players.lemma_filter_contains_rev(pred, wr[k]);
        assert(pred(wr[k]));
    }
    let pushed = r.ready_players.push(player);
    if !r.ready_players.contains(player) && r.player_uuids.contains(player) {
        assert forall|i: int, j: int| 0 <= i < j < pushed.len() implies pushed[i] != pushed[j] by {
            if j == r.ready_players.len() {
                assert(r.ready_players[i] == pushed[i]);
            }
        }
        assert forall|k: int| 0 <= k < pushed.len() implies r.player_uuids.contains(#[trigger] pushed[k]) by {
            if k < r.ready_players.len() {
                assert(pushed[k] == r.ready_players[k]);
            }
        }
    }
    assert forall|k: int| 0 <= k < wr.len() implies r.player_uuids.contains(#[trigger] wr[k]) by {
        assert(wr.contains(wr[k]));
        r.ready_players.lemma_filter_contains_rev(pred, wr[k]);
        let m = choose|m: int| 0 <= m < r.ready_players.len() && r.ready_players[m] == wr[k];
        assert(r.player_uuids.contains(r.ready_players[m]));
    }
}

/// How often inactive rooms are cleaned up, and how long a room must go without activity to
/// count as inactive (both in seconds).
#[derive(Debug, Clone)]
pub struct CleanupConfig {
    pub cleanup_interval_secs: u64,
    pub inactivity_threshold_secs: u64,
}

impl Default for CleanupConfig {
    /// Every thirty minutes, rooms idle for a day.
    fn default() -> (c: CleanupConfig)
        ensures
            c.cleanup_interval_secs == 30 * 60,
            c.inactivity_threshold_secs == 24 * 60 * 60,
    {
        CleanupConfig { cleanup_interval_secs: 30 * 60, inactivity_threshold_secs: 24 * 60 * 60 }
    }
}

} // verus!
