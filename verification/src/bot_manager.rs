use vstd::prelude::*;

use crate::bot::{is_bot_id, is_hyphenated_id, BotDifficulty, BotPlayer, BotPlayerView};
use crate::errors::AppError;
use crate::room::{is_pet_name, pet_name};
use crate::service::MAX_BOTS_PER_ROOM;

verus! {

/// The values of a list of bots.
pub open spec fn bot_views(s: Seq<BotPlayer>) -> Seq<BotPlayerView> {
    s.map_values(|b: BotPlayer| b@)
}

/// No two bots share an identifier.
pub open spec fn bot_ids_unique(s: Seq<BotPlayerView>) -> bool {
    forall|i: int, j: int| 0 <= i < j < s.len() ==> #[trigger] s[i].uuid != #[trigger] s[j].uuid
}

/// The bots that sit in the room, in order.
pub open spec fn bots_in(s: Seq<BotPlayerView>, room_id: Seq<char>) -> Seq<BotPlayerView>
    decreases s.len(),
{
    if s.len() == 0 {
        Seq::empty()
    } else if s.last().room_id == room_id {
        bots_in(s.drop_last(), room_id).push(s.last())
    } else {
        bots_in(s.drop_last(), room_id)
    }
}

/// The bots that do not sit in the room, in order.
pub open spec fn bots_outside(s: Seq<BotPlayerView>, room_id: Seq<char>) -> Seq<BotPlayerView>
    decreases s.len(),
{
    if s.len() == 0 {
        Seq::empty()
    } else if s.last().room_id != room_id {
        bots_outside(s.drop_last(), room_id).push(s.last())
    } else {
        bots_outside(s.drop_last(), room_id)
    }
}

/// Where the bot with this identifier stands, if registered.
pub open spec fn bot_index(s: Seq<BotPlayerView>, uuid: Seq<char>) -> Option<int> {
    if exists|i: int| 0 <= i < s.len() && #[trigger] s[i].uuid == uuid {
        Some(choose|i: int| 0 <= i < s.len() && #[trigger] s[i].uuid == uuid)
    } else {
        None
    }
}

/// The bots after registering `b`: it replaces the bot with its identifier, or comes last.
pub open spec fn with_bot(s: Seq<BotPlayerView>, b: BotPlayerView) -> Seq<BotPlayerView> {
    match bot_index(s, b.uuid) {
        Some(i) => s.update(i, b),
        None => s.push(b),
    }
}

/// The message of a room that has as many bots as it may.
pub open spec fn too_many_bots_message(room_id: Seq<char>) -> Seq<char> {
    "Room "@ + room_id + " already has the maximum of 3 bots"@
}

/// Counting a room's bots after one bot is replaced.
proof fn lemma_bots_in_update(s: Seq<BotPlayerView>, i: int, b: BotPlayerView, room_id: Seq<char>)
    requires
        0 <= i < s.len(),
    ensures
        bots_in(s.update(i, b), room_id).len() + (if s[i].room_id == room_id {
            1int
        } else {
            0
        }) == bots_in(s, room_id).len() + (if b.room_id == room_id {
            1int
        } else {
            0
        }),
    decreases s.len(),
{
    let t = s.update(i, b);
    if i == s.len() - 1 {
        assert(t.drop_last() == s.drop_last());
    } else {
        assert(t.drop_last() == s.drop_last().update(i, b));
        lemma_bots_in_update(s.drop_last(), i, b, room_id);
    }
}

/// Registering a bot adds at most one bot to its own room and none to another.
pub proof fn lemma_with_bot_counts(s: Seq<BotPlayerView>, b: BotPlayerView, room_id: Seq<char>)
    ensures
        bots_in(with_bot(s, b), room_id).len() <= bots_in(s, room_id).len() + (if b.room_id
            == room_id {
            1int
        } else {
            0
        }),
{
    match bot_index(s, b.uuid) {
        Some(i) => {
            lemma_bots_in_update(s, i, b, room_id);
        },
        None => {
            assert(s.push(b).drop_last() == s);
        },
    }
}

/// Bots in memory, by identifier.
pub struct BotManager {
    bots: Vec<BotPlayer>,
}

impl View for BotManager {
    type V = Seq<BotPlayerView>;

    closed spec fn view(&self) -> Seq<BotPlayerView> {
        bot_views(self.bots@)
    }
}

impl BotManager {
    #[verifier::type_invariant]
    spec fn ids_unique(self) -> bool {
        bot_ids_unique(bot_views(self.bots@))
    }

    /// A manager with no bots.
    pub fn new() -> (m: BotManager)
        ensures
            m@ == Seq::<BotPlayerView>::empty(),
    {
        let m = BotManager { bots: Vec::new() };
        proof {
            assert(m@ =~= Seq::<BotPlayerView>::empty());
        }
        m
    }

    /// Where the bot stands, if registered.
    fn position(&self, bot_uuid: &str) -> (r: Option<usize>)
        ensures
            match r {
                Some(i) => bot_index(self@, bot_uuid@) == Some(i as int) && i < self@.len(),
                None => bot_index(self@, bot_uuid@) is None,
            },
    {
        proof {
            use_type_invariant(self);
        }
        let ghost v = self@;
        let target = String::from_str(bot_uuid);
        let mut i: usize = 0;
        while i < self.bots.len()
            invariant
                v == bot_views(self.bots@),
                bot_ids_unique(v),
                target@ == bot_uuid@,
                i <= self.bots@.len(),
                forall|j: int| 0 <= j < i ==> #[trigger] v[j].uuid != bot_uuid@,
            decreases self.bots@.len() - i,
        {
            proof {
                assert(v[i as int] == self.bots@[i as int]@);
            }
            if self.bots[i].uuid == target {
                proof {
                    let c = choose|k: int| 0 <= k < v.len() && #[trigger] v[k].uuid == bot_uuid@;
                    if c != i {
                        if c < i {
                            assert(v[c].uuid != v[i as int].uuid);
                        } else {
                            assert(v[i as int].uuid != v[c].uuid);
                        }
                    }
                }
                return Some(i);
            }
            i = i + 1;
        }
        None
    }

    /// Registers the bot (see `with_bot`).
    fn insert(&mut self, bot: BotPlayer)
        ensures
            final(self)@ == with_bot(old(self)@, bot@),
    {
        proof {
            use_type_invariant(&*self);
        }
        let ghost before = self@;
        let idx = self.position(bot.uuid.as_str());
        let ghost b = bot@;
        let mut bots: Vec<BotPlayer> = Vec::new();
        std::mem::swap(&mut bots, &mut self.bots);
        match idx {
            Some(i) => {
                bots.set(i, bot);
                proof {
                    assert(bot_views(bots@) =~= before.update(i as int, b));
                    assert forall|x: int, y: int| 0 <= x < y < bot_views(bots@).len() implies #[trigger] bot_views(
                        bots@,
                    )[x].uuid != #[trigger] bot_views(bots@)[y].uuid by {
                        if x != i && y != i {
                            assert(before[x].uuid != before[y].uuid);
                        } else if x == i {
                            assert(before[x].uuid == b.uuid);
                            assert(before[x].uuid != before[y].uuid);
                        } else {
                            assert(before[y].uuid == b.uuid);
                            assert(before[x].uuid != before[y].uuid);
                        }
                    }
                }
            },
            None => {
                bots.push(bot);
                proof {
                    assert(bot_views(bots@) =~= before.push(b));
                    assert forall|x: int, y: int| 0 <= x < y < bot_views(bots@).len() implies #[trigger] bot_views(
                        bots@,
                    )[x].uuid != #[trigger] bot_views(bots@)[y].uuid by {
                        if y < before.len() {
                            assert(before[x].uuid != before[y].uuid);
                        } else {
                            assert(bot_views(bots@)[x] == before[x]);
                        }
                    }
                }
            },
        }
        self.bots = bots;
    }

    /// Seats a new bot in the room: refused when the room already has as many bots as it
    /// may; otherwise the bot gets a random pet name followed by " Bot" and a fresh "bot-"
    /// identifier.
    pub fn create_bot(&mut self, room_id: String, difficulty: BotDifficulty) -> (r: Result<
        BotPlayer,
        AppError,
    >)
        ensures
            bots_in(old(self)@, room_id@).len() >= MAX_BOTS_PER_ROOM ==> (r matches Err(
                AppError::BadRequest(m),
            ) && m@ == too_many_bots_message(room_id@)) && final(self)@ == old(self)@,
            bots_in(old(self)@, room_id@).len() < MAX_BOTS_PER_ROOM ==> (r matches Ok(bot) && {
                &&& bot@.room_id == room_id@
                &&& bot@.difficulty == difficulty
                &&& is_bot_id(bot@.uuid)
                &&& bot@.uuid.len() == 40
                &&& is_hyphenated_id(bot@.uuid.subrange(4, 40))
                &&& bot@.name.len() >= 4
                &&& bot@.name.subrange(bot@.name.len() - 4, bot@.name.len() as int) == " Bot"@
                &&& is_pet_name(bot@.name.subrange(0, bot@.name.len() - 4), 2, seq!['-'])
                &&& final(self)@ == with_bot(old(self)@, bot@)
            }),
    {
        let count = self.count_in_room(room_id.as_str());
        if count >= MAX_BOTS_PER_ROOM {
            let mut m = String::from_str("Room ");
            m.append(room_id.as_str());
            m.append(" already has the maximum of 3 bots");
            return Err(AppError::BadRequest(m));
        }
        let mut name = match pet_name(2, "-") {
            Some(n) => n,
            None => String::new(),
        };
        let ghost prefix = name@;
        name.append(" Bot");
        proof {
            reveal_strlit(" Bot");
            reveal_strlit("-");
            assert("-"@ =~= seq!['-']);
            assert(name@.subrange(0, name@.len() - 4) =~= prefix);
            assert(name@ == prefix + " Bot"@);
            assert(name@.subrange(name@.len() - 4, name@.len() as int) =~= " Bot"@);
        }
        let bot = BotPlayer::new(room_id, name, difficulty);
        self.insert(bot.duplicate());
        Ok(bot)
    }

    /// How many bots sit in the room.
    fn count_in_room(&self, room_id: &str) -> (n: usize)
        ensures
            n == bots_in(self@, room_id@).len(),
    {
        let ghost v = self@;
        let target = String::from_str(room_id);
        let mut n: usize = 0;
        let mut i: usize = 0;
        while i < self.bots.len()
            invariant
                v == bot_views(self.bots@),
                target@ == room_id@,
                i <= self.bots@.len(),
                n == bots_in(v.take(i as int), room_id@).len(),
                n <= i,
            decreases self.bots@.len() - i,
        {
            proof {
                assert(v.take(i + 1).drop_last() == v.take(i as int));
                assert(v.take(i + 1).last() == self.bots@[i as int]@);
            }
            if self.bots[i].room_id == target {
                n = n + 1;
            }
            i = i + 1;
        }
        proof {
            assert(v.take(i as int) == v);
        }
        n
    }

    /// The bot with this identifier, if registered.
    pub fn get_bot(&self, bot_uuid: &str) -> (r: Option<BotPlayer>)
        ensures
            match bot_index(self@, bot_uuid@) {
                Some(i) => r matches Some(b) && b@ == self@[i],
                None => r is None,
            },
    {
        match self.position(bot_uuid) {
            Some(i) => {
                proof {
                    assert(self@[i as int] == self.bots@[i as int]@);
                }
                Some(self.bots[i].duplicate())
            },
            None => None,
        }
    }

    /// Forgets the bot; an unknown bot is not found.
    pub fn remove_bot(&mut self, bot_uuid: &str) -> (r: Result<(), AppError>)
        ensures
            match bot_index(old(self)@, bot_uuid@) {
                Some(i) => r is Ok && final(self)@ == old(self)@.remove(i),
                None => (r matches Err(AppError::NotFound(m)) && m@ == "Bot not found: "@
                    + bot_uuid@) && final(self)@ == old(self)@,
            },
    {
        proof {
            use_type_invariant(&*self);
        }
        let ghost before = self@;
        match self.position(bot_uuid) {
            None => {
                let mut m = String::from_str("Bot not found: ");
                m.append(bot_uuid);
                Err(AppError::NotFound(m))
            },
            Some(i) => {
                let mut bots: Vec<BotPlayer> = Vec::new();
                std::mem::swap(&mut bots, &mut self.bots);
                bots.remove(i);
                proof {
                    assert(bot_views(bots@) =~= before.remove(i as int));
                    assert forall|x: int, y: int| 0 <= x < y < bot_views(bots@).len() implies #[trigger] bot_views(
                        bots@,
                    )[x].uuid != #[trigger] bot_views(bots@)[y].uuid by {
                        let x2 = if x < i { x } else { x + 1 };
                        let y2 = if y < i { y } else { y + 1 };
                        assert(before[x2].uuid != before[y2].uuid);
                    }
                }
                self.bots = bots;
                Ok(())
            },
        }
    }

    /// The bots sitting in the room, in order.
    pub fn get_bots_in_room(&self, room_id: &str) -> (r: Vec<BotPlayer>)
        ensures
            bot_views(r@) == bots_in(self@, room_id@),
    {
        let ghost v = self@;
        let target = String::from_str(room_id);
        let mut out: Vec<BotPlayer> = Vec::new();
        let mut i: usize = 0;
        while i < self.bots.len()
            invariant
                v == bot_views(self.bots@),
                target@ == room_id@,
                i <= self.bots@.len(),
                bot_views(out@) == bots_in(v.take(i as int), room_id@),
            decreases self.bots@.len() - i,
        {
            proof {
                assert(v.take(i + 1).drop_last() == v.take(i as int));
                assert(v.take(i + 1).last() == self.bots@[i as int]@);
            }
            if self.bots[i].room_id == target {
                let ghost before = out@;
                out.push(self.bots[i].duplicate());
                proof {
                    assert(bot_views(out@) =~= bot_views(before).push(self.bots@[i as int]@));
                }
            }
            i = i + 1;
        }
        proof {
            assert(v.take(i as int) == v);
        }
        out
    }

    /// The identifiers of the bots sitting in the room, in order.
    pub fn get_bot_uuids_in_room(&self, room_id: &str) -> (r: Vec<String>)
        ensures
            r@.len() == bots_in(self@, room_id@).len(),
            forall|i: int| 0 <= i < r@.len() ==> (#[trigger] r@[i])@ == bots_in(self@, room_id@)[i].uuid,
    {
        let bots = self.get_bots_in_room(room_id);
        let mut out: Vec<String> = Vec::new();
        let mut i: usize = 0;
        while i < bots.len()
            invariant
                bot_views(bots@) == bots_in(self@, room_id@),
                i <= bots@.len(),
                out@.len() == i,
                forall|j: int| 0 <= j < i ==> (#[trigger] out@[j])@ == bots_in(self@, room_id@)[j].uuid,
            decreases bots@.len() - i,
        {
            proof {
                assert(bot_views(bots@)[i as int] == bots@[i as int]@);
            }
            out.push(bots[i].uuid.clone());
            i = i + 1;
        }
        out
    }

    /// Forgets every bot of the room, keeping the others in order.
    pub fn remove_all_bots_in_room(&mut self, room_id: &str) -> (r: Result<(), AppError>)
        ensures
            r is Ok,
            final(self)@ == bots_outside(old(self)@, room_id@),
    {
        proof {
            use_type_invariant(&*self);
        }
        let ghost v = self@;
        let target = String::from_str(room_id);
        let mut kept: Vec<BotPlayer> = Vec::new();
        let mut i: usize = 0;
        while i < self.bots.len()
            invariant
                v == bot_views(self.bots@),
                bot_ids_unique(v),
                target@ == room_id@,
                i <= self.bots@.len(),
                bot_views(kept@) == bots_outside(v.take(i as int), room_id@),
                forall|x: int| 0 <= x < kept@.len() ==> exists|y: int| 0 <= y < i && #[trigger] bot_views(kept@)[x] == v[y],
                forall|x: int, y: int| 0 <= x < y < kept@.len() ==> #[trigger] bot_views(kept@)[x].uuid
                    != #[trigger] bot_views(kept@)[y].uuid,
            decreases self.bots@.len() - i,
        {
            proof {
                assert(v.take(i + 1).drop_last() == v.take(i as int));
                assert(v.take(i + 1).last() == self.bots@[i as int]@);
            }
            if !(self.bots[i].room_id == target) {
                let ghost before = kept@;
                kept.push(self.bots[i].duplicate());
                proof {
                    assert(bot_views(kept@) =~= bot_views(before).push(self.bots@[i as int]@));
                    assert forall|x: int| 0 <= x < kept@.len() implies exists|y: int| 0 <= y < i + 1 && #[trigger] bot_views(kept@)[x] == v[y] by {
                        if x < before.len() {
                            assert(bot_views(kept@)[x] == bot_views(before)[x]);
                        } else {
                            assert(bot_views(kept@)[x] == v[i as int]);
                        }
                    }
                    assert forall|x: int, y: int| 0 <= x < y < kept@.len() implies #[trigger] bot_views(kept@)[x].uuid
                        != #[trigger] bot_views(kept@)[y].uuid by {
                        if y == before.len() {
                            assert(bot_views(kept@)[x] == bot_views(before)[x]);
                            let w = choose|w: int| 0 <= w < i && #[trigger] bot_views(before)[x] == v[w];
                            assert(v[w].uuid != v[i as int].uuid);
                        } else {
                            assert(bot_views(kept@)[x] == bot_views(before)[x]);
                            assert(bot_views(kept@)[y] == bot_views(before)[y]);
                        }
                    }
                }
            }
            i = i + 1;
        }
        proof {
            assert(v.take(i as int) == v);
        }
        self.bots = kept;
        Ok(())
    }

    /// Whether the identifier is a bot's.
    pub fn is_bot(&self, uuid: &str) -> (b: bool)
        ensures
            b == is_bot_id(uuid@),
    {
        BotPlayer::is_bot_uuid(uuid)
    }

    /// How many bots are registered.
    pub fn bot_count(&self) -> (n: usize)
        ensures
            n == self@.len(),
    {
        self.bots.len()
    }
}

/// A room never gets more bots than it may: creating a bot in a room that has fewer than
/// the most leaves it with the most at most, and adds no bot to any other room.
pub proof fn lemma_bot_limit_kept(
    before: Seq<BotPlayerView>,
    bot: BotPlayerView,
    room_id: Seq<char>,
    other: Seq<char>,
)
    requires
        bot.room_id == room_id,
        bots_in(before, room_id).len() < MAX_BOTS_PER_ROOM,
    ensures
        bots_in(with_bot(before, bot), room_id).len() <= MAX_BOTS_PER_ROOM,
        other != room_id ==> bots_in(with_bot(before, bot), other).len() <= bots_in(before, other).len(),
{
    lemma_with_bot_counts(before, bot, room_id);
    lemma_with_bot_counts(before, bot, other);
}

} // verus!
