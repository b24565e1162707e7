use vstd::prelude::*;

use crate::bot::{is_hyphenated_id, new_id_text};
use crate::errors::{checked, AppError, AppErrorView};
use crate::players::{uuid_text_parses, without_bot_prefix, InMemoryPlayerMappingService, PlayerMappingService};
use crate::room::{is_pet_name, is_pet_word, lemma_two_word_name, pet_name};
use crate::text::{TextMap, keyed_map, keys_unique, lemma_keyed_at, lemma_keyed_len, lemma_keyed_push, lemma_keyed_remove, lemma_keyed_update};

verus! {

/// Milliseconds in a day.
pub const MILLIS_PER_DAY: i64 = 86_400_000;

/// Seconds in a day.
pub const SECONDS_PER_DAY: i64 = 86_400;

/// The earliest instant, in milliseconds since the Unix epoch, that a date and time of the
/// `chrono` crate can hold (the first of January of the year -262143).
pub const EARLIEST_MILLIS: i64 = -8_334_601_315_200_000;

/// The latest instant, in milliseconds since the Unix epoch, that a date and time of the
/// `chrono` crate can hold (the end of the year 262142).
pub const LATEST_MILLIS: i64 = 8_210_266_876_799_999;

/// The instant, in milliseconds, lies in the range that dates and times can hold.
pub open spec fn representable_millis(t: int) -> bool {
    EARLIEST_MILLIS <= t <= LATEST_MILLIS
}

/// The whole seconds of an instant given in milliseconds (rounded toward zero, as integer
/// division rounds).
pub open spec fn whole_seconds(millis: i64) -> int {
    if millis >= 0 {
        millis / 1000
    } else {
        -((-millis) / 1000)
    }
}

/// The whole seconds of an instant given in milliseconds.
pub fn to_seconds(millis: i64) -> (s: i64)
    ensures
        s == whole_seconds(millis),
{
    millis / 1000
}

/// The instant, in seconds, lies in the range that dates and times can hold.
pub open spec fn representable_seconds(t: int) -> bool {
    EARLIEST_MILLIS / 1000 <= t <= LATEST_MILLIS / 1000
}

// ----------------------------------------------------------------------------
// Session records
// ----------------------------------------------------------------------------
/// A player's session: its identifier (which also names the player), the player's name, and
/// when it was created, expires and was last used (milliseconds since the Unix epoch).
#[derive(Debug, Clone)]
pub struct SessionModel {
    pub id: String,
    pub username: String,
    pub created_at: i64,
    pub expires_at: i64,
    pub last_accessed: Option<i64>,
}

/// The value of a session.
pub struct SessionView {
    pub id: Seq<char>,
    pub username: Seq<char>,
    pub created_at: i64,
    pub expires_at: i64,
    pub last_accessed: Option<i64>,
}

impl View for SessionModel {
    type V = SessionView;

    open spec fn view(&self) -> SessionView {
        SessionView {
            id: self.id@,
            username: self.username@,
            created_at: self.created_at,
            expires_at: self.expires_at,
            last_accessed: self.last_accessed,
        }
    }
}

impl SessionModel {
    /// A copy of this session.
    pub fn duplicate(&self) -> (r: SessionModel)
        ensures
            r@ == self@,
    {
        SessionModel {
            id: self.id.clone(),
            username: self.username.clone(),
            created_at: self.created_at,
            expires_at: self.expires_at,
            last_accessed: self.last_accessed,
        }
    }

    /// A session created at `now` that lasts `expiration_days` days, with a fresh random
    /// identifier, last used when created.
    pub fn new(username: String, expiration_days: i64, now: i64) -> (s: SessionModel)
        requires
            representable_millis(now as int),
            representable_millis(now + expiration_days * MILLIS_PER_DAY),
        ensures
            s.username@ == username@,
            is_hyphenated_id(s.id@),
            s.created_at == now,
            s.expires_at == now + expiration_days * MILLIS_PER_DAY,
            s.last_accessed == Some(now),
    {
        assert(-106_751_991_167 <= expiration_days <= 106_751_991_167) by (nonlinear_arith)
            requires
                representable_millis(now as int),
                representable_millis(now + expiration_days * MILLIS_PER_DAY),
        ;
        let expires_at = now + expiration_days * MILLIS_PER_DAY;
        SessionModel {
            id: new_id_text(),
            username,
            created_at: now,
            expires_at,
            last_accessed: Some(now),
        }
    }

    /// Whether the session has expired at `now`: strictly after its expiry.
    pub fn is_expired(&self, now: i64) -> (b: bool)
        ensures
            b == (now > self.expires_at),
    {
        now > self.expires_at
    }

    /// Makes the session expire `days` days after `now`.
    pub fn extend_expiration(&mut self, days: i64, now: i64)
        requires
            representable_millis(now as int),
            representable_millis(now + days * MILLIS_PER_DAY),
        ensures
            final(self).expires_at == now + days * MILLIS_PER_DAY,
            final(self).id == old(self).id,
            final(self).username == old(self).username,
            final(self).created_at == old(self).created_at,
            final(self).last_accessed == old(self).last_accessed,
    {
        assert(-106_751_991_167 <= days <= 106_751_991_167) by (nonlinear_arith)
            requires
                representable_millis(now as int),
                representable_millis(now + days * MILLIS_PER_DAY),
        ;
        self.expires_at = now + days * MILLIS_PER_DAY;
    }

    /// Marks the session as used at `now`.
    pub fn touch(&mut self, now: i64)
        ensures
            final(self).last_accessed == Some(now),
            final(self).id == old(self).id,
            final(self).username == old(self).username,
            final(self).created_at == old(self).created_at,
            final(self).expires_at == old(self).expires_at,
    {
        self.last_accessed = Some(now);
    }

    /// When the session was last used: its creation if it never was since.
    pub fn get_last_accessed(&self) -> (t: i64)
        ensures
            t == match self.last_accessed {
                Some(a) => a,
                None => self.created_at,
            },
    {
        match self.last_accessed {
            Some(a) => a,
            None => self.created_at,
        }
    }
}

// ----------------------------------------------------------------------------
// Tokens
// ----------------------------------------------------------------------------
/// What a session token says: the session, the player's name, and when the token expires
/// and was issued (seconds since the Unix epoch).
#[derive(Debug, Clone, PartialEq)]
pub struct SessionClaims {
    pub session_id: String,
    pub username: String,
    pub exp: usize,
    pub iat: usize,
}

/// What the server answers a new session with: the token, the player's name and identifier.
#[derive(Debug, Clone, PartialEq)]
pub struct SessionResponse {
    pub session_id: String,
    pub username: String,
    pub player_uuid: String,
}

/// The secret that signs tokens and how many days a token lasts.
#[derive(Debug, Clone)]
pub struct TokenConfig {
    secret: String,
    pub expiration_days: i64,
}

impl TokenConfig {
    /// Tokens signed with `secret` that last `expiration_days` days.
    pub fn new(secret: String, expiration_days: i64) -> (c: TokenConfig)
        ensures
            c.secret_text() == secret@,
            c.days() == expiration_days,
    {
        TokenConfig { secret, expiration_days }
    }

    /// The signing secret.
    pub closed spec fn secret_text(&self) -> Seq<char> {
        self.secret@
    }

    /// How many days a token lasts.
    pub closed spec fn days(&self) -> i64 {
        self.expiration_days
    }

    /// The signing secret.
    pub fn secret(&self) -> (s: &str)
        ensures
            s@ == self.secret_text(),
    {
        self.secret.as_str()
    }

    /// The claims of a token for the session issued at `now` (seconds): it expires
    /// `expiration_days` days later. The times are written as unsigned numbers, as the
    /// token's standard claims are (a time before 1970 wraps).
    pub fn claims_for(&self, session_id: String, username: String, now: i64) -> (c: SessionClaims)
        requires
            representable_seconds(now as int),
            representable_seconds(now + self.days() * SECONDS_PER_DAY),
        ensures
            c.session_id@ == session_id@,
            c.username@ == username@,
            c.exp == (now + self.days() * SECONDS_PER_DAY) as usize,
            c.iat == now as usize,
    {
        let days = self.expiration_days;
        assert(-106_751_991_167_300 <= days <= 106_751_991_167_300) by (nonlinear_arith)
            requires
                representable_seconds(now as int),
                representable_seconds(now + days * SECONDS_PER_DAY),
        ;
        let expires = now + days * SECONDS_PER_DAY;
        #[verifier::truncate]
        let exp = expires as usize;
        #[verifier::truncate]
        let iat = now as usize;
        SessionClaims { session_id, username, exp, iat }
    }
}

// ----------------------------------------------------------------------------
// Creating sessions
// ----------------------------------------------------------------------------
/// How sessions are created: how many days they last.
#[derive(Debug, Clone)]
pub struct SessionCreationConfig {
    pub expiration_days: i64,
}

impl Default for SessionCreationConfig {
    /// Sessions last seven days.
    fn default() -> (c: SessionCreationConfig)
        ensures
            c.expiration_days == 7,
    {
        SessionCreationConfig { expiration_days: 7 }
    }
}

/// A created session, and whether something is left to clean up.
#[derive(Debug, Clone)]
pub struct SessionCreationResult {
    pub session_response: SessionResponse,
    pub cleanup_needed: bool,
}

/// Gives out names for new players.
pub trait UsernameGenerator {
    fn generate(&self) -> String;
}

/// Names players with two random words joined by a hyphen.
#[derive(Debug, Clone, Copy)]
pub struct PetNameUsernameGenerator;

impl PetNameUsernameGenerator {
    pub fn new() -> PetNameUsernameGenerator {
        PetNameUsernameGenerator
    }
}

/// `name` is two non-empty parts around a single hyphen.
pub open spec fn is_hyphen_pair(name: Seq<char>) -> bool {
    exists|a: Seq<char>, b: Seq<char>|
        {
            &&& a.len() > 0
            &&& b.len() > 0
            &&& !a.contains('-')
            &&& !b.contains('-')
            &&& name == #[trigger] (a + seq!['-'] + b)
        }
}

impl UsernameGenerator for PetNameUsernameGenerator {
    /// Two random words of the default pet-name lists joined by a hyphen.
    fn generate(&self) -> (r: String)
        ensures
            r@.len() > 0,
            is_pet_name(r@, 2, seq!['-']),
            is_hyphen_pair(r@),
    {
        proof {
            reveal_strlit("-");
            assert("-"@ =~= seq!['-']);
        }
        match pet_name(2, "-") {
            Some(name) => {
                proof {
                    lemma_two_word_name(name@, seq!['-']);
                    let (a, b) = choose|a: Seq<char>, b: Seq<char>|
                        is_pet_word(a) && is_pet_word(b) && name@ == #[trigger] (a + seq!['-'] + b);
                    assert(!a.contains('-')) by {
                        if a.contains('-') {
                            let i = choose|i: int| 0 <= i < a.len() && a[i] == '-';
                            assert('a' <= a[i]);
                        }
                    }
                    assert(!b.contains('-')) by {
                        if b.contains('-') {
                            let i = choose|i: int| 0 <= i < b.len() && b[i] == '-';
                            assert('a' <= b[i]);
                        }
                    }
                    assert((a + seq!['-'] + b).len() > 0);
                }
                name
            },
            None => String::new(),
        }
    }
}

// ----------------------------------------------------------------------------
// The store of sessions
// ----------------------------------------------------------------------------
/// The sessions by identifier, from a list of sessions.
pub open spec fn session_entries(s: Seq<SessionModel>) -> Seq<(Seq<char>, SessionView)> {
    s.map_values(|m: SessionModel| (m.id@, m@))
}

/// The sessions recorded one after the other, a later one replacing an earlier one with the
/// same identifier.
pub open spec fn sessions_map(s: Seq<SessionView>) -> Map<Seq<char>, SessionView>
    decreases s.len(),
{
    if s.len() == 0 {
        Map::empty()
    } else {
        sessions_map(s.drop_last()).insert(s.last().id, s.last())
    }
}

/// The sessions that have not expired at `now`.
pub open spec fn unexpired(m: Map<Seq<char>, SessionView>, now: i64) -> Map<Seq<char>, SessionView> {
    Map::new(|k: Seq<char>| m.contains_key(k) && m[k].expires_at > now, |k: Seq<char>| m[k])
}

/// Sessions in memory, by identifier.
pub struct InMemorySessionRepository {
    sessions: Vec<SessionModel>,
}

impl View for InMemorySessionRepository {
    type V = Map<Seq<char>, SessionView>;

    closed spec fn view(&self) -> Map<Seq<char>, SessionView> {
        keyed_map(session_entries(self.sessions@))
    }
}

impl InMemorySessionRepository {
    #[verifier::type_invariant]
    spec fn one_each(self) -> bool {
        keys_unique(session_entries(self.sessions@))
    }

    /// No sessions.
    pub fn new() -> (r: InMemorySessionRepository)
        ensures
            r@ == Map::<Seq<char>, SessionView>::empty(),
    {
        let r = InMemorySessionRepository { sessions: Vec::new() };
        proof {
            assert(r@ =~= Map::<Seq<char>, SessionView>::empty());
        }
        r
    }

    /// The given sessions, a later one replacing an earlier one with the same identifier.
    pub fn with_sessions(sessions: Vec<SessionModel>) -> (r: InMemorySessionRepository)
        ensures
            r@ == sessions_map(sessions@.map_values(|m: SessionModel| m@)),
    {
        let ghost views = sessions@.map_values(|m: SessionModel| m@);
        let mut r = InMemorySessionRepository::new();
        let mut i: usize = 0;
        while i < sessions.len()
            invariant
                i <= sessions@.len(),
                views == sessions@.map_values(|m: SessionModel| m@),
                r@ == sessions_map(views.take(i as int)),
            decreases sessions@.len() - i,
        {
            proof {
                assert(views.take(i + 1).drop_last() == views.take(i as int));
                assert(views.take(i + 1).last() == sessions@[i as int]@);
            }
            r.put(sessions[i].duplicate());
            i = i + 1;
        }
        proof {
            assert(views.take(i as int) == views);
        }
        r
    }

    /// Where the session stands, if it is stored.
    fn position(&self, session_id: &str) -> (r: Option<usize>)
        ensures
            match r {
                Some(i) => i < self.sessions@.len() && self.sessions@[i as int].id@ == session_id@,
                None => !self@.contains_key(session_id@),
            },
    {
        let target = String::from_str(session_id);
        let mut i: usize = 0;
        while i < self.sessions.len()
            invariant
                i <= self.sessions@.len(),
                target@ == session_id@,
                forall|j: int| 0 <= j < i ==> #[trigger] self.sessions@[j].id@ != session_id@,
            decreases self.sessions@.len() - i,
        {
            if self.sessions[i].id == target {
                return Some(i);
            }
            i = i + 1;
        }
        proof {
            let s = session_entries(self.sessions@);
            if self@.contains_key(session_id@) {
                let c = choose|j: int| 0 <= j < s.len() && #[trigger] s[j].0 == session_id@;
                assert(self.sessions@[c].id@ == session_id@);
            }
        }
        None
    }

    /// Stores the session, replacing one with the same identifier.
    fn put(&mut self, session: SessionModel)
        ensures
            final(self)@ == old(self)@.insert(session@.id, session@),
    {
        proof {
            use_type_invariant(&*self);
        }
        let ghost before = session_entries(self.sessions@);
        let ghost sv = session@;
        let idx = self.position(session.id.as_str());
        let mut sessions: Vec<SessionModel> = Vec::new();
        std::mem::swap(&mut sessions, &mut self.sessions);
        match idx {
            Some(i) => {
                sessions.set(i, session);
                proof {
                    assert(session_entries(sessions@) =~= before.update(i as int, (before[i as int].0, sv)));
                    lemma_keyed_update(before, i as int, sv);
                }
            },
            None => {
                sessions.push(session);
                proof {
                    assert(session_entries(sessions@) =~= before.push((sv.id, sv)));
                    lemma_keyed_push(before, (sv.id, sv));
                }
            },
        }
        self.sessions = sessions;
    }

    /// How many sessions are stored.
    pub fn session_count(&self) -> (n: usize)
        ensures
            self@.dom().finite(),
            n == self@.dom().len(),
    {
        proof {
            use_type_invariant(self);
            lemma_keyed_len(session_entries(self.sessions@));
        }
        self.sessions.len()
    }

    /// Whether the session is stored.
    pub fn has_session(&self, session_id: &str) -> (b: bool)
        ensures
            b == self@.contains_key(session_id@),
    {
        proof {
            use_type_invariant(self);
        }
        match self.position(session_id) {
            Some(i) => {
                proof {
                    lemma_keyed_at(session_entries(self.sessions@), i as int);
                }
                true
            },
            None => false,
        }
    }

    /// Stores a new session; one with its identifier already stored is refused.
    pub fn create_session(&mut self, session: &SessionModel) -> (r: Result<(), AppError>)
        ensures
            old(self)@.contains_key(session@.id) ==> (r matches Err(AppError::DatabaseError(m)) && m@
                == "Session already exists"@) && final(self)@ == old(self)@,
            !old(self)@.contains_key(session@.id) ==> r is Ok && final(self)@ == old(self)@.insert(
                session@.id,
                session@,
            ),
    {
        if self.has_session(session.id.as_str()) {
            return Err(AppError::DatabaseError(String::from_str("Session already exists")));
        }
        self.put(session.duplicate());
        Ok(())
    }

    /// The session, if it is stored.
    pub fn get_session(&self, session_id: &str) -> (r: Result<Option<SessionModel>, AppError>)
        ensures
            r matches Ok(o) && match o {
                Some(m) => self@.contains_key(session_id@) && m@ == self@[session_id@],
                None => !self@.contains_key(session_id@),
            },
    {
        proof {
            use_type_invariant(self);
        }
        match self.position(session_id) {
            Some(i) => {
                proof {
                    lemma_keyed_at(session_entries(self.sessions@), i as int);
                }
                Ok(Some(self.sessions[i].duplicate()))
            },
            None => Ok(None),
        }
    }

    /// Replaces a stored session; an unknown one is not found.
    pub fn update_session(&mut self, session: &SessionModel) -> (r: Result<(), AppError>)
        ensures
            !old(self)@.contains_key(session@.id) ==> (r matches Err(AppError::NotFound(m)) && m@
                == "Session not found"@) && final(self)@ == old(self)@,
            old(self)@.contains_key(session@.id) ==> r is Ok && final(self)@ == old(self)@.insert(
                session@.id,
                session@,
            ),
    {
        if !self.has_session(session.id.as_str()) {
            return Err(AppError::NotFound(String::from_str("Session not found")));
        }
        self.put(session.duplicate());
        Ok(())
    }

    /// Forgets a stored session; an unknown one is not found.
    pub fn delete_session(&mut self, session_id: &str) -> (r: Result<(), AppError>)
        ensures
            !old(self)@.contains_key(session_id@) ==> (r matches Err(AppError::NotFound(m)) && m@
                == "Session not found"@) && final(self)@ == old(self)@,
            old(self)@.contains_key(session_id@) ==> r is Ok && final(self)@ == old(self)@.remove(
                session_id@,
            ),
    {
        proof {
            use_type_invariant(&*self);
        }
        let ghost before = session_entries(self.sessions@);
        match self.position(session_id) {
            None => Err(AppError::NotFound(String::from_str("Session not found"))),
            Some(i) => {
                proof {
                    lemma_keyed_at(before, i as int);
                    lemma_keyed_remove(before, i as int);
                }
                let mut sessions: Vec<SessionModel> = Vec::new();
                std::mem::swap(&mut sessions, &mut self.sessions);
                sessions.remove(i);
                proof {
                    assert(session_entries(sessions@) =~= before.remove(i as int));
                }
                self.sessions = sessions;
                Ok(())
            },
        }
    }

    /// Forgets the sessions that expired at `now` (see `unexpired`); how many were forgotten.
    pub fn cleanup_expired_sessions(&mut self, now: i64) -> (r: Result<u64, AppError>)
        ensures
            final(self)@ == unexpired(old(self)@, now),
            old(self)@.dom().finite() && final(self)@.dom().finite(),
            r matches Ok(n) && n == old(self)@.dom().len() - final(self)@.dom().len(),
    {
        proof {
            use_type_invariant(&*self);
            lemma_keyed_len(session_entries(self.sessions@));
        }
        let ghost before = session_entries(self.sessions@);
        let ghost old_map = self@;
        let mut kept: Vec<SessionModel> = Vec::new();
        let mut i: usize = 0;
        while i < self.sessions.len()
            invariant
                i <= self.sessions@.len(),
                before == session_entries(self.sessions@),
                keys_unique(before),
                keys_unique(session_entries(kept@)),
                kept@.len() <= i,
                keyed_map(session_entries(kept@)) == unexpired(keyed_map(before.take(i as int)), now),
            decreases self.sessions@.len() - i,
        {
            let ghost prefix = before.take(i as int);
            proof {
                assert(before.take(i + 1) == prefix.push(before[i as int]));
                assert forall|a: int, b: int| 0 <= a < b < prefix.len() implies #[trigger] prefix[a].0
                    != #[trigger] prefix[b].0 by {
                    assert(prefix[a] == before[a]);
                    assert(prefix[b] == before[b]);
                }
                if keyed_map(prefix).contains_key(before[i as int].0) {
                    let c = choose|j: int| 0 <= j < prefix.len() && #[trigger] prefix[j].0 == before[i as int].0;
                    assert(before[c].0 == before[i as int].0);
                }
                lemma_keyed_push(prefix, before[i as int]);
            }
            if self.sessions[i].expires_at > now {
                let ghost k = session_entries(kept@);
                proof {
                    if keyed_map(k).contains_key(before[i as int].0) {
                        assert(keyed_map(prefix).contains_key(before[i as int].0));
                    }
                    lemma_keyed_push(k, before[i as int]);
                }
                kept.push(self.sessions[i].duplicate());
                proof {
                    assert(session_entries(kept@) =~= k.push(before[i as int]));
                    assert(keyed_map(session_entries(kept@)) =~= unexpired(
                        keyed_map(before.take(i + 1)),
                        now,
                    ));
                }
            } else {
                proof {
                    assert(keyed_map(session_entries(kept@)) =~= unexpired(
                        keyed_map(before.take(i + 1)),
                        now,
                    ));
                }
            }
            i = i + 1;
        }
        proof {
            assert(before.take(i as int) == before);
            lemma_keyed_len(session_entries(kept@));
        }
        let removed = self.sessions.len() - kept.len();
        self.sessions = kept;
        Ok(removed as u64)
    }
}

// ----------------------------------------------------------------------------
// Sessions of players
// ----------------------------------------------------------------------------
/// Creates, checks, extends and revokes sessions, and knows the player of each session.
pub struct SessionService {
    repository: InMemorySessionRepository,
    token_config: TokenConfig,
    config: SessionCreationConfig,
    session_to_player_uuid: TextMap,
}

/// What a token's claims are answered with when checked against the stored sessions at `now`.
pub open spec fn claims_check(sessions: Map<Seq<char>, SessionView>, session_id: Seq<char>, now: i64) -> Result<
    (),
    AppErrorView,
> {
    if !sessions.contains_key(session_id) {
        Err(AppErrorView::Unauthorized("Session not found or has been revoked"@))
    } else if now > sessions[session_id].expires_at {
        Err(AppErrorView::Unauthorized("Session has expired"@))
    } else {
        Ok(())
    }
}

/// A revoked session is refused from then on.
pub proof fn lemma_revoked_session_refused(sessions: Map<Seq<char>, SessionView>, session_id: Seq<char>, now: i64)
    ensures
        claims_check(sessions.remove(session_id), session_id, now) == Err::<(), AppErrorView>(
            AppErrorView::Unauthorized("Session not found or has been revoked"@),
        ),
{
}

/// A stored session is accepted until its expiry and refused after it.
pub proof fn lemma_session_valid_until_expiry(
    sessions: Map<Seq<char>, SessionView>,
    session_id: Seq<char>,
    now: i64,
)
    requires
        sessions.contains_key(session_id),
    ensures
        claims_check(sessions, session_id, now) is Ok <==> now <= sessions[session_id].expires_at,
{
}

impl SessionService {
    /// A service over `repository`, signing tokens as `token_config` says; sessions last as
    /// long as tokens do.
    pub fn new(repository: InMemorySessionRepository, token_config: TokenConfig) -> (s: SessionService)
        ensures
            s.sessions() == repository@,
            s.players_of_sessions() == Map::<Seq<char>, Seq<char>>::empty(),
            s.token_days() == token_config.days(),
            s.session_days() == 7,
    {
        SessionService {
            repository,
            token_config,
            config: SessionCreationConfig::default(),
            session_to_player_uuid: TextMap::new(),
        }
    }

    /// The stored sessions.
    pub closed spec fn sessions(&self) -> Map<Seq<char>, SessionView> {
        self.repository@
    }

    /// The player of each session.
    pub closed spec fn players_of_sessions(&self) -> Map<Seq<char>, Seq<char>> {
        self.session_to_player_uuid@
    }

    /// How many days a token lasts.
    pub closed spec fn token_days(&self) -> i64 {
        self.token_config.days()
    }

    /// How many days a new session lasts.
    pub closed spec fn session_days(&self) -> i64 {
        self.config.expiration_days
    }

    /// How tokens are signed.
    pub fn token_config(&self) -> (c: &TokenConfig)
        ensures
            c.days() == self.token_days(),
    {
        &self.token_config
    }

    /// Creates a session at `now` (milliseconds) for the player `player_uuid` named
    /// `username`: the session is stored, the player registered under the name, and the
    /// session's player recorded; the claims of its token come back with it. A session whose
    /// fresh identifier is already stored is refused as the store refuses it; a player who
    /// cannot be registered makes the creation fail as an internal error (the stored session
    /// stays).
    pub fn create_session(
        &mut self,
        players: &mut InMemoryPlayerMappingService,
        username: String,
        player_uuid: String,
        now: i64,
    ) -> (r: Result<(SessionModel, SessionClaims), AppError>)
        requires
            representable_millis(now as int),
            representable_millis(now + old(self).session_days() * MILLIS_PER_DAY),
            representable_seconds(whole_seconds(now) + old(self).token_days() * SECONDS_PER_DAY),
        ensures
            match r {
                Ok((session, claims)) => {
                    &&& is_hyphenated_id(session@.id)
                    &&& session@.username == username@
                    &&& session@.created_at == now
                    &&& session@.expires_at == now + old(self).session_days() * MILLIS_PER_DAY
                    &&& session@.last_accessed == Some(now)
                    &&& !old(self).sessions().contains_key(session@.id)
                    &&& final(self).sessions() == old(self).sessions().insert(session@.id, session@)
                    &&& final(players)@ == old(players)@.insert(player_uuid@, username@)
                    &&& final(self).players_of_sessions() == old(self).players_of_sessions().insert(
                        session@.id,
                        player_uuid@,
                    )
                    &&& claims.session_id@ == session@.id && claims.username@ == username@
                    &&& claims.iat == whole_seconds(now) as usize
                    &&& claims.exp == (whole_seconds(now) + old(self).token_days() * SECONDS_PER_DAY) as usize
                },
                Err(AppError::DatabaseError(m)) => m@ == "Session already exists"@ && final(self).sessions()
                    == old(self).sessions() && final(players)@ == old(players)@
                    && final(self).players_of_sessions() == old(self).players_of_sessions() && exists|
                    id: Seq<char>,
                | is_hyphenated_id(id) && old(self).sessions().contains_key(id),
                Err(AppError::Internal) => !(uuid_text_parses(without_bot_prefix(player_uuid@))
                    && !old(players)@.contains_key(player_uuid@)) && final(players)@ == old(players)@
                    && final(self).players_of_sessions() == old(self).players_of_sessions(),
                Err(_) => false,
            },
            final(self).token_days() == old(self).token_days(),
            final(self).session_days() == old(self).session_days(),
    {
        let session = SessionModel::new(username.clone(), self.config.expiration_days, now);
        match self.repository.create_session(&session) {
            Ok(()) => {},
            Err(e) => {
                return Err(e);
            },
        }
        match players.register_player(player_uuid.clone(), username.clone()) {
            Ok(()) => {},
            Err(_) => {
                return Err(AppError::Internal);
            },
        }
        self.session_to_player_uuid.insert(session.id.clone(), player_uuid);
        let claims = self.token_config.claims_for(session.id.clone(), username, to_seconds(now));
        Ok((session, claims))
    }

    /// Checks the claims of a token against the stored sessions at `now` (see `claims_check`).
    pub fn validate_claims(&self, claims: &SessionClaims, now: i64) -> (r: Result<(), AppError>)
        ensures
            checked(r) == claims_check(self.sessions(), claims.session_id@, now),
    {
        match self.repository.get_session(claims.session_id.as_str()) {
            Ok(Some(session)) => {
                if session.is_expired(now) {
                    return Err(AppError::Unauthorized(String::from_str("Session has expired")));
                }
                Ok(())
            },
            Ok(None) => Err(
                AppError::Unauthorized(String::from_str("Session not found or has been revoked")),
            ),
            Err(e) => Err(e),
        }
    }

    /// Revokes a session: it is forgotten, with the record of its player, and the player's
    /// name is forgotten too; an unknown session is not found and nothing changes.
    pub fn revoke_session(&mut self, players: &mut InMemoryPlayerMappingService, session_id: &str) -> (r: Result<
        (),
        AppError,
    >)
        ensures
            !old(self).sessions().contains_key(session_id@) ==> (r matches Err(AppError::NotFound(m))
                && m@ == "Session not found"@) && final(self).sessions() == old(self).sessions()
                && final(self).players_of_sessions() == old(self).players_of_sessions()
                && final(players)@ == old(players)@,
            old(self).sessions().contains_key(session_id@) ==> r is Ok && final(self).sessions() == old(
                self,
            ).sessions().remove(session_id@) && final(self).players_of_sessions() == old(
                self,
            ).players_of_sessions().remove(session_id@) && final(players)@ == if old(
                self,
            ).players_of_sessions().contains_key(session_id@) {
                old(players)@.remove(old(self).players_of_sessions()[session_id@])
            } else {
                old(players)@
            },
            final(self).token_days() == old(self).token_days(),
            final(self).session_days() == old(self).session_days(),
    {
        let player_uuid = self.session_to_player_uuid.get(session_id);
        match self.repository.delete_session(session_id) {
            Ok(()) => {},
            Err(e) => {
                return Err(e);
            },
        }
        let _ = self.session_to_player_uuid.remove(session_id);
        match player_uuid {
            Some(uuid) => {
                let _ = players.remove_player(uuid.as_str());
            },
            None => {},
        }
        Ok(())
    }

    /// Makes the session expire as many days after `now` as a token lasts; an unknown session
    /// is not found.
    pub fn extend_session(&mut self, session_id: &str, now: i64) -> (r: Result<(), AppError>)
        requires
            representable_millis(now as int),
            representable_millis(now + old(self).token_days() * MILLIS_PER_DAY),
        ensures
            !old(self).sessions().contains_key(session_id@) ==> (r matches Err(AppError::NotFound(m))
                && m@ == "Session not found"@) && final(self).sessions() == old(self).sessions(),
            old(self).sessions().contains_key(session_id@) ==> r is Ok && final(self).sessions() == old(
                self,
            ).sessions().insert(
                session_id@,
                SessionView {
                    expires_at: (now + old(self).token_days() * MILLIS_PER_DAY) as i64,
                    ..old(self).sessions()[session_id@]
                },
            ),
            final(self).players_of_sessions() == old(self).players_of_sessions(),
            final(self).token_days() == old(self).token_days(),
            final(self).session_days() == old(self).session_days(),
    {
        let mut session = match self.repository.get_session(session_id) {
            Ok(Some(s)) => s,
            Ok(None) => {
                return Err(AppError::NotFound(String::from_str("Session not found")));
            },
            Err(e) => {
                return Err(e);
            },
        };
        session.extend_expiration(self.token_config.expiration_days, now);
        self.repository.update_session(&session)
    }

    /// Forgets the sessions expired at `now`; how many.
    pub fn cleanup_expired_sessions(&mut self, now: i64) -> (r: Result<u64, AppError>)
        ensures
            final(self).sessions() == unexpired(old(self).sessions(), now),
            r matches Ok(n) && n == old(self).sessions().dom().len() - final(self).sessions().dom().len(),
            final(self).players_of_sessions() == old(self).players_of_sessions(),
            final(self).token_days() == old(self).token_days(),
            final(self).session_days() == old(self).session_days(),
    {
        self.repository.cleanup_expired_sessions(now)
    }

    /// The player of a stored session, if it was recorded; nothing for an unknown session.
    pub fn get_player_uuid_by_session(&self, session_id: &str) -> (r: Result<Option<String>, AppError>)
        ensures
            r matches Ok(o) && match o {
                Some(p) => self.sessions().contains_key(session_id@)
                    && self.players_of_sessions().contains_key(session_id@) && p@
                    == self.players_of_sessions()[session_id@],
                None => !self.sessions().contains_key(session_id@)
                    || !self.players_of_sessions().contains_key(session_id@),
            },
    {
        match self.repository.get_session(session_id) {
            Ok(Some(_)) => Ok(self.session_to_player_uuid.get(session_id)),
            Ok(None) => Ok(None),
            Err(e) => Err(e),
        }
    }

    /// The name of the player, if registered.
    pub fn get_playername_by_uuid(&self, players: &InMemoryPlayerMappingService, player_uuid: &str) -> (r: Option<
        String,
    >)
        ensures
            match r {
                Some(n) => players@.contains_key(player_uuid@) && n@ == players@[player_uuid@],
                None => !players@.contains_key(player_uuid@),
            },
    {
        players.get_playername(player_uuid)
    }
}

/// The token of an authorization header "Bearer <token>": a missing header or one of another
/// form is unauthorized.
pub fn bearer_token(header: Option<&str>) -> (r: Result<String, AppError>)
    ensures
        match header {
            None => r matches Err(AppError::Unauthorized(m)) && m@ == "Missing authorization header"@,
            Some(h) => if crate::text::starts_with(h@, "Bearer "@) {
                r matches Ok(t) && t@ == h@.subrange(7, h@.len() as int)
            } else {
                r matches Err(AppError::Unauthorized(m)) && m@ == "Invalid authorization header format"@
            },
        },
{
    let h = match header {
        Some(h) => h,
        None => {
            return Err(AppError::Unauthorized(String::from_str("Missing authorization header")));
        },
    };
    if crate::text::text_starts_with(h, "Bearer ") {
        proof {
            reveal_strlit("Bearer ");
        }
        Ok(h.substring_char(7, h.unicode_len()).to_string())
    } else {
        Err(AppError::Unauthorized(String::from_str("Invalid authorization header format")))
    }
}

} // verus!
