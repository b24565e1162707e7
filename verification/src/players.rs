use vstd::prelude::*;

use crate::bot::{is_bot_id, is_hyphenated_id, new_id_text, BotPlayer};
use crate::text::{keyed_map, keys_unique, lemma_keyed_at, lemma_keyed_push, lemma_keyed_remove};

verus! {

// ----------------------------------------------------------------------------
// Player identifiers
// ----------------------------------------------------------------------------
/// Why a player could not be registered.
#[derive(Debug, Clone, PartialEq, Eq)]
pub enum MappingError {
    UuidAlreadyExists { uuid: String, existing_playername: String },
    InvalidUuid { uuid: String },
}

/// The text an error is shown with.
pub open spec fn mapping_error_text(e: MappingError) -> Seq<char> {
    match e {
        MappingError::UuidAlreadyExists { uuid, existing_playername } => "Player with UUID "@ + uuid@
            + " already exists with playername: "@ + existing_playername@,
        MappingError::InvalidUuid { uuid } => "Invalid UUID format: "@ + uuid@,
    }
}

impl MappingError {
    /// The text this error is shown with.
    pub fn message(&self) -> (m: String)
        ensures
            m@ == mapping_error_text(*self),
    {
        match self {
            MappingError::UuidAlreadyExists { uuid, existing_playername } => {
                let mut m = String::from_str("Player with UUID ");
                m.append(uuid.as_str());
                m.append(" already exists with playername: ");
                m.append(existing_playername.as_str());
                m
            },
            MappingError::InvalidUuid { uuid } => {
                let mut m = String::from_str("Invalid UUID format: ");
                m.append(uuid.as_str());
                m
            },
        }
    }
}

/// A hexadecimal digit, in either case.
pub open spec fn is_hex_char(c: char) -> bool {
    ('0' <= c && c <= '9') || ('a' <= c && c <= 'f') || ('A' <= c && c <= 'F')
}

/// The hyphenated form of a UUID: 36 characters, hyphens at positions 8, 13, 18 and 23 and
/// hexadecimal digits (of either case) elsewhere.
pub open spec fn is_hyphenated_uuid_text(s: Seq<char>) -> bool {
    &&& s.len() == 36
    &&& forall|i: int|
        0 <= i < 36 ==> if i == 8 || i == 13 || i == 18 || i == 23 {
            #[trigger] s[i] == '-'
        } else {
            is_hex_char(s[i])
        }
}

/// The character in lower case, for ASCII letters.
pub open spec fn ascii_lower(c: char) -> char {
    if 'A' <= c && c <= 'Z' {
        ((c as u32) + 32) as char
    } else {
        c
    }
}

/// The prefix "urn:uuid:", with its letters in either case.
pub open spec fn is_urn_prefix(s: Seq<char>) -> bool {
    let p = seq!['u', 'r', 'n', ':', 'u', 'u', 'i', 'd', ':'];
    s.len() == 9 && forall|i: int| 0 <= i < 9 ==> ascii_lower(#[trigger] s[i]) == p[i]
}

/// The texts that `uuid::Uuid::parse_str` accepts: 32 hexadecimal digits; the hyphenated
/// form; the hyphenated form in braces; or the hyphenated form after "urn:uuid:" (letters of
/// the prefix in either case). The parser reads bytes; a text that holds a character beyond
/// ASCII matches none of these forms, and none of its bytes would be accepted either.
pub open spec fn uuid_text_parses(s: Seq<char>) -> bool {
    ||| s.len() == 32 && forall|i: int| 0 <= i < 32 ==> is_hex_char(#[trigger] s[i])
    ||| is_hyphenated_uuid_text(s)
    ||| s.len() == 38 && s[0] == '{' && s[37] == '}' && is_hyphenated_uuid_text(s.subrange(1, 37))
    ||| s.len() == 45 && is_urn_prefix(s.subrange(0, 9)) && is_hyphenated_uuid_text(s.subrange(9, 45))
}

/// An identifier in the form `Uuid::to_string` writes is read back as a UUID.
pub proof fn lemma_hyphenated_id_parses(s: Seq<char>)
    requires
        is_hyphenated_id(s),
    ensures
        uuid_text_parses(s),
{
    assert(is_hyphenated_uuid_text(s));
}

/// Calls `uuid::Uuid::parse_str` and tells whether it succeeded, which happens exactly on the
/// forms `uuid_text_parses` lists (the crate's parser checks the length, the hyphens, the
/// braces or the "urn:uuid:" prefix, and that every other character is a hexadecimal digit).
#[verifier::external_body]
fn parses_as_uuid(s: &str) -> (b: bool)
    ensures
        b == uuid_text_parses(s@),
{
    uuid::Uuid::parse_str(s).is_ok()
}

/// The identifier without a leading "bot-".
pub open spec fn without_bot_prefix(id: Seq<char>) -> Seq<char> {
    if is_bot_id(id) {
        id.subrange(4, id.len() as int)
    } else {
        id
    }
}

/// The identifier without a leading "bot-".
pub fn strip_bot_prefix(id: &str) -> (r: String)
    ensures
        r@ == without_bot_prefix(id@),
{
    if BotPlayer::is_bot_uuid(id) {
        id.substring_char(4, id.unicode_len()).to_string()
    } else {
        id.to_string()
    }
}

/// What the check of an identifier gives once the text after any "bot-" has been read:
/// nothing if it read as a UUID, else an invalid-UUID error naming the whole identifier.
pub fn uuid_check(uuid: &str, parsed: bool) -> (r: Result<(), MappingError>)
    ensures
        parsed ==> r is Ok,
        !parsed ==> (r matches Err(MappingError::InvalidUuid { uuid: u }) && u@ == uuid@),
{
    if parsed {
        Ok(())
    } else {
        Err(MappingError::InvalidUuid { uuid: uuid.to_string() })
    }
}

/// The values of a list of (identifier, name) pairs.
pub open spec fn pair_views(s: Seq<(String, String)>) -> Seq<(Seq<char>, Seq<char>)> {
    s.map_values(|p: (String, String)| (p.0@, p.1@))
}

// ----------------------------------------------------------------------------
// The registry of player names
// ----------------------------------------------------------------------------
/// Knows each player's name by the player's identifier (names need not be unique).
pub trait PlayerMappingService {
    /// Registers the player under a valid identifier that is not taken.
    fn register_player(&mut self, uuid: String, playername: String) -> Result<(), MappingError>;

    /// The player's name, if the identifier is registered.
    fn get_playername(&self, uuid: &str) -> Option<String>;

    /// Forgets the player; whether it was registered.
    fn remove_player(&mut self, uuid: &str) -> bool;

    /// Every (identifier, name) pair.
    fn get_all_mappings(&self) -> Vec<(String, String)>;
}

/// The registry of player names, in memory.
pub struct InMemoryPlayerMappingService {
    entries: Vec<(String, String)>,
}

impl View for InMemoryPlayerMappingService {
    type V = Map<Seq<char>, Seq<char>>;

    closed spec fn view(&self) -> Map<Seq<char>, Seq<char>> {
        keyed_map(pair_views(self.entries@))
    }
}

impl InMemoryPlayerMappingService {
    #[verifier::type_invariant]
    spec fn one_name_each(self) -> bool {
        keys_unique(pair_views(self.entries@))
    }

    /// An empty registry.
    pub fn new() -> (s: InMemoryPlayerMappingService)
        ensures
            s@ == Map::<Seq<char>, Seq<char>>::empty(),
    {
        let s = InMemoryPlayerMappingService { entries: Vec::new() };
        proof {
            assert(s@ =~= Map::<Seq<char>, Seq<char>>::empty());
        }
        s
    }

    /// A fresh random identifier for a player, in the hyphenated lowercase form.
    pub fn generate_uuid() -> (s: String)
        ensures
            is_hyphenated_id(s@),
    {
        new_id_text()
    }

    /// Checks that the identifier, after any leading "bot-", reads as a UUID.
    pub fn validate_uuid(uuid: &str) -> (r: Result<(), MappingError>)
        ensures
            uuid_text_parses(without_bot_prefix(uuid@)) ==> r is Ok,
            !uuid_text_parses(without_bot_prefix(uuid@)) ==> (r matches Err(
                MappingError::InvalidUuid { uuid: u },
            ) && u@ == uuid@),
    {
        let rest = strip_bot_prefix(uuid);
        let parsed = parses_as_uuid(rest.as_str());
        uuid_check(uuid, parsed)
    }

    /// Where the identifier stands, if registered.
    fn position(&self, uuid: &str) -> (r: Option<usize>)
        ensures
            match r {
                Some(i) => i < self.entries@.len() && self.entries@[i as int].0@ == uuid@,
                None => !self@.contains_key(uuid@),
            },
    {
        let target = String::from_str(uuid);
        let mut i: usize = 0;
        while i < self.entries.len()
            invariant
                i <= self.entries@.len(),
                target@ == uuid@,
                forall|j: int| 0 <= j < i ==> #[trigger] self.entries@[j].0@ != uuid@,
            decreases self.entries@.len() - i,
        {
            if self.entries[i].0 == target {
                return Some(i);
            }
            i = i + 1;
        }
        proof {
            let s = pair_views(self.entries@);
            if self@.contains_key(uuid@) {
                let c = choose|j: int| 0 <= j < s.len() && #[trigger] s[j].0 == uuid@;
                assert(self.entries@[c].0@ == uuid@);
            }
        }
        None
    }
}

impl PlayerMappingService for InMemoryPlayerMappingService {
    fn register_player(&mut self, uuid: String, playername: String) -> (r: Result<(), MappingError>)
        ensures
            !uuid_text_parses(without_bot_prefix(uuid@)) ==> (r matches Err(
                MappingError::InvalidUuid { uuid: u },
            ) && u@ == uuid@) && final(self)@ == old(self)@,
            uuid_text_parses(without_bot_prefix(uuid@)) && old(self)@.contains_key(uuid@) ==> (r matches Err(
                MappingError::UuidAlreadyExists { uuid: u, existing_playername: n },
            ) && u@ == uuid@ && n@ == old(self)@[uuid@]) && final(self)@ == old(self)@,
            uuid_text_parses(without_bot_prefix(uuid@)) && !old(self)@.contains_key(uuid@) ==> r is Ok
                && final(self)@ == old(self)@.insert(uuid@, playername@),
    {
        proof {
            use_type_invariant(&*self);
        }
        match Self::validate_uuid(uuid.as_str()) {
            Ok(()) => {},
            Err(e) => {
                return Err(e);
            },
        }
        match self.position(uuid.as_str()) {
            Some(i) => {
                proof {
                    lemma_keyed_at(pair_views(self.entries@), i as int);
                    assert(pair_views(self.entries@)[i as int] == (
                        self.entries@[i as int].0@,
                        self.entries@[i as int].1@,
                    ));
                }
                let existing_playername = self.entries[i].1.clone();
                return Err(MappingError::UuidAlreadyExists { uuid, existing_playername });
            },
            None => {},
        }
        let ghost before = pair_views(self.entries@);
        proof {
            lemma_keyed_push(before, (uuid@, playername@));
        }
        let mut entries: Vec<(String, String)> = Vec::new();
        std::mem::swap(&mut entries, &mut self.entries);
        entries.push((uuid, playername));
        proof {
            assert(pair_views(entries@) =~= before.push((uuid@, playername@)));
        }
        self.entries = entries;
        Ok(())
    }

    fn get_playername(&self, uuid: &str) -> (r: Option<String>)
        ensures
            match r {
                Some(n) => self@.contains_key(uuid@) && n@ == self@[uuid@],
                None => !self@.contains_key(uuid@),
            },
    {
        proof {
            use_type_invariant(self);
        }
        match self.position(uuid) {
            Some(i) => {
                proof {
                    lemma_keyed_at(pair_views(self.entries@), i as int);
                    assert(pair_views(self.entries@)[i as int] == (
                        self.entries@[i as int].0@,
                        self.entries@[i as int].1@,
                    ));
                }
                Some(self.entries[i].1.clone())
            },
            None => None,
        }
    }

    fn remove_player(&mut self, uuid: &str) -> (removed: bool)
        ensures
            removed == old(self)@.contains_key(uuid@),
            final(self)@ == old(self)@.remove(uuid@),
    {
        proof {
            use_type_invariant(&*self);
        }
        match self.position(uuid) {
            Some(i) => {
                let ghost before = pair_views(self.entries@);
                proof {
                    lemma_keyed_at(before, i as int);
                    lemma_keyed_remove(before, i as int);
                }
                let mut entries: Vec<(String, String)> = Vec::new();
                std::mem::swap(&mut entries, &mut self.entries);
                entries.remove(i);
                proof {
                    assert(pair_views(entries@) =~= before.remove(i as int));
                }
                self.entries = entries;
                true
            },
            None => {
                proof {
                    assert(old(self)@.remove(uuid@) =~= old(self)@);
                }
                false
            },
        }
    }

    fn get_all_mappings(&self) -> (r: Vec<(String, String)>)
        ensures
            keys_unique(pair_views(r@)),
            keyed_map(pair_views(r@)) == self@,
    {
        proof {
            use_type_invariant(self);
        }
        let mut out: Vec<(String, String)> = Vec::new();
        let mut i: usize = 0;
        while i < self.entries.len()
            invariant
                i <= self.entries@.len(),
                out@.len() == i,
                forall|j: int|
                    0 <= j < i ==> (#[trigger] out@[j]).0@ == self.entries@[j].0@ && out@[j].1@
                        == self.entries@[j].1@,
            decreases self.entries@.len() - i,
        {
            out.push((self.entries[i].0.clone(), self.entries[i].1.clone()));
            i = i + 1;
        }
        proof {
            assert(pair_views(out@) =~= pair_views(self.entries@));
        }
        out
    }
}

} // verus!
