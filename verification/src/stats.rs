use vstd::prelude::*;

use crate::game::{player_views, Game, GameView, Player, PlayerView};

verus! {

// ----------------------------------------------------------------------------
// Errors
// ----------------------------------------------------------------------------
/// Why collecting, scoring or recording a game failed.
#[derive(Debug, Clone, PartialEq, Eq)]
pub enum StatsError {
    Repository(String),
    Collector(String),
    Calculator(String),
    Validation(String),
}

/// The text an error is shown with.
pub open spec fn stats_error_text(e: StatsError) -> Seq<char> {
    match e {
        StatsError::Repository(m) => "Repository error: "@ + m@,
        StatsError::Collector(m) => "Collector error: "@ + m@,
        StatsError::Calculator(m) => "Calculator error: "@ + m@,
        StatsError::Validation(m) => "Validation error: "@ + m@,
    }
}

impl StatsError {
    /// The text this error is shown with.
    pub fn message(&self) -> (m: String)
        ensures
            m@ == stats_error_text(*self),
    {
        let (mut m, detail) = match self {
            StatsError::Repository(d) => (String::from_str("Repository error: "), d),
            StatsError::Collector(d) => (String::from_str("Collector error: "), d),
            StatsError::Calculator(d) => (String::from_str("Calculator error: "), d),
            StatsError::Validation(d) => (String::from_str("Validation error: "), d),
        };
        m.append(detail.as_str());
        m
    }
}

// ----------------------------------------------------------------------------
// Scores by player
// ----------------------------------------------------------------------------
/// The score recorded first for `key` in a list of (player, score) entries.
pub open spec fn score_lookup(s: Seq<(Seq<char>, i32)>, key: Seq<char>) -> Option<i32>
    decreases s.len(),
{
    if s.len() == 0 {
        None
    } else if s[0].0 == key {
        Some(s[0].1)
    } else {
        score_lookup(s.drop_first(), key)
    }
}

/// The (player, score) entries of a list of owned entries.
pub open spec fn entry_views(s: Seq<(String, i32)>) -> Seq<(Seq<char>, i32)> {
    s.map_values(|e: (String, i32)| (e.0@, e.1))
}

/// Scores by player, each player once.
#[derive(Debug, Clone)]
pub struct ScoreTable {
    entries: Vec<(String, i32)>,
}

impl View for ScoreTable {
    type V = Map<Seq<char>, i32>;

    closed spec fn view(&self) -> Map<Seq<char>, i32> {
        let s = entry_views(self.entries@);
        Map::new(|k: Seq<char>| score_lookup(s, k) is Some, |k: Seq<char>| score_lookup(s, k)->Some_0)
    }
}

proof fn lemma_lookup_found(s: Seq<(Seq<char>, i32)>, key: Seq<char>)
    ensures
        score_lookup(s, key) is Some <==> exists|i: int| 0 <= i < s.len() && #[trigger] s[i].0 == key,
        score_lookup(s, key) is Some ==> exists|i: int|
            0 <= i < s.len() && #[trigger] s[i].0 == key && s[i].1 == score_lookup(s, key)->Some_0
                && forall|j: int| 0 <= j < i ==> #[trigger] s[j].0 != key,
    decreases s.len(),
{
    if s.len() > 0 {
        lemma_lookup_found(s.drop_first(), key);
        if s[0].0 != key {
            if exists|i: int| 0 <= i < s.len() && #[trigger] s[i].0 == key {
                let i = choose|i: int| 0 <= i < s.len() && #[trigger] s[i].0 == key;
                assert(s.drop_first()[i - 1].0 == key);
            }
            if score_lookup(s, key) is Some {
                let i = choose|i: int|
                    0 <= i < s.drop_first().len() && #[trigger] s.drop_first()[i].0 == key
                        && s.drop_first()[i].1 == score_lookup(s, key)->Some_0 && forall|j: int|
                        0 <= j < i ==> #[trigger] s.drop_first()[j].0 != key;
                assert(s[i + 1].0 == key);
                assert forall|j: int| 0 <= j < i + 1 implies #[trigger] s[j].0 != key by {
                    if j > 0 {
                        assert(s[j] == s.drop_first()[j - 1]);
                    }
                }
            }
        } else {
            assert(s[0].0 == key);
        }
    }
}

/// Looking up a key after appending an entry for a key that was absent.
proof fn lemma_lookup_push(s: Seq<(Seq<char>, i32)>, e: (Seq<char>, i32), key: Seq<char>)
    requires
        score_lookup(s, e.0) is None,
    ensures
        score_lookup(s.push(e), key) == if key == e.0 {
            Some(e.1)
        } else {
            score_lookup(s, key)
        },
    decreases s.len(),
{
    if s.len() > 0 {
        assert(s.push(e).drop_first() == s.drop_first().push(e));
        assert(s.push(e)[0] == s[0]);
        assert(s[0].0 != e.0);
        lemma_lookup_push(s.drop_first(), e, key);
        assert(score_lookup(s.push(e), key) == if s[0].0 == key {
            Some(s[0].1)
        } else {
            score_lookup(s.drop_first().push(e), key)
        });
    } else {
        assert(s.push(e)[0] == e);
        assert(s.push(e).drop_first().len() == 0);
        assert(score_lookup(s.push(e).drop_first(), key) is None);
    }
}

/// Looking up a key after replacing the value of the first entry for `k`.
proof fn lemma_lookup_update(s: Seq<(Seq<char>, i32)>, i: int, v: i32, key: Seq<char>)
    requires
        0 <= i < s.len(),
        forall|j: int| 0 <= j < i ==> #[trigger] s[j].0 != s[i].0,
    ensures
        score_lookup(s.update(i, (s[i].0, v)), key) == if key == s[i].0 {
            Some(v)
        } else {
            score_lookup(s, key)
        },
    decreases s.len(),
{
    if i == 0 {
        assert(s.update(i, (s[i].0, v)).drop_first() == s.drop_first());
        assert(s.update(i, (s[i].0, v))[0] == (s[i].0, v));
    } else {
        let t = s.drop_first();
        assert(s.update(i, (s[i].0, v))[0] == s[0]);
        assert(s[0].0 != s[i].0);
        assert(s.update(i, (s[i].0, v)).drop_first() == t.update(i - 1, (t[i - 1].0, v)));
        assert forall|j: int| 0 <= j < i - 1 implies #[trigger] t[j].0 != t[i - 1].0 by {
            assert(t[j] == s[j + 1]);
        }
        lemma_lookup_update(t, i - 1, v, key);
    }
}

impl ScoreTable {
    /// A table with no scores.
    pub fn new() -> (t: ScoreTable)
        ensures
            t@ == Map::<Seq<char>, i32>::empty(),
    {
        let t = ScoreTable { entries: Vec::new() };
        proof {
            assert(t@ =~= Map::<Seq<char>, i32>::empty());
        }
        t
    }

    /// The score of `key`, if it has one.
    pub fn get(&self, key: &str) -> (r: Option<i32>)
        ensures
            r == (if self@.contains_key(key@) {
                Some(self@[key@])
            } else {
                None
            }),
    {
        let ghost s = entry_views(self.entries@);
        let target = String::from_str(key);
        let mut i: usize = 0;
        proof {
            assert(s.subrange(0, s.len() as int) == s);
        }
        while i < self.entries.len()
            invariant
                s == entry_views(self.entries@),
                target@ == key@,
                i <= self.entries@.len(),
                score_lookup(s, key@) == score_lookup(s.subrange(i as int, s.len() as int), key@),
            decreases self.entries@.len() - i,
        {
            proof {
                let rest = s.subrange(i as int, s.len() as int);
                assert(rest.drop_first() == s.subrange(i + 1, s.len() as int));
                assert(rest[0] == s[i as int]);
            }
            if self.entries[i].0 == target {
                return Some(self.entries[i].1);
            }
            i = i + 1;
        }
        proof {
            assert(s.subrange(i as int, s.len() as int).len() == 0);
        }
        None
    }

    /// Sets the score of `key`.
    pub fn insert(&mut self, key: String, value: i32)
        ensures
            final(self)@ == old(self)@.insert(key@, value),
    {
        let ghost s = entry_views(self.entries@);
        let mut i: usize = 0;
        while i < self.entries.len()
            invariant
                s == entry_views(self.entries@),
                s == entry_views(old(self).entries@),
                i <= self.entries@.len(),
                forall|j: int| 0 <= j < i ==> #[trigger] s[j].0 != key@,
            decreases self.entries@.len() - i,
        {
            proof {
                assert(s[i as int].0 == self.entries@[i as int].0@);
            }
            if self.entries[i].0 == key {
                let k = self.entries[i].0.clone();
                self.entries.set(i, (k, value));
                proof {
                    assert(entry_views(self.entries@) == s.update(i as int, (s[i as int].0, value)));
                    assert forall|q: Seq<char>| true implies score_lookup(entry_views(self.entries@), q)
                        == if q == key@ {
                        Some(value)
                    } else {
                        score_lookup(s, q)
                    } by {
                        lemma_lookup_update(s, i as int, value, q);
                    }
                    assert(self@ =~= old(self)@.insert(key@, value));
                }
                return;
            }
            i = i + 1;
        }
        proof {
            lemma_lookup_found(s, key@);
        }
        self.entries.push((key, value));
        proof {
            assert(entry_views(self.entries@) == s.push((key@, value)));
            assert forall|q: Seq<char>| true implies score_lookup(entry_views(self.entries@), q)
                == if q == key@ {
                Some(value)
            } else {
                score_lookup(s, q)
            } by {
                lemma_lookup_push(s, (key@, value), q);
            }
            assert(self@ =~= old(self)@.insert(key@, value));
        }
    }

    /// A copy of this table.
    pub fn duplicate(&self) -> (r: ScoreTable)
        ensures
            r@ == self@,
    {
        let mut entries: Vec<(String, i32)> = Vec::new();
        let mut i: usize = 0;
        while i < self.entries.len()
            invariant
                i <= self.entries@.len(),
                entries@.len() == i,
                forall|j: int|
                    0 <= j < i ==> (#[trigger] entries@[j]).0@ == self.entries@[j].0@
                        && entries@[j].1 == self.entries@[j].1,
            decreases self.entries@.len() - i,
        {
            let k = self.entries[i].0.clone();
            let v = self.entries[i].1;
            entries.push((k, v));
            i = i + 1;
        }
        let r = ScoreTable { entries };
        proof {
            assert(entry_views(r.entries@) =~= entry_views(self.entries@));
        }
        r
    }
}


// ----------------------------------------------------------------------------
// What is collected about a finished game
// ----------------------------------------------------------------------------
/// One fact collected about a player at the end of a game.
#[derive(Debug, Clone)]
pub enum CollectedData {
    /// How many cards the player still held.
    CardsRemaining { player_uuid: String, count: u8 },
    /// Whether the player won.
    WinLoss { player_uuid: String, won: bool },
}

/// The value of a collected fact.
pub enum CollectedDataView {
    CardsRemaining { player_uuid: Seq<char>, count: u8 },
    WinLoss { player_uuid: Seq<char>, won: bool },
}

impl View for CollectedData {
    type V = CollectedDataView;

    open spec fn view(&self) -> CollectedDataView {
        match self {
            CollectedData::CardsRemaining { player_uuid, count } => CollectedDataView::CardsRemaining {
                player_uuid: player_uuid@,
                count: *count,
            },
            CollectedData::WinLoss { player_uuid, won } => CollectedDataView::WinLoss {
                player_uuid: player_uuid@,
                won: *won,
            },
        }
    }
}

/// The values of a list of collected facts.
pub open spec fn data_views(s: Seq<CollectedData>) -> Seq<CollectedDataView> {
    s.map_values(|d: CollectedData| d@)
}

/// The player a fact is about.
pub open spec fn data_player(d: CollectedDataView) -> Seq<char> {
    match d {
        CollectedDataView::CardsRemaining { player_uuid, .. } => player_uuid,
        CollectedDataView::WinLoss { player_uuid, .. } => player_uuid,
    }
}

impl CollectedData {
    /// The player this fact is about.
    pub fn player_uuid(&self) -> (u: &str)
        ensures
            u@ == data_player(self@),
    {
        match self {
            CollectedData::CardsRemaining { player_uuid, .. } => player_uuid.as_str(),
            CollectedData::WinLoss { player_uuid, .. } => player_uuid.as_str(),
        }
    }
}

/// The first count of remaining cards collected for `uuid`.
pub open spec fn cards_left(data: Seq<CollectedDataView>, uuid: Seq<char>) -> Option<u8>
    decreases data.len(),
{
    if data.len() == 0 {
        None
    } else {
        match data[0] {
            CollectedDataView::CardsRemaining { player_uuid, count } => if player_uuid == uuid {
                Some(count)
            } else {
                cards_left(data.drop_first(), uuid)
            },
            _ => cards_left(data.drop_first(), uuid),
        }
    }
}

/// The fact says that `uuid` still held ten cards or more.
pub open spec fn ten_or_more(d: CollectedDataView, uuid: Seq<char>) -> bool {
    match d {
        CollectedDataView::CardsRemaining { player_uuid, count } => player_uuid == uuid && count
            >= 10,
        _ => false,
    }
}

/// Some fact says that `uuid` still held ten cards or more.
pub open spec fn has_ten_or_more(data: Seq<CollectedDataView>, uuid: Seq<char>) -> bool {
    exists|i: int| 0 <= i < data.len() && #[trigger] ten_or_more(data[i], uuid)
}

// ----------------------------------------------------------------------------
// Results and statistics
// ----------------------------------------------------------------------------
/// How one player ended a game.
#[derive(Debug, Clone)]
pub struct PlayerGameResult {
    pub uuid: String,
    pub cards_remaining: u8,
    /// The score before multipliers.
    pub raw_score: i32,
    pub final_score: i32,
}

/// The value of a player's result.
pub struct PlayerGameResultView {
    pub uuid: Seq<char>,
    pub cards_remaining: u8,
    pub raw_score: i32,
    pub final_score: i32,
}

impl View for PlayerGameResult {
    type V = PlayerGameResultView;

    open spec fn view(&self) -> PlayerGameResultView {
        PlayerGameResultView {
            uuid: self.uuid@,
            cards_remaining: self.cards_remaining,
            raw_score: self.raw_score,
            final_score: self.final_score,
        }
    }
}

/// The values of a list of player results.
pub open spec fn result_views(s: Seq<PlayerGameResult>) -> Seq<PlayerGameResultView> {
    s.map_values(|r: PlayerGameResult| r@)
}

/// A finished game: where, which game of the room, who won, how each player ended, when
/// (milliseconds since the Unix epoch) and whether bots played.
#[derive(Debug, Clone)]
pub struct GameResult {
    pub room_id: String,
    pub game_number: u32,
    pub winner_uuid: String,
    pub players: Vec<PlayerGameResult>,
    pub completed_at: i64,
    pub had_bots: bool,
}

/// The value of a finished game.
pub struct GameResultView {
    pub room_id: Seq<char>,
    pub game_number: u32,
    pub winner_uuid: Seq<char>,
    pub players: Seq<PlayerGameResultView>,
    pub completed_at: i64,
    pub had_bots: bool,
}

impl View for GameResult {
    type V = GameResultView;

    open spec fn view(&self) -> GameResultView {
        GameResultView {
            room_id: self.room_id@,
            game_number: self.game_number,
            winner_uuid: self.winner_uuid@,
            players: result_views(self.players@),
            completed_at: self.completed_at,
            had_bots: self.had_bots,
        }
    }
}

// ----------------------------------------------------------------------------
// Scoring
// ----------------------------------------------------------------------------
/// The priority of calculators that give the base score (they run first).
pub const BASE_SCORE: u32 = 100;

/// The priority of calculators that multiply a score.
pub const MULTIPLIER: u32 = 200;

/// What a calculator sees: the finished game and the scores the calculators before it gave.
#[derive(Debug, Clone)]
pub struct CalculationContext {
    pub game_result: GameResult,
    pub current_scores: ScoreTable,
}

impl CalculationContext {
    pub fn new(game_result: GameResult, current_scores: ScoreTable) -> (c: CalculationContext)
        ensures
            c.game_result@ == game_result@,
            c.current_scores@ == current_scores@,
    {
        CalculationContext { game_result, current_scores }
    }
}

/// A step of scoring: calculators run by increasing priority, each giving every player a
/// new score.
pub trait ScoreCalculator {
    /// Whether this calculator can score `player_uuid` given the scores so far.
    spec fn accepts(&self, player_uuid: Seq<char>, current_scores: Map<Seq<char>, i32>) -> bool;

    /// The score of the player.
    fn calculate(
        &self,
        player_uuid: &str,
        collected_data: &[CollectedData],
        context: &CalculationContext,
    ) -> i32
        requires
            self.accepts(player_uuid@, context.current_scores@),
    ;

    /// When the calculator runs: lower first.
    fn priority(&self) -> u32;
}

/// The score so far of `uuid`, zero if it has none.
pub open spec fn score_or_zero(scores: Map<Seq<char>, i32>, uuid: Seq<char>) -> i32 {
    if scores.contains_key(uuid) {
        scores[uuid]
    } else {
        0
    }
}

/// The base score: the cards the player still held (zero if nothing was collected).
pub open spec fn card_count_score(data: Seq<CollectedDataView>, uuid: Seq<char>) -> i32 {
    match cards_left(data, uuid) {
        Some(c) => c as i32,
        None => 0,
    }
}

/// The score doubled for a player who still held ten cards or more.
pub open spec fn ten_plus_score(
    data: Seq<CollectedDataView>,
    uuid: Seq<char>,
    scores: Map<Seq<char>, i32>,
) -> i32 {
    let base = score_or_zero(scores, uuid);
    if has_ten_or_more(data, uuid) {
        (2 * base) as i32
    } else {
        base
    }
}

/// Scores a player by the cards left in hand.
#[derive(Debug, Clone, Copy)]
pub struct CardCountScoreCalculator;

impl CardCountScoreCalculator {
    pub fn new() -> CardCountScoreCalculator {
        CardCountScoreCalculator
    }
}

impl ScoreCalculator for CardCountScoreCalculator {
    open spec fn accepts(&self, player_uuid: Seq<char>, current_scores: Map<Seq<char>, i32>) -> bool {
        true
    }

    fn calculate(
        &self,
        player_uuid: &str,
        collected_data: &[CollectedData],
        context: &CalculationContext,
    ) -> (r: i32)
        ensures
            r == card_count_score(data_views(collected_data@), player_uuid@),
    {
        let ghost d = data_views(collected_data@);
        let target = String::from_str(player_uuid);
        let mut i: usize = 0;
        proof {
            assert(d.subrange(0, d.len() as int) == d);
        }
        while i < collected_data.len()
            invariant
                d == data_views(collected_data@),
                target@ == player_uuid@,
                i <= collected_data@.len(),
                cards_left(d, player_uuid@) == cards_left(
                    d.subrange(i as int, d.len() as int),
                    player_uuid@,
                ),
            decreases collected_data@.len() - i,
        {
            proof {
                let rest = d.subrange(i as int, d.len() as int);
                assert(rest.drop_first() == d.subrange(i + 1, d.len() as int));
                assert(rest[0] == d[i as int]);
            }
            match &collected_data[i] {
                CollectedData::CardsRemaining { player_uuid: uuid, count } => {
                    if *uuid == target {
                        return *count as i32;
                    }
                },
                _ => {},
            }
            i = i + 1;
        }
        proof {
            assert(d.subrange(i as int, d.len() as int).len() == 0);
        }
        0
    }

    fn priority(&self) -> (p: u32)
        ensures
            p == BASE_SCORE,
    {
        BASE_SCORE
    }
}

/// Doubles the score of a player left with ten cards or more.
#[derive(Debug, Clone, Copy)]
pub struct TenPlusMultiplierCalculator;

impl TenPlusMultiplierCalculator {
    pub fn new() -> TenPlusMultiplierCalculator {
        TenPlusMultiplierCalculator
    }
}

impl ScoreCalculator for TenPlusMultiplierCalculator {
    /// The score so far can be doubled within 32 bits.
    open spec fn accepts(&self, player_uuid: Seq<char>, current_scores: Map<Seq<char>, i32>) -> bool {
        let b = score_or_zero(current_scores, player_uuid);
        i32::MIN <= 2 * b <= i32::MAX
    }

    fn calculate(
        &self,
        player_uuid: &str,
        collected_data: &[CollectedData],
        context: &CalculationContext,
    ) -> (r: i32)
        ensures
            r == ten_plus_score(
                data_views(collected_data@),
                player_uuid@,
                context.current_scores@,
            ),
    {
        let base_score = match context.current_scores.get(player_uuid) {
            Some(v) => v,
            None => 0,
        };
        let ghost d = data_views(collected_data@);
        let target = String::from_str(player_uuid);
        let mut has_ten_plus = false;
        let mut i: usize = 0;
        while i < collected_data.len()
            invariant
                d == data_views(collected_data@),
                target@ == player_uuid@,
                i <= collected_data@.len(),
                has_ten_plus == exists|j: int| 0 <= j < i && #[trigger] ten_or_more(d[j], player_uuid@),
            decreases collected_data@.len() - i,
        {
            let here = match &collected_data[i] {
                CollectedData::CardsRemaining { player_uuid: uuid, count } => *uuid == target && *count
                    >= 10,
                _ => false,
            };
            proof {
                assert(here == ten_or_more(d[i as int], player_uuid@));
            }
            has_ten_plus = has_ten_plus || here;
            i = i + 1;
        }
        if has_ten_plus {
            base_score * 2
        } else {
            base_score
        }
    }

    fn priority(&self) -> (p: u32)
        ensures
            p == MULTIPLIER,
    {
        MULTIPLIER
    }
}

// ----------------------------------------------------------------------------
// Collecting
// ----------------------------------------------------------------------------
/// Collects facts about a finished game.
pub trait StatCollector {
    fn collect(&self, game: &Game, winner_uuid: &str) -> Result<Vec<CollectedData>, StatsError>;
}

/// Collects how many cards each player still held, player by player in seat order.
#[derive(Debug, Clone, Copy)]
pub struct CardsRemainingCollector;

impl CardsRemainingCollector {
    pub fn new() -> CardsRemainingCollector {
        CardsRemainingCollector
    }
}

/// The count of remaining cards collected for each player, in seat order (a count above 255
/// wraps, as a byte does).
pub open spec fn cards_remaining_data(players: Seq<PlayerView>) -> Seq<CollectedDataView> {
    players.map_values(
        |p: PlayerView| CollectedDataView::CardsRemaining { player_uuid: p.name, count: p.cards.len() as u8 },
    )
}

/// Whether each player won, in seat order.
pub open spec fn win_loss_data(players: Seq<PlayerView>, winner: Seq<char>) -> Seq<CollectedDataView> {
    players.map_values(
        |p: PlayerView| CollectedDataView::WinLoss { player_uuid: p.name, won: p.name == winner },
    )
}

impl StatCollector for CardsRemainingCollector {
    fn collect(&self, game: &Game, winner_uuid: &str) -> (r: Result<Vec<CollectedData>, StatsError>)
        ensures
            r matches Ok(data) && data_views(data@) == cards_remaining_data(game@.players),
    {
        let players = game.players();
        let mut data: Vec<CollectedData> = Vec::new();
        let mut i: usize = 0;
        while i < players.len()
            invariant
                player_views(players@) == game@.players,
                i <= players@.len(),
                data@.len() == i,
                forall|j: int| 0 <= j < i ==> (#[trigger] data@[j])@ == cards_remaining_data(game@.players)[j],
            decreases players@.len() - i,
        {
            let p: &Player = &players[i];
            #[verifier::truncate]
            let count = p.cards.len() as u8;
            data.push(CollectedData::CardsRemaining { player_uuid: p.name.clone(), count });
            i = i + 1;
        }
        proof {
            assert(data_views(data@) =~= cards_remaining_data(game@.players));
        }
        Ok(data)
    }
}

/// Collects who won and who lost.
#[derive(Debug, Clone, Copy)]
pub struct WinLossCollector;

impl WinLossCollector {
    pub fn new() -> WinLossCollector {
        WinLossCollector
    }
}

impl StatCollector for WinLossCollector {
    fn collect(&self, game: &Game, winner_uuid: &str) -> (r: Result<Vec<CollectedData>, StatsError>)
        ensures
            game@.players.len() == 0 ==> (r matches Err(StatsError::Validation(m)) && m@
                == "WinLossCollector requires at least one player"@),
            game@.players.len() > 0 ==> (r matches Ok(data) && data_views(data@) == win_loss_data(
                game@.players,
                winner_uuid@,
            )),
    {
        let players = game.players();
        if players.len() == 0 {
            return Err(
                StatsError::Validation(String::from_str("WinLossCollector requires at least one player")),
            );
        }
        let winner = String::from_str(winner_uuid);
        let mut data: Vec<CollectedData> = Vec::new();
        let mut i: usize = 0;
        while i < players.len()
            invariant
                player_views(players@) == game@.players,
                winner@ == winner_uuid@,
                i <= players@.len(),
                data@.len() == i,
                forall|j: int| 0 <= j < i ==> (#[trigger] data@[j])@ == win_loss_data(game@.players, winner_uuid@)[j],
            decreases players@.len() - i,
        {
            let p: &Player = &players[i];
            let won = p.name == winner;
            data.push(CollectedData::WinLoss { player_uuid: p.name.clone(), won });
            i = i + 1;
        }
        proof {
            assert(data_views(data@) =~= win_loss_data(game@.players, winner_uuid@));
        }
        Ok(data)
    }
}


// ----------------------------------------------------------------------------
// Statistics of a room
// ----------------------------------------------------------------------------
/// A player's record in a room.
#[derive(Debug, Clone)]
pub struct PlayerStats {
    pub uuid: String,
    pub games_played: u32,
    pub wins: u32,
    pub total_score: i32,
    pub current_win_streak: u32,
    pub best_win_streak: u32,
}

/// The value of a player's record.
pub struct PlayerStatsView {
    pub uuid: Seq<char>,
    pub games_played: u32,
    pub wins: u32,
    pub total_score: i32,
    pub current_win_streak: u32,
    pub best_win_streak: u32,
}

impl View for PlayerStats {
    type V = PlayerStatsView;

    open spec fn view(&self) -> PlayerStatsView {
        PlayerStatsView {
            uuid: self.uuid@,
            games_played: self.games_played,
            wins: self.wins,
            total_score: self.total_score,
            current_win_streak: self.current_win_streak,
            best_win_streak: self.best_win_streak,
        }
    }
}

/// The values of a list of player records.
pub open spec fn stats_views(s: Seq<PlayerStats>) -> Seq<PlayerStatsView> {
    s.map_values(|p: PlayerStats| p@)
}

/// The statistics of a room: games played, and each player's record (one per player, in the
/// order the players first finished a game there).
#[derive(Debug, Clone)]
pub struct RoomStats {
    pub room_id: String,
    pub games_played: u32,
    pub player_stats: Vec<PlayerStats>,
}

/// The value of a room's statistics.
pub struct RoomStatsView {
    pub room_id: Seq<char>,
    pub games_played: u32,
    pub player_stats: Seq<PlayerStatsView>,
}

impl View for RoomStats {
    type V = RoomStatsView;

    open spec fn view(&self) -> RoomStatsView {
        RoomStatsView {
            room_id: self.room_id@,
            games_played: self.games_played,
            player_stats: stats_views(self.player_stats@),
        }
    }
}

/// A record with nothing in it yet.
pub open spec fn fresh_player(uuid: Seq<char>) -> PlayerStatsView {
    PlayerStatsView {
        uuid,
        games_played: 0,
        wins: 0,
        total_score: 0,
        current_win_streak: 0,
        best_win_streak: 0,
    }
}

/// A record after one more game: one more game played, the final score added; a win adds a
/// win and lengthens the streak (the best streak keeps the longest), a loss ends the streak.
pub open spec fn player_after(s: PlayerStatsView, r: PlayerGameResultView, winner: Seq<char>) -> PlayerStatsView {
    if r.uuid == winner {
        let streak = s.current_win_streak + 1;
        PlayerStatsView {
            uuid: s.uuid,
            games_played: (s.games_played + 1) as u32,
            wins: (s.wins + 1) as u32,
            total_score: (s.total_score + r.final_score) as i32,
            current_win_streak: streak as u32,
            best_win_streak: if s.best_win_streak >= streak {
                s.best_win_streak
            } else {
                streak as u32
            },
        }
    } else {
        PlayerStatsView {
            uuid: s.uuid,
            games_played: (s.games_played + 1) as u32,
            wins: s.wins,
            total_score: (s.total_score + r.final_score) as i32,
            current_win_streak: 0,
            best_win_streak: s.best_win_streak,
        }
    }
}

/// The counters of a record can take one more game without overflowing.
pub open spec fn player_fits(s: PlayerStatsView, r: PlayerGameResultView, winner: Seq<char>) -> bool {
    &&& s.games_played + 1 <= u32::MAX
    &&& i32::MIN <= s.total_score + r.final_score <= i32::MAX
    &&& r.uuid == winner ==> s.wins + 1 <= u32::MAX && s.current_win_streak + 1 <= u32::MAX
}

/// Where `uuid`'s record stands among the records, if it has one.
pub open spec fn player_index(ps: Seq<PlayerStatsView>, uuid: Seq<char>) -> Option<int> {
    if exists|i: int| 0 <= i < ps.len() && #[trigger] ps[i].uuid == uuid {
        Some(choose|i: int| 0 <= i < ps.len() && #[trigger] ps[i].uuid == uuid)
    } else {
        None
    }
}

/// `uuid`'s record, or a fresh one.
pub open spec fn record_of(ps: Seq<PlayerStatsView>, uuid: Seq<char>) -> PlayerStatsView {
    match player_index(ps, uuid) {
        Some(i) => ps[i],
        None => fresh_player(uuid),
    }
}

/// The records after one player's result: that player's record is updated in place, or
/// added at the end.
pub open spec fn with_result(ps: Seq<PlayerStatsView>, r: PlayerGameResultView, winner: Seq<char>) -> Seq<
    PlayerStatsView,
> {
    match player_index(ps, r.uuid) {
        Some(i) => ps.update(i, player_after(ps[i], r, winner)),
        None => ps.push(player_after(fresh_player(r.uuid), r, winner)),
    }
}

/// The records after the players' results, taken in order.
pub open spec fn with_results(
    ps: Seq<PlayerStatsView>,
    results: Seq<PlayerGameResultView>,
    winner: Seq<char>,
) -> Seq<PlayerStatsView>
    decreases results.len(),
{
    if results.len() == 0 {
        ps
    } else {
        with_result(with_results(ps, results.drop_last(), winner), results.last(), winner)
    }
}

/// No counter overflows while the results are recorded in order.
pub open spec fn results_fit(
    ps: Seq<PlayerStatsView>,
    results: Seq<PlayerGameResultView>,
    winner: Seq<char>,
) -> bool
    decreases results.len(),
{
    if results.len() == 0 {
        true
    } else {
        let before = with_results(ps, results.drop_last(), winner);
        results_fit(ps, results.drop_last(), winner) && player_fits(
            record_of(before, results.last().uuid),
            results.last(),
            winner,
        )
    }
}

/// Each player has one record at most.
pub open spec fn unique_players(ps: Seq<PlayerStatsView>) -> bool {
    forall|i: int, j: int| 0 <= i < j < ps.len() ==> #[trigger] ps[i].uuid != #[trigger] ps[j].uuid
}

/// A room's statistics with nothing recorded.
pub open spec fn fresh_room(room_id: Seq<char>) -> RoomStatsView {
    RoomStatsView { room_id, games_played: 0, player_stats: Seq::empty() }
}

/// A room's statistics after a game: one more game played, and the players' results
/// recorded in order.
pub open spec fn room_after(r: RoomStatsView, g: GameResultView) -> RoomStatsView {
    RoomStatsView {
        room_id: r.room_id,
        games_played: (r.games_played + 1) as u32,
        player_stats: with_results(r.player_stats, g.players, g.winner_uuid),
    }
}

/// Recording the game overflows no counter of the room's statistics.
pub open spec fn room_fits(r: RoomStatsView, g: GameResultView) -> bool {
    r.games_played + 1 <= u32::MAX && results_fit(r.player_stats, g.players, g.winner_uuid)
}

/// Recording one result keeps each player to one record.
proof fn lemma_with_result_unique(ps: Seq<PlayerStatsView>, r: PlayerGameResultView, winner: Seq<char>)
    requires
        unique_players(ps),
    ensures
        unique_players(with_result(ps, r, winner)),
        with_result(ps, r, winner).len() >= ps.len(),
{
    let n = with_result(ps, r, winner);
    match player_index(ps, r.uuid) {
        Some(k) => {
            assert forall|i: int, j: int| 0 <= i < j < n.len() implies #[trigger] n[i].uuid
                != #[trigger] n[j].uuid by {
                assert(n[i].uuid == ps[i].uuid);
                assert(n[j].uuid == ps[j].uuid);
            }
        },
        None => {
            assert forall|i: int, j: int| 0 <= i < j < n.len() implies #[trigger] n[i].uuid
                != #[trigger] n[j].uuid by {
                if j == ps.len() {
                    assert(n[i].uuid == ps[i].uuid);
                    assert(n[j].uuid == r.uuid);
                }
            }
        },
    }
}

impl PlayerStats {
    /// A copy of this record.
    pub fn duplicate(&self) -> (r: PlayerStats)
        ensures
            r@ == self@,
    {
        PlayerStats {
            uuid: self.uuid.clone(),
            games_played: self.games_played,
            wins: self.wins,
            total_score: self.total_score,
            current_win_streak: self.current_win_streak,
            best_win_streak: self.best_win_streak,
        }
    }
}

/// The index of `uuid`'s record, if it has one.
fn find_player(ps: &Vec<PlayerStats>, uuid: &str) -> (r: Option<usize>)
    requires
        unique_players(stats_views(ps@)),
    ensures
        match r {
            Some(i) => player_index(stats_views(ps@), uuid@) == Some(i as int),
            None => player_index(stats_views(ps@), uuid@) is None,
        },
{
    let ghost v = stats_views(ps@);
    let target = String::from_str(uuid);
    let mut i: usize = 0;
    while i < ps.len()
        invariant
            v == stats_views(ps@),
            unique_players(v),
            target@ == uuid@,
            i <= ps@.len(),
            forall|j: int| 0 <= j < i ==> #[trigger] v[j].uuid != uuid@,
        decreases ps@.len() - i,
    {
        if ps[i].uuid == target {
            proof {
                assert(v[i as int].uuid == uuid@);
                let c = choose|k: int| 0 <= k < v.len() && #[trigger] v[k].uuid == uuid@;
                if c != i {
                    if c < i {
                        assert(v[c].uuid != v[i as int].uuid);
                    } else {
                        assert(v[i as int].uuid != v[c].uuid);
                    }
                }
            }
            return Some(i);
        }
        i = i + 1;
    }
    None
}

impl RoomStats {
    /// A copy of these statistics.
    pub fn duplicate(&self) -> (r: RoomStats)
        ensures
            r@ == self@,
    {
        let mut player_stats: Vec<PlayerStats> = Vec::new();
        let mut i: usize = 0;
        while i < self.player_stats.len()
            invariant
                i <= self.player_stats@.len(),
                player_stats@.len() == i,
                forall|j: int| 0 <= j < i ==> (#[trigger] player_stats@[j])@ == self.player_stats@[j]@,
            decreases self.player_stats@.len() - i,
        {
            player_stats.push(self.player_stats[i].duplicate());
            i = i + 1;
        }
        let r = RoomStats { room_id: self.room_id.clone(), games_played: self.games_played, player_stats };
        proof {
            assert(stats_views(r.player_stats@) =~= stats_views(self.player_stats@));
        }
        r
    }

    /// The record of `uuid` in this room, if it has one.
    pub fn get_player(&self, uuid: &str) -> (r: Option<&PlayerStats>)
        ensures
            match r {
                Some(p) => p@.uuid == uuid@ && stats_views(self.player_stats@).contains(p@),
                None => forall|i: int|
                    0 <= i < self.player_stats@.len() ==> #[trigger] self.player_stats@[i]@.uuid
                        != uuid@,
            },
    {
        let target = String::from_str(uuid);
        let mut i: usize = 0;
        while i < self.player_stats.len()
            invariant
                target@ == uuid@,
                i <= self.player_stats@.len(),
                forall|j: int| 0 <= j < i ==> #[trigger] self.player_stats@[j]@.uuid != uuid@,
            decreases self.player_stats@.len() - i,
        {
            if self.player_stats[i].uuid == target {
                proof {
                    assert(stats_views(self.player_stats@)[i as int] == self.player_stats@[i as int]@);
                }
                return Some(&self.player_stats[i]);
            }
            i = i + 1;
        }
        None
    }

    /// Records one player's result (see `with_result`).
    fn record_player(&mut self, r: &PlayerGameResult, winner_uuid: &str)
        requires
            unique_players(stats_views(old(self).player_stats@)),
            player_fits(record_of(stats_views(old(self).player_stats@), r@.uuid), r@, winner_uuid@),
        ensures
            final(self).room_id == old(self).room_id,
            final(self).games_played == old(self).games_played,
            stats_views(final(self).player_stats@) == with_result(
                stats_views(old(self).player_stats@),
                r@,
                winner_uuid@,
            ),
            unique_players(stats_views(final(self).player_stats@)),
    {
        let ghost v = stats_views(self.player_stats@);
        proof {
            lemma_with_result_unique(v, r@, winner_uuid@);
        }
        let winner = String::from_str(winner_uuid);
        let won = r.uuid == winner;
        let idx = find_player(&self.player_stats, r.uuid.as_str());
        let mut p = match idx {
            Some(i) => self.player_stats[i].duplicate(),
            None => PlayerStats {
                uuid: r.uuid.clone(),
                games_played: 0,
                wins: 0,
                total_score: 0,
                current_win_streak: 0,
                best_win_streak: 0,
            },
        };
        p.games_played = p.games_played + 1;
        p.total_score = p.total_score + r.final_score;
        if won {
            p.wins = p.wins + 1;
            p.current_win_streak = p.current_win_streak + 1;
            if p.best_win_streak < p.current_win_streak {
                p.best_win_streak = p.current_win_streak;
            }
        } else {
            p.current_win_streak = 0;
        }
        match idx {
            Some(i) => {
                self.player_stats.set(i, p);
                proof {
                    assert(stats_views(self.player_stats@) =~= with_result(v, r@, winner_uuid@));
                }
            },
            None => {
                self.player_stats.push(p);
                proof {
                    assert(stats_views(self.player_stats@) =~= with_result(v, r@, winner_uuid@));
                }
            },
        }
    }
}


// ----------------------------------------------------------------------------
// The store of room statistics
// ----------------------------------------------------------------------------
/// The values of a list of rooms' statistics.
pub open spec fn room_stats_views(s: Seq<RoomStats>) -> Seq<RoomStatsView> {
    s.map_values(|r: RoomStats| r@)
}

/// Each room has one entry at most, and in each room each player one record at most.
pub open spec fn rooms_well_kept(s: Seq<RoomStatsView>) -> bool {
    &&& forall|i: int, j: int|
        0 <= i < j < s.len() ==> #[trigger] s[i].room_id != #[trigger] s[j].room_id
    &&& forall|i: int| 0 <= i < s.len() ==> unique_players(#[trigger] s[i].player_stats)
}

/// The statistics of each room, by room id.
pub open spec fn rooms_map(s: Seq<RoomStatsView>) -> Map<Seq<char>, RoomStatsView> {
    Map::new(
        |k: Seq<char>| exists|i: int| 0 <= i < s.len() && #[trigger] s[i].room_id == k,
        |k: Seq<char>| s[choose|i: int| 0 <= i < s.len() && #[trigger] s[i].room_id == k],
    )
}

/// The statistics a room has before a game is recorded: its own, or none yet.
pub open spec fn room_before(m: Map<Seq<char>, RoomStatsView>, room_id: Seq<char>) -> RoomStatsView {
    if m.contains_key(room_id) {
        m[room_id]
    } else {
        fresh_room(room_id)
    }
}

proof fn lemma_rooms_map_at(s: Seq<RoomStatsView>, i: int)
    requires
        rooms_well_kept(s),
        0 <= i < s.len(),
    ensures
        rooms_map(s).contains_key(s[i].room_id),
        rooms_map(s)[s[i].room_id] == s[i],
{
    let k = s[i].room_id;
    assert(exists|j: int| 0 <= j < s.len() && #[trigger] s[j].room_id == k);
    let c = choose|j: int| 0 <= j < s.len() && #[trigger] s[j].room_id == k;
    if c != i {
        if c < i {
            assert(s[c].room_id != s[i].room_id);
        } else {
            assert(s[i].room_id != s[c].room_id);
        }
    }
}

/// An in-memory store of statistics by room.
pub struct InMemoryStatsRepository {
    rooms: Vec<RoomStats>,
}

impl View for InMemoryStatsRepository {
    type V = Map<Seq<char>, RoomStatsView>;

    closed spec fn view(&self) -> Map<Seq<char>, RoomStatsView> {
        rooms_map(room_stats_views(self.rooms@))
    }
}

impl InMemoryStatsRepository {
    #[verifier::type_invariant]
    spec fn well_kept(self) -> bool {
        rooms_well_kept(room_stats_views(self.rooms@))
    }

    /// An empty store.
    pub fn new() -> (r: InMemoryStatsRepository)
        ensures
            r@ == Map::<Seq<char>, RoomStatsView>::empty(),
    {
        let r = InMemoryStatsRepository { rooms: Vec::new() };
        proof {
            assert(r@ =~= Map::<Seq<char>, RoomStatsView>::empty());
        }
        r
    }

    /// Where the room's statistics stand, if it has any.
    fn position(&self, room_id: &str) -> (r: Option<usize>)
        ensures
            match r {
                Some(i) => i < self.rooms@.len() && self.rooms@[i as int]@.room_id == room_id@,
                None => !self@.contains_key(room_id@),
            },
    {
        let target = String::from_str(room_id);
        let mut i: usize = 0;
        while i < self.rooms.len()
            invariant
                i <= self.rooms@.len(),
                target@ == room_id@,
                forall|j: int| 0 <= j < i ==> #[trigger] self.rooms@[j]@.room_id != room_id@,
            decreases self.rooms@.len() - i,
        {
            if self.rooms[i].room_id == target {
                return Some(i);
            }
            i = i + 1;
        }
        proof {
            let s = room_stats_views(self.rooms@);
            if self@.contains_key(room_id@) {
                let c = choose|j: int| 0 <= j < s.len() && #[trigger] s[j].room_id == room_id@;
                assert(self.rooms@[c]@.room_id == room_id@);
            }
        }
        None
    }

    /// The statistics of the room, if any game was recorded there.
    pub fn get_room_stats(&self, room_id: &str) -> (r: Result<Option<RoomStats>, StatsError>)
        ensures
            r matches Ok(o) && match o {
                Some(st) => self@.contains_key(room_id@) && st@ == self@[room_id@],
                None => !self@.contains_key(room_id@),
            },
    {
        proof {
            use_type_invariant(self);
        }
        match self.position(room_id) {
            Some(i) => {
                proof {
                    lemma_rooms_map_at(room_stats_views(self.rooms@), i as int);
                    assert(room_stats_views(self.rooms@)[i as int] == self.rooms@[i as int]@);
                }
                Ok(Some(self.rooms[i].duplicate()))
            },
            None => Ok(None),
        }
    }

    /// Forgets the room's statistics.
    pub fn reset_room_stats(&mut self, room_id: &str) -> (r: Result<(), StatsError>)
        ensures
            r is Ok,
            final(self)@ == old(self)@.remove(room_id@),
    {
        proof {
            use_type_invariant(&*self);
        }
        let ghost before = room_stats_views(self.rooms@);
        match self.position(room_id) {
            None => {
                proof {
                    assert(old(self)@.remove(room_id@) =~= old(self)@);
                }
                Ok(())
            },
            Some(i) => {
                let mut rooms: Vec<RoomStats> = Vec::new();
                std::mem::swap(&mut rooms, &mut self.rooms);
                rooms.remove(i);
                let ghost after = room_stats_views(rooms@);
                proof {
                    assert(after =~= before.remove(i as int));
                    assert forall|a: int, b: int| 0 <= a < b < after.len() implies #[trigger] after[a].room_id
                        != #[trigger] after[b].room_id by {
                        let a2 = if a < i { a } else { a + 1 };
                        let b2 = if b < i { b } else { b + 1 };
                        assert(before[a2].room_id != before[b2].room_id);
                    }
                    assert forall|a: int| 0 <= a < after.len() implies unique_players(
                        #[trigger] after[a].player_stats,
                    ) by {
                        let a2 = if a < i { a } else { a + 1 };
                        assert(after[a] == before[a2]);
                    }
                    let target = old(self)@.remove(room_id@);
                    assert forall|q: Seq<char>| #![trigger rooms_map(after).dom().contains(q)] #![trigger target.dom().contains(q)]
                        (rooms_map(after).dom().contains(q) == target.dom().contains(q))
                        && (rooms_map(after).dom().contains(q) ==> rooms_map(after)[q] == target[q]) by {
                        if rooms_map(after).contains_key(q) {
                            let c = choose|j: int| 0 <= j < after.len() && #[trigger] after[j].room_id == q;
                            lemma_rooms_map_at(after, c);
                            let c2 = if c < i { c } else { c + 1 };
                            assert(after[c] == before[c2]);
                            lemma_rooms_map_at(before, c2);
                            lemma_rooms_map_at(before, i as int);
                            if q == room_id@ {
                                if c2 < i {
                                    assert(before[c2].room_id != before[i as int].room_id);
                                } else {
                                    assert(before[i as int].room_id != before[c2].room_id);
                                }
                            }
                        }
                        if target.contains_key(q) {
                            let c = choose|j: int| 0 <= j < before.len() && #[trigger] before[j].room_id == q;
                            assert(c != i);
                            let c1 = if c < i { c } else { c - 1 };
                            assert(after[c1] == before[c]);
                        }
                    }
                    assert(rooms_map(after).dom() =~= target.dom());
                    assert(rooms_map(after) =~= target);
                }
                self.rooms = rooms;
                Ok(())
            },
        }
    }

    /// Records a finished game (see `room_after`): the room's statistics are created if it had
    /// none.
    pub fn record_game(&mut self, game_result: GameResult) -> (r: Result<(), StatsError>)
        requires
            room_fits(room_before(old(self)@, game_result@.room_id), game_result@),
        ensures
            r is Ok,
            final(self)@ == old(self)@.insert(
                game_result@.room_id,
                room_after(room_before(old(self)@, game_result@.room_id), game_result@),
            ),
    {
        proof {
            use_type_invariant(&*self);
        }
        let ghost before = room_stats_views(self.rooms@);
        let ghost g = game_result@;
        let ghost start = room_before(old(self)@, g.room_id);
        let idx = self.position(game_result.room_id.as_str());
        let mut room = match idx {
            Some(i) => {
                proof {
                    lemma_rooms_map_at(before, i as int);
                    assert(before[i as int] == self.rooms@[i as int]@);
                }
                let d = self.rooms[i].duplicate();
                proof {
                    assert(d@ == start);
                }
                d
            },
            None => {
                let d = RoomStats {
                    room_id: game_result.room_id.clone(),
                    games_played: 0,
                    player_stats: Vec::new(),
                };
                proof {
                    assert(stats_views(d.player_stats@) =~= Seq::<PlayerStatsView>::empty());
                    assert(d@ == start);
                }
                d
            },
        };
        proof {
            assert(room@ == start);
            assert(g.players.subrange(0, 0) == Seq::<PlayerGameResultView>::empty());
        }
        room.games_played = room.games_played + 1;
        let mut k: usize = 0;
        while k < game_result.players.len()
            invariant
                g == game_result@,
                g.players.len() == game_result.players@.len(),
                k <= game_result.players@.len(),
                room@.room_id == start.room_id,
                room@.games_played == start.games_played + 1,
                room@.player_stats == with_results(
                    start.player_stats,
                    g.players.subrange(0, k as int),
                    g.winner_uuid,
                ),
                unique_players(room@.player_stats),
                results_fit(start.player_stats, g.players, g.winner_uuid),
            decreases game_result.players@.len() - k,
        {
            proof {
                let pre = g.players.subrange(0, k + 1);
                assert(pre.drop_last() == g.players.subrange(0, k as int));
                assert(pre.last() == g.players[k as int]);
                assert(result_views(game_result.players@)[k as int] == game_result.players@[k as int]@);
                assert(g.players[k as int] == game_result.players@[k as int]@);
                lemma_fit_step(start.player_stats, g.players, g.winner_uuid, k as int);
            }
            room.record_player(&game_result.players[k], game_result.winner_uuid.as_str());
            k = k + 1;
        }
        proof {
            assert(g.players.subrange(0, k as int) == g.players);
            assert(room@ == room_after(start, g));
        }
        let ghost done = room@;
        let mut rooms: Vec<RoomStats> = Vec::new();
        std::mem::swap(&mut rooms, &mut self.rooms);
        match idx {
            Some(i) => {
                rooms.set(i, room);
                proof {
                    assert(room_stats_views(rooms@) =~= before.update(i as int, done));
                    lemma_update_room(before, i as int, done);
                }
            },
            None => {
                rooms.push(room);
                proof {
                    assert(room_stats_views(rooms@) =~= before.push(done));
                    lemma_push_room(before, done);
                }
            },
        }
        self.rooms = rooms;
        Ok(())
    }
}

impl InMemoryStatsRepository {
    /// Whether recording the game would overflow no counter (see `room_fits`).
    pub fn fits(&self, game_result: &GameResult) -> (b: bool)
        ensures
            b == room_fits(room_before(self@, game_result@.room_id), game_result@),
    {
        proof {
            use_type_invariant(self);
        }
        let ghost before = room_stats_views(self.rooms@);
        let ghost g = game_result@;
        let ghost start = room_before(self@, g.room_id);
        let mut room = match self.position(game_result.room_id.as_str()) {
            Some(i) => {
                proof {
                    lemma_rooms_map_at(before, i as int);
                    assert(before[i as int] == self.rooms@[i as int]@);
                }
                self.rooms[i].duplicate()
            },
            None => {
                let d = RoomStats {
                    room_id: game_result.room_id.clone(),
                    games_played: 0,
                    player_stats: Vec::new(),
                };
                proof {
                    assert(stats_views(d.player_stats@) =~= Seq::<PlayerStatsView>::empty());
                }
                d
            },
        };
        proof {
            assert(room@ == start);
            assert(g.players.subrange(0, 0) == Seq::<PlayerGameResultView>::empty());
        }
        if room.games_played == u32::MAX {
            return false;
        }
        let winner = String::from_str(game_result.winner_uuid.as_str());
        let mut k: usize = 0;
        while k < game_result.players.len()
            invariant
                g == game_result@,
                start == room_before(self@, g.room_id),
                start.games_played < u32::MAX,
                winner@ == g.winner_uuid,
                g.players.len() == game_result.players@.len(),
                k <= game_result.players@.len(),
                room@.player_stats == with_results(
                    start.player_stats,
                    g.players.subrange(0, k as int),
                    g.winner_uuid,
                ),
                unique_players(room@.player_stats),
                results_fit(start.player_stats, g.players.subrange(0, k as int), g.winner_uuid),
            decreases game_result.players@.len() - k,
        {
            let r = &game_result.players[k];
            proof {
                let pre = g.players.subrange(0, k + 1);
                assert(pre.drop_last() == g.players.subrange(0, k as int));
                assert(pre.last() == g.players[k as int]);
                assert(result_views(game_result.players@)[k as int] == game_result.players@[k as int]@);
                assert(g.players[k as int] == r@);
            }
            let idx = find_player(&room.player_stats, r.uuid.as_str());
            let ghost rec = record_of(room@.player_stats, r@.uuid);
            let (games_played, wins, total, streak) = match idx {
                Some(i) => {
                    proof {
                        assert(stats_views(room.player_stats@)[i as int] == room.player_stats@[i as int]@);
                        assert(rec == room.player_stats@[i as int]@);
                    }
                    (
                        room.player_stats[i].games_played,
                        room.player_stats[i].wins,
                        room.player_stats[i].total_score,
                        room.player_stats[i].current_win_streak,
                    )
                },
                None => (0u32, 0u32, 0i32, 0u32),
            };
            let won = r.uuid == winner;
            let total_fits = if r.final_score >= 0 {
                total <= i32::MAX - r.final_score
            } else {
                total >= i32::MIN - r.final_score
            };
            let ok = games_played < u32::MAX && total_fits && (!won || (wins < u32::MAX && streak
                < u32::MAX));
            proof {
                assert(rec.games_played == games_played && rec.wins == wins && rec.total_score == total
                    && rec.current_win_streak == streak);
                assert(ok == player_fits(rec, r@, g.winner_uuid));
            }
            if !ok {
                proof {
                    if results_fit(start.player_stats, g.players, g.winner_uuid) {
                        lemma_fit_step(start.player_stats, g.players, g.winner_uuid, k as int);
                    }
                }
                return false;
            }
            room.record_player(r, game_result.winner_uuid.as_str());
            k = k + 1;
        }
        proof {
            assert(g.players.subrange(0, k as int) == g.players);
        }
        true
    }
}

/// What `results_fit` promises of each step.
proof fn lemma_fit_step(
    ps: Seq<PlayerStatsView>,
    results: Seq<PlayerGameResultView>,
    winner: Seq<char>,
    k: int,
)
    requires
        results_fit(ps, results, winner),
        0 <= k < results.len(),
    ensures
        player_fits(
            record_of(with_results(ps, results.subrange(0, k), winner), results[k].uuid),
            results[k],
            winner,
        ),
    decreases results.len(),
{
    let n = results.len();
    assert(results.drop_last() == results.subrange(0, n - 1));
    if k == n - 1 {
    } else {
        lemma_fit_step(ps, results.drop_last(), winner, k);
        assert(results.drop_last().subrange(0, k) == results.subrange(0, k));
    }
}

/// Replacing a room's statistics by new ones for the same room.
proof fn lemma_update_room(before: Seq<RoomStatsView>, i: int, r: RoomStatsView)
    requires
        rooms_well_kept(before),
        0 <= i < before.len(),
        before[i].room_id == r.room_id,
        unique_players(r.player_stats),
    ensures
        rooms_well_kept(before.update(i, r)),
        rooms_map(before.update(i, r)) == rooms_map(before).insert(r.room_id, r),
{
    let after = before.update(i, r);
    assert forall|a: int, b: int| 0 <= a < b < after.len() implies #[trigger] after[a].room_id
        != #[trigger] after[b].room_id by {
        assert(after[a].room_id == before[a].room_id);
        assert(after[b].room_id == before[b].room_id);
    }
    assert(rooms_well_kept(after));
    let target = rooms_map(before).insert(r.room_id, r);
    assert forall|q: Seq<char>| #![trigger rooms_map(after).dom().contains(q)] #![trigger target.dom().contains(q)]
        (rooms_map(after).dom().contains(q) == target.dom().contains(q))
        && (rooms_map(after).dom().contains(q) ==> rooms_map(after)[q] == target[q]) by {
        if rooms_map(after).contains_key(q) {
            let c = choose|j: int| 0 <= j < after.len() && #[trigger] after[j].room_id == q;
            lemma_rooms_map_at(after, c);
            if c != i {
                assert(after[c] == before[c]);
                lemma_rooms_map_at(before, c);
            } else {
                lemma_rooms_map_at(after, i);
            }
        }
        if target.contains_key(q) && q != r.room_id {
            let c = choose|j: int| 0 <= j < before.len() && #[trigger] before[j].room_id == q;
            assert(after[c].room_id == q);
        }
        if q == r.room_id {
            assert(after[i].room_id == q);
        }
    }
    assert(rooms_map(after).dom() =~= target.dom());
    assert(rooms_map(after) =~= target);
}

/// Adding the statistics of a room that had none.
proof fn lemma_push_room(before: Seq<RoomStatsView>, r: RoomStatsView)
    requires
        rooms_well_kept(before),
        !rooms_map(before).contains_key(r.room_id),
        unique_players(r.player_stats),
    ensures
        rooms_well_kept(before.push(r)),
        rooms_map(before.push(r)) == rooms_map(before).insert(r.room_id, r),
{
    let after = before.push(r);
    let n = before.len() as int;
    assert forall|a: int, b: int| 0 <= a < b < after.len() implies #[trigger] after[a].room_id
        != #[trigger] after[b].room_id by {
        assert(after[a] == before[a]);
        if b == n {
            assert(before[a].room_id != r.room_id);
        } else {
            assert(after[b] == before[b]);
        }
    }
    assert forall|a: int| 0 <= a < after.len() implies unique_players(#[trigger] after[a].player_stats) by {
        if a < n {
            assert(after[a] == before[a]);
        }
    }
    assert(rooms_well_kept(after));
    let target = rooms_map(before).insert(r.room_id, r);
    assert forall|q: Seq<char>| #![trigger rooms_map(after).dom().contains(q)] #![trigger target.dom().contains(q)]
        (rooms_map(after).dom().contains(q) == target.dom().contains(q))
        && (rooms_map(after).dom().contains(q) ==> rooms_map(after)[q] == target[q]) by {
        if rooms_map(after).contains_key(q) {
            let c = choose|j: int| 0 <= j < after.len() && #[trigger] after[j].room_id == q;
            lemma_rooms_map_at(after, c);
            if c < n {
                assert(after[c] == before[c]);
                lemma_rooms_map_at(before, c);
            }
        }
        if target.contains_key(q) && q != r.room_id {
            let c = choose|j: int| 0 <= j < before.len() && #[trigger] before[j].room_id == q;
            assert(after[c].room_id == q);
        }
        if q == r.room_id {
            assert(after[n].room_id == q);
        }
    }
    assert(rooms_map(after).dom() =~= target.dom());
    assert(rooms_map(after) =~= target);
}


// ----------------------------------------------------------------------------
// Laws of the statistics
// ----------------------------------------------------------------------------
/// A record is consistent: no more wins than games, the streak no longer than the wins nor
/// the best streak.
pub open spec fn consistent(p: PlayerStatsView) -> bool {
    p.wins <= p.games_played && p.current_win_streak <= p.wins && p.current_win_streak
        <= p.best_win_streak
}

/// Every record is consistent.
pub open spec fn all_consistent(ps: Seq<PlayerStatsView>) -> bool {
    forall|i: int| 0 <= i < ps.len() ==> consistent(#[trigger] ps[i])
}

/// Recording games keeps every record consistent: a player never has more wins than games,
/// and the current streak is never longer than the wins or the best streak.
pub proof fn lemma_records_stay_consistent(
    ps: Seq<PlayerStatsView>,
    results: Seq<PlayerGameResultView>,
    winner: Seq<char>,
)
    requires
        all_consistent(ps),
        results_fit(ps, results, winner),
    ensures
        all_consistent(with_results(ps, results, winner)),
    decreases results.len(),
{
    if results.len() > 0 {
        let before = with_results(ps, results.drop_last(), winner);
        lemma_records_stay_consistent(ps, results.drop_last(), winner);
        let r = results.last();
        let after = with_result(before, r, winner);
        assert forall|i: int| 0 <= i < after.len() implies consistent(#[trigger] after[i]) by {
            match player_index(before, r.uuid) {
                Some(k) => {
                    if i != k {
                        assert(after[i] == before[i]);
                    } else {
                        assert(consistent(before[k]));
                    }
                },
                None => {
                    if i < before.len() {
                        assert(after[i] == before[i]);
                    }
                },
            }
        }
    }
}

/// A win lengthens the current streak by one and a loss ends it; the best streak is the
/// longest seen.
pub proof fn lemma_streaks(s: PlayerStatsView, r: PlayerGameResultView, winner: Seq<char>)
    requires
        player_fits(s, r, winner),
    ensures
        r.uuid == winner ==> player_after(s, r, winner).current_win_streak == s.current_win_streak + 1
            && player_after(s, r, winner).wins == s.wins + 1,
        r.uuid != winner ==> player_after(s, r, winner).current_win_streak == 0
            && player_after(s, r, winner).wins == s.wins,
        player_after(s, r, winner).best_win_streak >= s.best_win_streak,
        player_after(s, r, winner).best_win_streak >= player_after(s, r, winner).current_win_streak,
        player_after(s, r, winner).games_played == s.games_played + 1,
        player_after(s, r, winner).total_score == s.total_score + r.final_score,
{
}

// ----------------------------------------------------------------------------
// Recording a finished game
// ----------------------------------------------------------------------------
/// A player of the finished game and the cards left in hand.
pub open spec fn metadata_views(m: Seq<(String, usize)>) -> Seq<(Seq<char>, usize)> {
    m.map_values(|e: (String, usize)| (e.0@, e.1))
}

/// `uuid` is one of the players.
pub open spec fn has_player(m: Seq<(Seq<char>, usize)>, uuid: Seq<char>) -> bool {
    exists|i: int| 0 <= i < m.len() && #[trigger] m[i].0 == uuid
}

/// The scores after a step that gives each player `f` of them, keeping the others.
pub open spec fn scores_after(
    current: Map<Seq<char>, i32>,
    m: Seq<(Seq<char>, usize)>,
    f: spec_fn(Seq<char>) -> i32,
) -> Map<Seq<char>, i32> {
    current.union_prefer_right(Map::new(|k: Seq<char>| has_player(m, k), |k: Seq<char>| f(k)))
}

/// The scores before multipliers: the cards each player still held.
pub open spec fn raw_scores(m: Seq<(Seq<char>, usize)>, data: Seq<CollectedDataView>) -> Map<
    Seq<char>,
    i32,
> {
    scores_after(Map::empty(), m, |k: Seq<char>| card_count_score(data, k))
}

/// The final scores: the raw ones, doubled for a player left with ten cards or more.
pub open spec fn final_scores(m: Seq<(Seq<char>, usize)>, data: Seq<CollectedDataView>) -> Map<
    Seq<char>,
    i32,
> {
    let raw = raw_scores(m, data);
    scores_after(raw, m, |k: Seq<char>| ten_plus_score(data, k, raw))
}

/// Each player's result, from the scores.
pub open spec fn results_of(
    m: Seq<(Seq<char>, usize)>,
    raw: Map<Seq<char>, i32>,
    fin: Map<Seq<char>, i32>,
) -> Seq<PlayerGameResultView> {
    m.map_values(
        |e: (Seq<char>, usize)|
            PlayerGameResultView {
                uuid: e.0,
                cards_remaining: e.1 as u8,
                raw_score: score_or_zero(raw, e.0),
                final_score: score_or_zero(fin, e.0),
            },
    )
}

/// Each player's name and how many cards they still held.
pub open spec fn game_metadata(players: Seq<PlayerView>) -> Seq<(Seq<char>, usize)> {
    players.map_values(|p: PlayerView| (p.name, p.cards.len() as usize))
}

/// The result of a finished game as the service records it.
pub open spec fn completion_result(
    room_id: Seq<char>,
    game_number: u32,
    game: GameView,
    winner_uuid: Seq<char>,
    had_bots: bool,
    completed_at: i64,
) -> GameResultView {
    let m = game_metadata(game.players);
    let data = cards_remaining_data(game.players);
    GameResultView {
        room_id,
        game_number,
        winner_uuid,
        players: results_of(m, raw_scores(m, data), final_scores(m, data)),
        completed_at,
        had_bots,
    }
}

/// Each player's result, from the scores.
fn player_results(
    player_metadata: &Vec<(String, usize)>,
    raw: &ScoreTable,
    fin: &ScoreTable,
) -> (r: Vec<PlayerGameResult>)
    ensures
        result_views(r@) == results_of(metadata_views(player_metadata@), raw@, fin@),
{
    let ghost m = metadata_views(player_metadata@);
    let mut out: Vec<PlayerGameResult> = Vec::new();
    let mut i: usize = 0;
    while i < player_metadata.len()
        invariant
            m == metadata_views(player_metadata@),
            i <= player_metadata@.len(),
            out@.len() == i,
            forall|j: int| 0 <= j < i ==> (#[trigger] out@[j])@ == results_of(m, raw@, fin@)[j],
        decreases player_metadata@.len() - i,
    {
        let uuid = &player_metadata[i].0;
        let cards = player_metadata[i].1;
        let raw_score = match raw.get(uuid.as_str()) {
            Some(v) => v,
            None => 0,
        };
        let final_score = match fin.get(uuid.as_str()) {
            Some(v) => v,
            None => 0,
        };
        #[verifier::truncate]
        let cards_remaining = cards as u8;
        out.push(PlayerGameResult { uuid: uuid.clone(), cards_remaining, raw_score, final_score });
        i = i + 1;
    }
    proof {
        assert(result_views(out@) =~= results_of(m, raw@, fin@));
    }
    out
}

impl PlayerGameResult {
    /// A copy of this result.
    pub fn duplicate(&self) -> (r: PlayerGameResult)
        ensures
            r@ == self@,
    {
        PlayerGameResult {
            uuid: self.uuid.clone(),
            cards_remaining: self.cards_remaining,
            raw_score: self.raw_score,
            final_score: self.final_score,
        }
    }
}

impl GameResult {
    /// A copy of this result.
    pub fn duplicate(&self) -> (r: GameResult)
        ensures
            r@ == self@,
    {
        let mut players: Vec<PlayerGameResult> = Vec::new();
        let mut i: usize = 0;
        while i < self.players.len()
            invariant
                i <= self.players@.len(),
                players@.len() == i,
                forall|j: int| 0 <= j < i ==> (#[trigger] players@[j])@ == self.players@[j]@,
            decreases self.players@.len() - i,
        {
            players.push(self.players[i].duplicate());
            i = i + 1;
        }
        let r = GameResult {
            room_id: self.room_id.clone(),
            game_number: self.game_number,
            winner_uuid: self.winner_uuid.clone(),
            players,
            completed_at: self.completed_at,
            had_bots: self.had_bots,
        };
        proof {
            assert(result_views(r.players@) =~= result_views(self.players@));
        }
        r
    }
}

/// Records finished games: collects the cards each player still held, scores them (the
/// cards left, doubled from ten cards up) and keeps each room's statistics.
pub struct StatsService {
    collector: CardsRemainingCollector,
    base: CardCountScoreCalculator,
    multiplier: TenPlusMultiplierCalculator,
    repository: InMemoryStatsRepository,
}

/// Builds a statistics service.
pub struct StatsServiceBuilder {
    repository: InMemoryStatsRepository,
}

impl StatsServiceBuilder {
    /// The builder of a service that keeps its statistics in `repository`.
    pub fn new(repository: InMemoryStatsRepository) -> (b: StatsServiceBuilder)
        ensures
            b.stored()@ == repository@,
    {
        StatsServiceBuilder { repository }
    }

    /// The store the service will keep its statistics in.
    pub closed spec fn stored(&self) -> InMemoryStatsRepository {
        self.repository
    }

    /// The service, with the card collector and the base and multiplier calculators in order
    /// of priority.
    pub fn build(self) -> (s: StatsService)
        ensures
            s.repository_spec()@ == self.stored()@,
    {
        StatsService {
            collector: CardsRemainingCollector::new(),
            base: CardCountScoreCalculator::new(),
            multiplier: TenPlusMultiplierCalculator::new(),
            repository: self.repository,
        }
    }
}

impl StatsService {
    /// A builder for a service that keeps its statistics in `repository`.
    pub fn builder(repository: InMemoryStatsRepository) -> (b: StatsServiceBuilder)
        ensures
            b.stored()@ == repository@,
    {
        StatsServiceBuilder::new(repository)
    }

    /// The store of statistics.
    pub fn repository(&self) -> (r: &InMemoryStatsRepository)
        ensures
            r@ == self.repository_spec()@,
    {
        &self.repository
    }

    /// The store of statistics.
    pub closed spec fn repository_spec(&self) -> InMemoryStatsRepository {
        self.repository
    }

    /// The raw and final scores of the players.
    fn calculate_scores(
        &self,
        player_metadata: &Vec<(String, usize)>,
        collected: &Vec<CollectedData>,
        room_id: &str,
        game_number: u32,
        winner_uuid: &str,
        had_bots: bool,
        completed_at: i64,
    ) -> (r: (ScoreTable, ScoreTable))
        requires
            forall|k: Seq<char>|
                0 <= #[trigger] card_count_score(data_views(collected@), k) <= 255,
        ensures
            r.0@ == raw_scores(metadata_views(player_metadata@), data_views(collected@)),
            r.1@ == final_scores(metadata_views(player_metadata@), data_views(collected@)),
    {
        let ghost m = metadata_views(player_metadata@);
        let ghost data = data_views(collected@);
        // The base score.
        let empty = ScoreTable::new();
        let snapshot = GameResult {
            room_id: String::from_str(room_id),
            game_number,
            winner_uuid: String::from_str(winner_uuid),
            players: player_results(player_metadata, &empty, &empty),
            completed_at,
            had_bots,
        };
        let context = CalculationContext::new(snapshot, empty);
        let mut raw = context.current_scores.duplicate();
        let ghost f = |k: Seq<char>| card_count_score(data, k);
        let mut i: usize = 0;
        while i < player_metadata.len()
            invariant
                m == metadata_views(player_metadata@),
                data == data_views(collected@),
                f == (|k: Seq<char>| card_count_score(data, k)),
                context.current_scores@ == Map::<Seq<char>, i32>::empty(),
                i <= player_metadata@.len(),
                raw@ == scores_after(context.current_scores@, m.take(i as int), f),
            decreases player_metadata@.len() - i,
        {
            let uuid = &player_metadata[i].0;
            let v = self.base.calculate(uuid.as_str(), collected.as_slice(), &context);
            raw.insert(uuid.clone(), v);
            proof {
                lemma_scores_step(context.current_scores@, m, f, i as int);
            }
            i = i + 1;
        }
        proof {
            assert(m.take(i as int) == m);
        }
        // The multiplier.
        let snapshot = GameResult {
            room_id: String::from_str(room_id),
            game_number,
            winner_uuid: String::from_str(winner_uuid),
            players: player_results(player_metadata, &raw, &raw),
            completed_at,
            had_bots,
        };
        let context = CalculationContext::new(snapshot, raw.duplicate());
        let mut fin = raw.duplicate();
        let ghost rawv = raw@;
        let ghost g = |k: Seq<char>| ten_plus_score(data, k, rawv);
        let mut i: usize = 0;
        while i < player_metadata.len()
            invariant
                m == metadata_views(player_metadata@),
                data == data_views(collected@),
                rawv == raw_scores(m, data),
                g == (|k: Seq<char>| ten_plus_score(data, k, rawv)),
                context.current_scores@ == rawv,
                forall|k: Seq<char>| 0 <= #[trigger] card_count_score(data, k) <= 255,
                i <= player_metadata@.len(),
                fin@ == scores_after(rawv, m.take(i as int), g),
            decreases player_metadata@.len() - i,
        {
            let uuid = &player_metadata[i].0;
            proof {
                assert(card_count_score(data, uuid@) <= 255);
            }
            let v = self.multiplier.calculate(uuid.as_str(), collected.as_slice(), &context);
            fin.insert(uuid.clone(), v);
            proof {
                lemma_scores_step(rawv, m, g, i as int);
            }
            i = i + 1;
        }
        proof {
            assert(m.take(i as int) == m);
        }
        (raw, fin)
    }

    /// The result of a finished game of the room (see `completion_result`): the cards each
    /// player still held, collected, then scored.
    pub fn build_game_result(
        &self,
        room_id: &str,
        game_number: u32,
        game: &Game,
        winner_uuid: &str,
        had_bots: bool,
        completed_at: i64,
    ) -> (r: Result<GameResult, StatsError>)
        ensures
            r matches Ok(res) && res@ == completion_result(
                room_id@,
                game_number,
                game@,
                winner_uuid@,
                had_bots,
                completed_at,
            ),
    {
        let collected = match self.collector.collect(game, winner_uuid) {
            Ok(d) => d,
            Err(e) => {
                return Err(e);
            },
        };
        let players = game.players();
        let mut player_metadata: Vec<(String, usize)> = Vec::new();
        let mut i: usize = 0;
        while i < players.len()
            invariant
                player_views(players@) == game@.players,
                i <= players@.len(),
                player_metadata@.len() == i,
                forall|j: int|
                    0 <= j < i ==> (#[trigger] player_metadata@[j]).0@ == game@.players[j].name
                        && player_metadata@[j].1 == game@.players[j].cards.len(),
            decreases players@.len() - i,
        {
            proof {
                assert(player_views(players@)[i as int] == players@[i as int]@);
            }
            player_metadata.push((players[i].name.clone(), players[i].cards.len()));
            i = i + 1;
        }
        proof {
            assert(metadata_views(player_metadata@) =~= game_metadata(game@.players));
            lemma_card_count_small(cards_remaining_data(game@.players));
        }
        let (raw, fin) = self.calculate_scores(
            &player_metadata,
            &collected,
            room_id,
            game_number,
            winner_uuid,
            had_bots,
            completed_at,
        );
        Ok(
            GameResult {
                room_id: String::from_str(room_id),
                game_number,
                winner_uuid: String::from_str(winner_uuid),
                players: player_results(&player_metadata, &raw, &fin),
                completed_at,
                had_bots,
            },
        )
    }

    /// Whether recording the result would overflow no counter (see `room_fits`).
    pub fn can_record(&self, result: &GameResult) -> (b: bool)
        ensures
            b == room_fits(room_before(self.repository_spec()@, result@.room_id), result@),
    {
        self.repository.fits(result)
    }

    /// Records a result in the statistics (see `InMemoryStatsRepository::record_game`).
    pub fn record_result(&mut self, result: GameResult) -> (r: Result<(), StatsError>)
        requires
            room_fits(room_before(old(self).repository_spec()@, result@.room_id), result@),
        ensures
            r is Ok,
            final(self).repository_spec()@ == old(self).repository_spec()@.insert(
                result@.room_id,
                room_after(room_before(old(self).repository_spec()@, result@.room_id), result@),
            ),
    {
        self.repository.record_game(result)
    }

    /// Records a finished game of the room (see `completion_result`) and gives its result.
    pub fn record_game_completion(
        &mut self,
        room_id: &str,
        game_number: u32,
        game: &Game,
        winner_uuid: &str,
        had_bots: bool,
        completed_at: i64,
    ) -> (r: Result<GameResult, StatsError>)
        requires
            room_fits(
                room_before(old(self).repository_spec()@, room_id@),
                completion_result(room_id@, game_number, game@, winner_uuid@, had_bots, completed_at),
            ),
        ensures
            r matches Ok(res) && res@ == completion_result(
                room_id@,
                game_number,
                game@,
                winner_uuid@,
                had_bots,
                completed_at,
            ),
            final(self).repository_spec()@ == old(self).repository_spec()@.insert(
                room_id@,
                room_after(
                    room_before(old(self).repository_spec()@, room_id@),
                    completion_result(room_id@, game_number, game@, winner_uuid@, had_bots, completed_at),
                ),
            ),
    {
        let result = match self.build_game_result(
            room_id,
            game_number,
            game,
            winner_uuid,
            had_bots,
            completed_at,
        ) {
            Ok(res) => res,
            Err(e) => {
                return Err(e);
            },
        };
        match self.repository.record_game(result.duplicate()) {
            Ok(()) => {},
            Err(e) => {
                return Err(e);
            },
        }
        Ok(result)
    }
}

/// A player's raw score is the cards left in hand, and the final score doubles it when ten
/// cards or more were left.
pub proof fn lemma_scores_of_player(m: Seq<(Seq<char>, usize)>, data: Seq<CollectedDataView>, uuid: Seq<char>)
    requires
        has_player(m, uuid),
    ensures
        raw_scores(m, data).contains_key(uuid),
        raw_scores(m, data)[uuid] == card_count_score(data, uuid),
        final_scores(m, data).contains_key(uuid),
        final_scores(m, data)[uuid] == if has_ten_or_more(data, uuid) {
            (2 * card_count_score(data, uuid)) as i32
        } else {
            card_count_score(data, uuid)
        },
{
}

/// A count of cards is a byte.
proof fn lemma_card_count_small(data: Seq<CollectedDataView>)
    ensures
        forall|k: Seq<char>| 0 <= #[trigger] card_count_score(data, k) <= 255,
{
    assert forall|k: Seq<char>| 0 <= #[trigger] card_count_score(data, k) <= 255 by {
        match cards_left(data, k) {
            Some(c) => {},
            None => {},
        }
    }
}

/// One more player scored.
proof fn lemma_scores_step(
    current: Map<Seq<char>, i32>,
    m: Seq<(Seq<char>, usize)>,
    f: spec_fn(Seq<char>) -> i32,
    i: int,
)
    requires
        0 <= i < m.len(),
    ensures
        scores_after(current, m.take(i), f).insert(m[i].0, f(m[i].0)) == scores_after(
            current,
            m.take(i + 1),
            f,
        ),
{
    let a = scores_after(current, m.take(i), f).insert(m[i].0, f(m[i].0));
    let b = scores_after(current, m.take(i + 1), f);
    assert forall|k: Seq<char>| #[trigger] has_player(m.take(i + 1), k) <==> has_player(m.take(i), k)
        || k == m[i].0 by {
        if has_player(m.take(i + 1), k) {
            let j = choose|j: int| 0 <= j < m.take(i + 1).len() && #[trigger] m.take(i + 1)[j].0 == k;
            if j < i {
                assert(m.take(i)[j].0 == k);
            }
        }
        if has_player(m.take(i), k) {
            let j = choose|j: int| 0 <= j < m.take(i).len() && #[trigger] m.take(i)[j].0 == k;
            assert(m.take(i + 1)[j].0 == k);
        }
        if k == m[i].0 {
            assert(m.take(i + 1)[i].0 == k);
        }
    }
    assert(a =~= b);
}

} // verus!
