use vstd::prelude::*;

use rand::seq::SliceRandom;
use std::collections::HashMap;
use std::hash::RandomState;
use vstd::multiset::Multiset;
use vstd::std_specs::hash::{builds_valid_hashers, obeys_key_model};

use crate::cards::{Card, Rank, Suit};
use crate::hands::{beats, copy_cards, hand_of, sort_cards, sorted_cards, Hand, HandError, HandView};

verus! {

broadcast use vstd::seq_lib::group_to_multiset_ensures;

/// A player at the table: a name and the cards in hand.
#[derive(Debug, Clone)]
pub struct Player {
    pub name: String,
    pub cards: Vec<Card>,
}

/// The value of a player: the name's text and the cards in hand.
pub struct PlayerView {
    pub name: Seq<char>,
    pub cards: Seq<Card>,
}

impl View for Player {
    type V = PlayerView;

    open spec fn view(&self) -> PlayerView {
        PlayerView { name: self.name@, cards: self.cards@ }
    }
}

/// Why a move was refused.
#[derive(Debug, Clone, PartialEq, Eq, Structural)]
pub enum GameError {
    /// It is not this player's turn.
    InvalidPlayerTurn,
    /// The cards do not beat the last cards played.
    InvalidPlayedCards,
    /// Three passes in a row have cleared the table: the player must play cards.
    CannotPass,
    /// The player does not hold this card.
    CardNotOwned(Card),
    /// The cards form no hand.
    HandError(HandError),
}

/// A game in progress: the players in turn order, whose turn it is, how many passes
/// came in a row, every move so far, and the cards each player was dealt.
#[derive(Debug, Clone)]
pub struct Game {
    id: String,
    players: Vec<Player>,
    current_turn: usize,
    consecutive_passes: usize,
    played_hands: Vec<Hand>,
    starting_hands: HashMap<String, Vec<Card>>,
}

/// The value of a game.
pub struct GameView {
    pub id: Seq<char>,
    pub players: Seq<PlayerView>,
    pub current_turn: nat,
    pub consecutive_passes: nat,
    pub played_hands: Seq<HandView>,
    pub starting_hands: Map<String, Vec<Card>>,
}

/// The values of a sequence of players.
pub open spec fn player_views(players: Seq<Player>) -> Seq<PlayerView> {
    players.map_values(|p: Player| p@)
}

/// The values of a sequence of hands.
pub open spec fn hand_views(hands: Seq<Hand>) -> Seq<HandView> {
    hands.map_values(|h: Hand| h@)
}

impl View for Game {
    type V = GameView;

    closed spec fn view(&self) -> GameView {
        GameView {
            id: self.id@,
            players: player_views(self.players@),
            current_turn: self.current_turn as nat,
            consecutive_passes: self.consecutive_passes as nat,
            played_hands: hand_views(self.played_hands@),
            starting_hands: self.starting_hands@,
        }
    }
}

impl Player {
    /// A copy of this player.
    pub fn duplicate(&self) -> (r: Player)
        ensures
            r@ == self@,
    {
        Player { name: self.name.clone(), cards: copy_cards(self.cards.as_slice()) }
    }
}

impl Game {
    /// A copy of this game.
    pub fn duplicate(&self) -> (r: Game)
        ensures
            r@ == self@,
    {
        let mut players: Vec<Player> = Vec::new();
        let mut i: usize = 0;
        while i < self.players.len()
            invariant
                i <= self.players@.len(),
                players@.len() == i,
                forall|j: int| 0 <= j < i ==> (#[trigger] players@[j])@ == self.players@[j]@,
            decreases self.players@.len() - i,
        {
            players.push(self.players[i].duplicate());
            i = i + 1;
        }
        let mut played_hands: Vec<Hand> = Vec::new();
        let mut k: usize = 0;
        while k < self.played_hands.len()
            invariant
                k <= self.played_hands@.len(),
                played_hands@.len() == k,
                forall|j: int| 0 <= j < k ==> (#[trigger] played_hands@[j])@ == self.played_hands@[j]@,
            decreases self.played_hands@.len() - k,
        {
            played_hands.push(self.played_hands[k].duplicate());
            k = k + 1;
        }
        let r = Game {
            id: self.id.clone(),
            players,
            current_turn: self.current_turn,
            consecutive_passes: self.consecutive_passes,
            played_hands,
            starting_hands: self.starting_hands.clone(),
        };
        proof {
            assert(player_views(r.players@) =~= player_views(self.players@));
            assert(hand_views(r.played_hands@) =~= hand_views(self.played_hands@));
        }
        r
    }
}

// ----------------------------------------------------------------------------
// The rules of a move
// ----------------------------------------------------------------------------
/// The last move of `hands` that is not a pass, if there is one.
pub open spec fn last_non_pass(hands: Seq<HandView>) -> Option<HandView>
    decreases hands.len(),
{
    if hands.len() == 0 {
        None
    } else if hands.last() is Pass {
        last_non_pass(hands.drop_last())
    } else {
        Some(hands.last())
    }
}

/// The hand to beat is the most recent move that is not a pass: when the move at `i` is no pass
/// and only passes follow it, `last_non_pass` gives that move.
pub proof fn lemma_last_non_pass_is_latest_hand(h: Seq<HandView>, i: int)
    requires
        0 <= i < h.len(),
        h[i] !is Pass,
        forall|j: int| i < j < h.len() ==> #[trigger] h[j] is Pass,
    ensures
        last_non_pass(h) == Some(h[i]),
    decreases h.len(),
{
    if i < h.len() - 1 {
        assert(h.last() is Pass);
        let p = h.drop_last();
        assert forall|j: int| i < j < p.len() implies #[trigger] p[j] is Pass by {
            assert(p[j] == h[j]);
        }
        lemma_last_non_pass_is_latest_hand(p, i);
    }
}

/// When every move so far is a pass there is no hand to beat; otherwise the hand to beat is a
/// move of the history that is no pass and is followed by passes only.
pub proof fn lemma_last_non_pass_found(h: Seq<HandView>)
    ensures
        (forall|j: int| 0 <= j < h.len() ==> #[trigger] h[j] is Pass) <==> last_non_pass(h) is None,
        last_non_pass(h) matches Some(x) ==> exists|i: int|
            0 <= i < h.len() && #[trigger] h[i] == x && x !is Pass && forall|j: int|
                i < j < h.len() ==> #[trigger] h[j] is Pass,
    decreases h.len(),
{
    if h.len() > 0 {
        let p = h.drop_last();
        lemma_last_non_pass_found(p);
        if h.last() is Pass {
            assert((forall|j: int| 0 <= j < h.len() ==> #[trigger] h[j] is Pass) <==> (forall|
                j: int,
            | 0 <= j < p.len() ==> #[trigger] p[j] is Pass)) by {
                if forall|j: int| 0 <= j < p.len() ==> #[trigger] p[j] is Pass {
                    assert forall|j: int| 0 <= j < h.len() implies #[trigger] h[j] is Pass by {
                        if j < p.len() {
                            assert(h[j] == p[j]);
                        }
                    }
                }
                if forall|j: int| 0 <= j < h.len() ==> #[trigger] h[j] is Pass {
                    assert forall|j: int| 0 <= j < p.len() implies #[trigger] p[j] is Pass by {
                        assert(h[j] == p[j]);
                    }
                }
            }
            if let Some(x) = last_non_pass(h) {
                let i = choose|i: int|
                    0 <= i < p.len() && #[trigger] p[i] == x && x !is Pass && forall|j: int|
                        i < j < p.len() ==> #[trigger] p[j] is Pass;
                assert(h[i] == x);
                assert forall|j: int| i < j < h.len() implies #[trigger] h[j] is Pass by {
                    if j < p.len() {
                        assert(h[j] == p[j]);
                    }
                }
            }
        } else {
            assert(h[h.len() - 1] !is Pass);
        }
    }
}

/// Passes do not change the hand to beat, and any other move becomes it.
pub proof fn lemma_last_non_pass_push(h: Seq<HandView>, x: HandView)
    ensures
        last_non_pass(h.push(HandView::Pass)) == last_non_pass(h),
        x !is Pass ==> last_non_pass(h.push(x)) == Some(x),
{
    assert(h.push(HandView::Pass).drop_last() == h);
}

/// Unless three passes in a row cleared the table, an accepted play beats the most recent hand
/// of the history that is not a pass, however many passes came after it.
pub proof fn lemma_accepted_play_beats_latest_hand(
    g: GameView,
    name: Seq<char>,
    played: Seq<Card>,
    i: int,
)
    requires
        play_result(g, name, played) is Ok,
        g.consecutive_passes < 3,
        0 <= i < g.played_hands.len(),
        g.played_hands[i] !is Pass,
        forall|j: int| i < j < g.played_hands.len() ==> #[trigger] g.played_hands[j] is Pass,
    ensures
        hand_of(played) is Ok,
        beats(hand_of(played)->Ok_0, g.played_hands[i]),
{
    lemma_last_non_pass_is_latest_hand(g.played_hands, i);
}

/// Unless three passes in a row cleared the table, a hand of the player whose turn it is that
/// does not beat the most recent hand of the history that is not a pass is refused, however
/// many passes came after that hand.
pub proof fn lemma_play_not_beating_latest_hand_refused(
    g: GameView,
    played: Seq<Card>,
    i: int,
)
    requires
        hand_of(played) is Ok,
        g.consecutive_passes < 3,
        0 <= i < g.played_hands.len(),
        g.played_hands[i] !is Pass,
        forall|j: int| i < j < g.played_hands.len() ==> #[trigger] g.played_hands[j] is Pass,
        !beats(hand_of(played)->Ok_0, g.played_hands[i]),
    ensures
        play_result(g, g.players[g.current_turn as int].name, played) == Err::<
            (GameView, bool),
            GameError,
        >(GameError::InvalidPlayedCards),
{
    lemma_last_non_pass_is_latest_hand(g.played_hands, i);
}

/// The first of the `played` cards that is not among the `owned` cards, if any.
pub open spec fn first_unowned(owned: Seq<Card>, played: Seq<Card>) -> Option<Card>
    decreases played.len(),
{
    if played.len() == 0 {
        None
    } else if !owned.contains(played[0]) {
        Some(played[0])
    } else {
        first_unowned(owned, played.drop_first())
    }
}

/// The `owned` cards after taking out, one played card after another, the first copy of each.
pub open spec fn remove_cards(owned: Seq<Card>, played: Seq<Card>) -> Seq<Card>
    decreases played.len(),
{
    if played.len() == 0 {
        owned
    } else {
        remove_cards(owned, played.drop_last()).remove_value(played.last())
    }
}

/// The seat after the current one, going round the table.
pub open spec fn next_turn(g: GameView) -> nat {
    ((g.current_turn + 1) % g.players.len()) as nat
}

/// What playing `played` in the name of `name` does to the game `g`: the game after the move
/// and whether the player has just won, or why the move is refused.
///
/// Only the player whose turn it is may move, and the cards must form a hand. Unless three
/// passes in a row have cleared the table, the hand must beat the last cards played (a pass
/// always does). A pass is refused once the table is clear; otherwise it counts one more pass
/// and moves the turn on. Played cards must all be in the player's hand; they leave it, the
/// count of passes starts again, and a player left with no cards wins (the turn stays);
/// otherwise the turn moves on.
pub open spec fn play_result(g: GameView, name: Seq<char>, played: Seq<Card>) -> Result<
    (GameView, bool),
    GameError,
> {
    let turn = g.current_turn as int;
    let player = g.players[turn];
    if player.name != name {
        Err(GameError::InvalidPlayerTurn)
    } else {
        match hand_of(played) {
            Err(e) => Err(GameError::HandError(e)),
            Ok(hand) => {
                if g.consecutive_passes < 3 && (last_non_pass(g.played_hands) matches Some(last)
                    && !beats(hand, last)) {
                    Err(GameError::InvalidPlayedCards)
                } else if played.len() == 0 {
                    if g.consecutive_passes >= 3 {
                        Err(GameError::CannotPass)
                    } else {
                        Ok(
                            (
                                GameView {
                                    current_turn: next_turn(g),
                                    consecutive_passes: g.consecutive_passes + 1,
                                    played_hands: g.played_hands.push(HandView::Pass),
                                    ..g
                                },
                                false,
                            ),
                        )
                    }
                } else {
                    match first_unowned(player.cards, played) {
                        Some(c) => Err(GameError::CardNotOwned(c)),
                        None => {
                            let left = remove_cards(player.cards, played);
                            let after = GameView {
                                players: g.players.update(turn, PlayerView { name, cards: left }),
                                consecutive_passes: 0,
                                played_hands: g.played_hands.push(hand),
                                ..g
                            };
                            if left.len() == 0 {
                                Ok((after, true))
                            } else {
                                Ok((GameView { current_turn: next_turn(g), ..after }, false))
                            }
                        },
                    }
                }
            },
        }
    }
}

// ----------------------------------------------------------------------------
// Dealing
// ----------------------------------------------------------------------------
/// The three of diamonds, whose holder starts the game.
pub open spec fn three_of_diamonds() -> Card {
    Card { rank: Rank::Three, suit: Suit::Diamonds }
}

/// The hand dealt to seat `i`: the `i`-th run of thirteen cards of the deck, sorted.
pub open spec fn dealt_hand(deck: Seq<Card>, i: int) -> Seq<Card> {
    sort_cards(deck.subrange(13 * i, 13 * i + 13))
}

/// Seat `i` of `n` is the first one dealt the three of diamonds.
pub open spec fn is_first_holder(deck: Seq<Card>, n: int, i: int) -> bool {
    &&& 0 <= i < n
    &&& dealt_hand(deck, i).contains(three_of_diamonds())
    &&& forall|j: int| 0 <= j < i ==> !#[trigger] dealt_hand(deck, j).contains(three_of_diamonds())
}

/// The cards each player was dealt, recorded by name (where two players share a name,
/// one of their hands is kept).
pub open spec fn records_starting_hands(
    m: Map<String, Vec<Card>>,
    names: Seq<String>,
    deck: Seq<Card>,
    n: int,
) -> bool {
    &&& forall|i: int|
        0 <= i < n ==> #[trigger] m.contains_key(names[i]) && exists|k: int|
            0 <= k < n && names[k] == names[i] && m[names[i]]@ == dealt_hand(deck, k)
    &&& forall|s: String| #[trigger] m.contains_key(s) ==> exists|k: int| 0 <= k < n && names[k] == s
}

/// `r` is what dealing `deck` to the players named `names` gives, thirteen cards each in
/// seat order. The game starts with the first player dealt the three of diamonds, the others
/// following in seat order; with no such player the deal is refused.
pub open spec fn deal_outcome(
    id: Seq<char>,
    names: Seq<String>,
    deck: Seq<Card>,
    r: Result<GameView, GameError>,
) -> bool {
    let n = names.len() as int;
    match r {
        Err(e) => e == GameError::InvalidPlayedCards && forall|i: int|
            0 <= i < n ==> !#[trigger] dealt_hand(deck, i).contains(three_of_diamonds()),
        Ok(g) => {
            &&& g.id == id
            &&& g.current_turn == 0
            &&& g.consecutive_passes == 0
            &&& g.played_hands == Seq::<HandView>::empty()
            &&& g.players.len() == n
            &&& exists|f: int|
                #![trigger is_first_holder(deck, n, f)]
                is_first_holder(deck, n, f) && forall|k: int|
                    0 <= k < n ==> #[trigger] g.players[k] == (PlayerView {
                        name: names[(f + k) % n]@,
                        cards: dealt_hand(deck, (f + k) % n),
                    })
            &&& obeys_key_model::<String>() && builds_valid_hashers::<RandomState>()
                ==> records_starting_hands(g.starting_hands, names, deck, n)
        },
    }
}

/// A game, or the error, taken by its value.
pub open spec fn game_result_view(r: Result<Game, GameError>) -> Result<GameView, GameError> {
    match r {
        Ok(g) => Ok(g@),
        Err(e) => Err(e),
    }
}

/// Shuffles the deck with the thread's random number generator
/// (`rand::seq::SliceRandom::shuffle`). The order that comes out is left to chance;
/// the contract states only that the same cards come out.
#[verifier::external_body]
fn shuffle_deck(cards: &mut Vec<Card>)
    ensures
        final(cards)@.to_multiset() == old(cards)@.to_multiset(),
{
    cards.shuffle(&mut rand::rng());
}

// ----------------------------------------------------------------------------
// Helpers
// ----------------------------------------------------------------------------
/// Where the last move that is not a pass stands, if there is one.
fn last_non_pass_index(hands: &Vec<Hand>) -> (r: Option<usize>)
    ensures
        match r {
            Some(i) => i < hands@.len() && last_non_pass(hand_views(hands@)) == Some(
                hands@[i as int]@,
            ),
            None => last_non_pass(hand_views(hands@)) is None,
        },
{
    let ghost hv = hand_views(hands@);
    let mut i: usize = hands.len();
    proof {
        assert(hv.take(i as int) == hv);
    }
    while i > 0
        invariant
            i <= hands@.len(),
            hv == hand_views(hands@),
            last_non_pass(hv) == last_non_pass(hv.take(i as int)),
        decreases i,
    {
        proof {
            assert(hv.take(i as int).drop_last() == hv.take(i - 1));
        }
        match &hands[i - 1] {
            Hand::Pass => {},
            _ => {
                return Some(i - 1);
            },
        }
        i = i - 1;
    }
    proof {
        assert(hv.take(0) == Seq::<HandView>::empty());
    }
    None
}

/// Where the first copy of `c` stands in `cards`, if anywhere.
fn position_of(cards: &Vec<Card>, c: Card) -> (r: Option<usize>)
    ensures
        match r {
            Some(i) => i < cards@.len() && cards@.index_of_first(c) == Some(i as int),
            None => cards@.index_of_first(c) is None,
        },
{
    let mut i: usize = 0;
    while i < cards.len()
        invariant
            i <= cards@.len(),
            forall|j: int| 0 <= j < i ==> cards@[j] != c,
        decreases cards@.len() - i,
    {
        if cards[i] == c {
            proof {
                cards@.index_of_first_ensures(c);
            }
            return Some(i);
        }
        i = i + 1;
    }
    proof {
        cards@.index_of_first_ensures(c);
    }
    None
}

/// The first of the `played` cards that is not among the `owned` cards, if any.
fn first_unowned_card(owned: &Vec<Card>, played: &[Card]) -> (r: Option<Card>)
    ensures
        r == first_unowned(owned@, played@),
{
    let mut i: usize = 0;
    proof {
        assert(played@.skip(0) == played@);
    }
    while i < played.len()
        invariant
            i <= played@.len(),
            first_unowned(owned@, played@) == first_unowned(owned@, played@.skip(i as int)),
        decreases played@.len() - i,
    {
        let c = played[i];
        proof {
            owned@.index_of_first_ensures(c);
        }
        if position_of(owned, c).is_none() {
            return Some(c);
        }
        proof {
            assert(played@.skip(i as int).drop_first() == played@.skip(i + 1));
        }
        i = i + 1;
    }
    proof {
        assert(played@.skip(i as int) == Seq::<Card>::empty());
    }
    None
}

/// The `owned` cards after taking out, one played card after another, the first copy of each.
fn remove_played(owned: &Vec<Card>, played: &[Card]) -> (left: Vec<Card>)
    ensures
        left@ == remove_cards(owned@, played@),
{
    let mut left = crate::hands::copy_cards(owned);
    let mut i: usize = 0;
    while i < played.len()
        invariant
            i <= played@.len(),
            left@ == remove_cards(owned@, played@.take(i as int)),
        decreases played@.len() - i,
    {
        let c = played[i];
        match position_of(&left, c) {
            Some(p) => {
                left.remove(p);
            },
            None => {},
        }
        proof {
            assert(played@.take(i + 1).drop_last() == played@.take(i as int));
        }
        i = i + 1;
    }
    proof {
        assert(played@.take(i as int) == played@);
    }
    left
}

impl Game {
    /// A game in the given state.
    pub fn new(
        id: String,
        players: Vec<Player>,
        current_turn: usize,
        consecutive_passes: usize,
        played_hands: Vec<Hand>,
        starting_hands: HashMap<String, Vec<Card>>,
    ) -> (g: Game)
        ensures
            g@ == (GameView {
                id: id@,
                players: player_views(players@),
                current_turn: current_turn as nat,
                consecutive_passes: consecutive_passes as nat,
                played_hands: hand_views(played_hands@),
                starting_hands: starting_hands@,
            }),
    {
        Game { id, players, current_turn, consecutive_passes, played_hands, starting_hands }
    }

    /// Shuffles a full deck and deals it to the named players (at most four), thirteen
    /// cards each; see `deal`.
    pub fn new_game(id: String, player_names: &[String]) -> (r: Result<Game, GameError>)
        requires
            player_names@.len() <= 4,
        ensures
            exists|deck: Seq<Card>|
                #![trigger deal_outcome(id@, player_names@, deck, game_result_view(r))]
                deck.to_multiset() == crate::cards::full_deck().to_multiset() && deal_outcome(
                    id@,
                    player_names@,
                    deck,
                    game_result_view(r),
                ),
    {
        let mut deck = Card::all_cards();
        shuffle_deck(&mut deck);
        proof {
            vstd::seq_lib::to_multiset_len(deck@);
            vstd::seq_lib::to_multiset_len(crate::cards::full_deck());
        }
        let r = Game::deal(id, player_names, &deck);
        r
    }

    /// Deals `deck` to the named players in seat order, thirteen cards each, sorts each hand
    /// and records it by name; then seats the first player dealt the three of diamonds first,
    /// the others following in seat order. With no such player the deal is refused.
    pub fn deal(id: String, player_names: &[String], deck: &Vec<Card>) -> (r: Result<Game, GameError>)
        requires
            13 * player_names@.len() <= deck@.len(),
        ensures
            deal_outcome(id@, player_names@, deck@, game_result_view(r)),
    {
        let n = player_names.len();
        let dl = deck.len();
        let mut hands: Vec<Vec<Card>> = Vec::new();
        let mut i: usize = 0;
        while i < n
            invariant
                n == player_names@.len(),
                dl == deck@.len(),
                13 * n <= dl,
                i <= n,
                hands@.len() == i,
                forall|j: int| 0 <= j < i ==> (#[trigger] hands@[j])@ == dealt_hand(deck@, j),
            decreases n - i,
        {
            proof {
                assert(13 * i + 13 <= 13 * n) by (nonlinear_arith)
                    requires
                        i < n,
                ;
            }
            let start = 13 * i;
            let mut chunk: Vec<Card> = Vec::new();
            let mut k: usize = 0;
            while k < 13
                invariant
                    dl == deck@.len(),
                    start + 13 <= dl,
                    k <= 13,
                    chunk@ == deck@.subrange(start as int, start + k),
                decreases 13 - k,
            {
                chunk.push(deck[start + k]);
                k = k + 1;
            }
            let sorted = sorted_cards(chunk.as_slice());
            hands.push(sorted);
            i = i + 1;
        }
        let mut first: usize = 0;
        while first < n
            invariant
                n == player_names@.len(),
                hands@.len() == n,
                forall|j: int| 0 <= j < n ==> (#[trigger] hands@[j])@ == dealt_hand(deck@, j),
                first <= n,
                forall|j: int|
                    0 <= j < first ==> !#[trigger] dealt_hand(deck@, j).contains(
                        three_of_diamonds(),
                    ),
            ensures
                first <= n,
                forall|j: int|
                    0 <= j < first ==> !#[trigger] dealt_hand(deck@, j).contains(
                        three_of_diamonds(),
                    ),
                first < n ==> dealt_hand(deck@, first as int).contains(three_of_diamonds()),
            decreases n - first,
        {
            let holder = position_of(&hands[first], Card::new(Rank::Three, Suit::Diamonds));
            proof {
                hands@[first as int]@.index_of_first_ensures(three_of_diamonds());
            }
            if holder.is_some() {
                break;
            }
            first = first + 1;
        }
        if first == n {
            return Err(GameError::InvalidPlayedCards);
        }
        assert(is_first_holder(deck@, n as int, first as int));
        let mut starting_hands: HashMap<String, Vec<Card>> = HashMap::new();
        let mut i: usize = 0;
        while i < n
            invariant
                n == player_names@.len(),
                hands@.len() == n,
                forall|j: int| 0 <= j < n ==> (#[trigger] hands@[j])@ == dealt_hand(deck@, j),
                i <= n,
                obeys_key_model::<String>() && builds_valid_hashers::<RandomState>()
                    ==> records_starting_hands(starting_hands@, player_names@, deck@, i as int),
            decreases n - i,
        {
            let name = player_names[i].clone();
            let cards = copy_cards(&hands[i]);
            let ghost before = starting_hands@;
            starting_hands.insert(name, cards);
            proof {
                if obeys_key_model::<String>() && builds_valid_hashers::<RandomState>() {
                    let names = player_names@;
                    let m = starting_hands@;
                    assert(m == before.insert(names[i as int], cards));
                    assert forall|j: int| 0 <= j < i + 1 implies #[trigger] m.contains_key(
                        names[j],
                    ) && exists|k: int|
                        0 <= k < i + 1 && names[k] == names[j] && m[names[j]]@ == dealt_hand(
                            deck@,
                            k,
                        ) by {
                        if names[j] == names[i as int] {
                            assert(m[names[j]]@ == dealt_hand(deck@, i as int));
                        } else {
                            assert(before.contains_key(names[j]));
                            let k = choose|k: int|
                                0 <= k < i && names[k] == names[j] && before[names[j]]@
                                    == dealt_hand(deck@, k);
                            assert(m[names[j]]@ == dealt_hand(deck@, k));
                        }
                    }
                    assert forall|t: String| #[trigger] m.contains_key(t) implies exists|k: int|
                        0 <= k < i + 1 && names[k] == t by {
                        if t == names[i as int] {
                        } else {
                            assert(before.contains_key(t));
                        }
                    }
                }
            }
            i = i + 1;
        }
        let mut players: Vec<Player> = Vec::new();
        let mut k: usize = 0;
        while k < n
            invariant
                n == player_names@.len(),
                13 * n <= dl,
                hands@.len() == n,
                forall|j: int| 0 <= j < n ==> (#[trigger] hands@[j])@ == dealt_hand(deck@, j),
                first < n,
                k <= n,
                players@.len() == k,
                forall|j: int|
                    0 <= j < k ==> (#[trigger] players@[j])@ == (PlayerView {
                        name: player_names@[(first + j) % (n as int)]@,
                        cards: dealt_hand(deck@, (first + j) % (n as int)),
                    }),
            decreases n - k,
        {
            let seat = (first + k) % n;
            let name = player_names[seat].clone();
            let cards = copy_cards(&hands[seat]);
            players.push(Player { name, cards });
            k = k + 1;
        }
        let g = Game::new(id, players, 0, 0, Vec::new(), starting_hands);
        proof {
            assert(hand_views(Seq::<Hand>::empty()) == Seq::<HandView>::empty());
            let nn = n as int;
            assert forall|j: int| 0 <= j < nn implies #[trigger] g@.players[j] == (PlayerView {
                name: player_names@[(first + j) % nn]@,
                cards: dealt_hand(deck@, (first + j) % nn),
            }) by {
                assert(g@.players[j] == players@[j]@);
            }
        }
        Ok(g)
    }

    /// Plays `cards` (none: a pass) for the player named `player_name`; see `play_result`.
    /// Returns whether the player has won. A refused move leaves the game as it was.
    pub fn play_cards(&mut self, player_name: &str, cards: &[Card]) -> (r: Result<bool, GameError>)
        requires
            old(self)@.current_turn < old(self)@.players.len(),
        ensures
            match play_result(old(self)@, player_name@, cards@) {
                Ok((g, won)) => r == Ok::<bool, GameError>(won) && final(self)@ == g,
                Err(e) => r == Err::<bool, GameError>(e) && final(self)@ == old(self)@,
            },
    {
        let ghost g0 = self@;
        let turn = self.current_turn;
        proof {
            assert(turn < self.players@.len());
        }
        let name = String::from_str(player_name);
        if !(self.players[turn].name == name) {
            return Err(GameError::InvalidPlayerTurn);
        }
        let new_hand = match Hand::from_cards(cards) {
            Ok(h) => h,
            Err(e) => {
                return Err(GameError::HandError(e));
            },
        };
        if cards.len() > 0 && self.consecutive_passes < 3 && self.played_hands.len() > 0 {
            match last_non_pass_index(&self.played_hands) {
                Some(i) => {
                    if !new_hand.can_beat(&self.played_hands[i]) {
                        return Err(GameError::InvalidPlayedCards);
                    }
                },
                None => {},
            }
        }
        proof {
            if self.played_hands@.len() == 0 {
                assert(hand_views(self.played_hands@) == Seq::<HandView>::empty());
            }
        }
        if cards.len() == 0 {
            if self.consecutive_passes >= 3 {
                return Err(GameError::CannotPass);
            }
            self.consecutive_passes = self.consecutive_passes + 1;
            self.played_hands.push(Hand::Pass);
            proof {
                assert(hand_views(self.played_hands@) == g0.played_hands.push(HandView::Pass));
            }
        } else {
            match first_unowned_card(&self.players[turn].cards, cards) {
                Some(c) => {
                    return Err(GameError::CardNotOwned(c));
                },
                None => {},
            }
            let left = remove_played(&self.players[turn].cards, cards);
            let kept_name = self.players[turn].name.clone();
            let won = left.len() == 0;
            self.players.set(turn, Player { name: kept_name, cards: left });
            self.consecutive_passes = 0;
            self.played_hands.push(new_hand);
            proof {
                assert(hand_views(self.played_hands@) == g0.played_hands.push(new_hand@));
                assert(player_views(self.players@) == g0.players.update(
                    turn as int,
                    PlayerView { name: player_name@, cards: left@ },
                ));
            }
            if won {
                return Ok(true);
            }
        }
        let n = self.players.len();
        self.current_turn = (turn + 1) % n;
        Ok(false)
    }

    /// The players in turn order.
    pub fn players(&self) -> (r: &Vec<Player>)
        ensures
            player_views(r@) == self@.players,
    {
        &self.players
    }

    /// The name of the player whose turn it is.
    pub fn current_player_turn(&self) -> (name: String)
        requires
            self@.current_turn < self@.players.len(),
        ensures
            name@ == self@.players[self@.current_turn as int].name,
    {
        self.players[self.current_turn].name.clone()
    }

    /// How many passes came in a row.
    pub fn consecutive_passes(&self) -> (n: usize)
        ensures
            n == self@.consecutive_passes,
    {
        self.consecutive_passes
    }

    /// The cards of the last move (none when it was a pass or nothing was played yet).
    pub fn last_played_cards(&self) -> (cards: Vec<Card>)
        ensures
            cards@ == if self@.played_hands.len() == 0 {
                Seq::<Card>::empty()
            } else {
                crate::hands::hand_cards(self@.played_hands.last())
            },
    {
        let n = self.played_hands.len();
        if n == 0 {
            Vec::new()
        } else {
            self.played_hands[n - 1].to_cards()
        }
    }

    /// The last move, if any.
    pub fn get_last_played_hand(&self) -> (r: Option<&Hand>)
        ensures
            match r {
                Some(h) => self@.played_hands.len() > 0 && h@ == self@.played_hands.last(),
                None => self@.played_hands.len() == 0,
            },
    {
        let n = self.played_hands.len();
        if n == 0 {
            None
        } else {
            Some(&self.played_hands[n - 1])
        }
    }

    /// Every move so far, first to last.
    pub fn played_hands(&self) -> (r: &[Hand])
        ensures
            hand_views(r@) == self@.played_hands,
    {
        self.played_hands.as_slice()
    }

    /// The cards each player was dealt, by name.
    pub fn starting_hands(&self) -> (r: &HashMap<String, Vec<Card>>)
        ensures
            r@ == self@.starting_hands,
    {
        &self.starting_hands
    }
}

// ----------------------------------------------------------------------------
// Laws of the game
// ----------------------------------------------------------------------------
/// All the cards in the players' hands.
pub open spec fn cards_in_hands(players: Seq<PlayerView>) -> Multiset<Card>
    decreases players.len(),
{
    if players.len() == 0 {
        Multiset::empty()
    } else {
        cards_in_hands(players.drop_last()).add(players.last().cards.to_multiset())
    }
}

/// All the cards played so far.
pub open spec fn cards_on_table(hands: Seq<HandView>) -> Multiset<Card>
    decreases hands.len(),
{
    if hands.len() == 0 {
        Multiset::empty()
    } else {
        cards_on_table(hands.drop_last()).add(crate::hands::hand_cards(hands.last()).to_multiset())
    }
}

/// An accepted move changes only what it should: the same players sit in the same seats,
/// only the mover's cards change and only by losing cards, the move is added to the history,
/// the turn stays valid and moves to the next seat unless the mover has just won, and a player
/// wins exactly when playing their last cards. Cards played over the table's last hand beat it
/// unless three passes cleared the table; a pass counts one more pass, and played cards start
/// the count again.
pub proof fn lemma_accepted_move(g: GameView, name: Seq<char>, played: Seq<Card>)
    requires
        0 <= g.current_turn < g.players.len(),
        play_result(g, name, played) is Ok,
    ensures
        ({
            let (g2, won) = play_result(g, name, played)->Ok_0;
            let turn = g.current_turn as int;
            let hand = hand_of(played)->Ok_0;
            &&& hand_of(played) is Ok
            &&& g.players[turn].name == name
            &&& g2.id == g.id
            &&& g2.starting_hands == g.starting_hands
            &&& g2.players.len() == g.players.len()
            &&& forall|i: int|
                0 <= i < g.players.len() ==> (#[trigger] g2.players[i]).name == g.players[i].name
            &&& forall|i: int|
                0 <= i < g.players.len() && i != turn ==> #[trigger] g2.players[i] == g.players[i]
            &&& g2.players[turn].cards.to_multiset().subset_of(g.players[turn].cards.to_multiset())
            &&& g2.played_hands == g.played_hands.push(hand)
            &&& g2.current_turn < g2.players.len()
            &&& won ==> g2.current_turn == turn
            &&& !won ==> g2.current_turn == next_turn(g)
            &&& won <==> (played.len() > 0 && g2.players[turn].cards.len() == 0)
            &&& played.len() == 0 ==> g.consecutive_passes < 3 && g2.consecutive_passes
                == g.consecutive_passes + 1
            &&& played.len() > 0 ==> g2.consecutive_passes == 0
            &&& played.len() > 0 ==> (g.consecutive_passes >= 3 || (last_non_pass(
                g.played_hands,
            ) matches Some(last) ==> beats(hand, last)))
        }),
{
    let turn = g.current_turn as int;
    let n = g.players.len() as int;
    assert(0 <= (turn + 1) % n < n) by (nonlinear_arith)
        requires
            0 <= turn < n,
    ;
    if played.len() > 0 {
        lemma_first_unowned_none(g.players[turn].cards, played);
        lemma_remove_cards_subset(g.players[turn].cards, played);
    }
}

/// Once three passes in a row have cleared the table, the player whose turn it is may play
/// any hand of their own cards, whatever was played before.
pub proof fn lemma_clear_table_takes_any_hand(g: GameView, played: Seq<Card>)
    requires
        0 <= g.current_turn < g.players.len(),
        g.consecutive_passes >= 3,
        played.len() > 0,
        hand_of(played) is Ok,
        forall|j: int| 0 <= j < played.len() ==> g.players[g.current_turn as int].cards.contains(
            #[trigger] played[j],
        ),
    ensures
        play_result(g, g.players[g.current_turn as int].name, played) is Ok,
{
    lemma_first_unowned_none(g.players[g.current_turn as int].cards, played);
}

/// Passing is allowed exactly while fewer than three passes came in a row.
pub proof fn lemma_pass_allowed(g: GameView)
    requires
        0 <= g.current_turn < g.players.len(),
    ensures
        play_result(g, g.players[g.current_turn as int].name, Seq::empty()) is Ok <==> g.consecutive_passes
            < 3,
{
}

/// Cards are never lost or made up: what leaves a player's hand is what goes on the table,
/// so the cards in hands and on the table together stay the same. (Playing the same card
/// twice in one move is left out: the player loses only one copy of it.)
pub proof fn lemma_cards_conserved(g: GameView, name: Seq<char>, played: Seq<Card>)
    requires
        0 <= g.current_turn < g.players.len(),
        play_result(g, name, played) is Ok,
        played.no_duplicates(),
    ensures
        ({
            let g2 = play_result(g, name, played)->Ok_0.0;
            cards_in_hands(g2.players).add(cards_on_table(g2.played_hands)) == cards_in_hands(
                g.players,
            ).add(cards_on_table(g.played_hands))
        }),
{
    broadcast use vstd::multiset::group_multiset_axioms;

    let turn = g.current_turn as int;
    let g2 = play_result(g, name, played)->Ok_0.0;
    let hand = hand_of(played)->Ok_0;
    assert(g2.played_hands.drop_last() == g.played_hands);
    crate::hands::lemma_hand_keeps_cards(played, hand);
    if played.len() > 0 {
        let owned = g.players[turn].cards;
        let left = remove_cards(owned, played);
        lemma_first_unowned_none(owned, played);
        lemma_remove_cards_count(owned, played);
        lemma_cards_in_hands_update(g.players, turn, PlayerView { name, cards: left });
        assert(g2.players == g.players.update(turn, PlayerView { name, cards: left }));
        assert(g2.played_hands == g.played_hands.push(hand));
        assert(cards_on_table(g2.played_hands) == cards_on_table(g.played_hands).add(
            crate::hands::hand_cards(hand).to_multiset(),
        ));
        let u = cards_in_hands(g2.players);
        let h = cards_in_hands(g.players);
        let t = cards_on_table(g.played_hands);
        let o = owned.to_multiset();
        let lf = left.to_multiset();
        let pl = played.to_multiset();
        assert(u.add(o) == h.add(lf));
        assert(lf.add(pl) == o);
        assert(crate::hands::hand_cards(hand).to_multiset() == pl);
        assert(u.add(t.add(pl)) =~= h.add(t)) by {
            assert forall|c: Card| #[trigger] u.add(t.add(pl)).count(c) == h.add(t).count(c) by {
                assert(u.add(o).count(c) == h.add(lf).count(c));
                assert(lf.add(pl).count(c) == o.count(c));
            }
        }
    } else {
        assert(played == Seq::<Card>::empty());
        assert(cards_in_hands(g2.players).add(cards_on_table(g2.played_hands)) =~= cards_in_hands(
            g.players,
        ).add(cards_on_table(g.played_hands)));
    }
}

/// No unowned card among `played` means every played card is owned.
pub proof fn lemma_first_unowned_none(owned: Seq<Card>, played: Seq<Card>)
    ensures
        first_unowned(owned, played) is None <==> forall|j: int|
            0 <= j < played.len() ==> owned.contains(#[trigger] played[j]),
    decreases played.len(),
{
    if played.len() > 0 {
        lemma_first_unowned_none(owned, played.drop_first());
        if first_unowned(owned, played) is None {
            assert forall|j: int| 0 <= j < played.len() implies owned.contains(
                #[trigger] played[j],
            ) by {
                if j > 0 {
                    assert(played[j] == played.drop_first()[j - 1]);
                }
            }
        } else if forall|j: int| 0 <= j < played.len() ==> owned.contains(#[trigger] played[j]) {
            assert(owned.contains(played[0]));
            assert forall|j: int| 0 <= j < played.drop_first().len() implies owned.contains(
                #[trigger] played.drop_first()[j],
            ) by {
                assert(played.drop_first()[j] == played[j + 1]);
            }
        }
    }
}

/// Taking cards out of a hand only ever loses cards.
proof fn lemma_remove_cards_subset(owned: Seq<Card>, played: Seq<Card>)
    ensures
        remove_cards(owned, played).to_multiset().subset_of(owned.to_multiset()),
    decreases played.len(),
{
    broadcast use vstd::multiset::group_multiset_axioms;

    if played.len() > 0 {
        let pre = remove_cards(owned, played.drop_last());
        lemma_remove_cards_subset(owned, played.drop_last());
        pre.index_of_first_ensures(played.last());
    }
}

/// Taking out owned cards, each once, leaves the hand short of exactly those cards.
proof fn lemma_remove_cards_count(owned: Seq<Card>, played: Seq<Card>)
    requires
        played.no_duplicates(),
        forall|j: int| 0 <= j < played.len() ==> owned.contains(#[trigger] played[j]),
    ensures
        remove_cards(owned, played).to_multiset().add(played.to_multiset()) == owned.to_multiset(),
    decreases played.len(),
{
    broadcast use vstd::multiset::group_multiset_axioms;

    if played.len() == 0 {
        assert(remove_cards(owned, played).to_multiset().add(played.to_multiset()) =~= owned.to_multiset());
    } else {
        let pre = played.drop_last();
        let x = played.last();
        assert forall|j: int| 0 <= j < pre.len() implies owned.contains(#[trigger] pre[j]) by {
            assert(pre[j] == played[j]);
        }
        assert(pre.no_duplicates());
        lemma_remove_cards_count(owned, pre);
        let r = remove_cards(owned, pre);
        assert(owned.contains(played[played.len() - 1]));
        assert(!pre.contains(x)) by {
            if pre.contains(x) {
                let k = choose|k: int| 0 <= k < pre.len() && pre[k] == x;
                assert(played[k] == played[played.len() - 1]);
            }
        }
        assert(owned.to_multiset().count(x) > 0);
        assert(pre.to_multiset().count(x) == 0);
        assert(r.to_multiset().count(x) > 0);
        assert(r.contains(x));
        r.index_of_first_ensures(x);
        assert(played == pre.push(x));
        assert(remove_cards(owned, played).to_multiset().add(played.to_multiset()) =~= owned.to_multiset());
    }
}

/// Replacing one player changes the cards in hands by that player's cards.
proof fn lemma_cards_in_hands_update(players: Seq<PlayerView>, i: int, p: PlayerView)
    requires
        0 <= i < players.len(),
    ensures
        cards_in_hands(players.update(i, p)).add(players[i].cards.to_multiset()) == cards_in_hands(
            players,
        ).add(p.cards.to_multiset()),
    decreases players.len(),
{
    broadcast use vstd::multiset::group_multiset_axioms;

    let u = players.update(i, p);
    assert(cards_in_hands(u) == cards_in_hands(u.drop_last()).add(u.last().cards.to_multiset()));
    assert(cards_in_hands(players) == cards_in_hands(players.drop_last()).add(
        players.last().cards.to_multiset(),
    ));
    if i == players.len() - 1 {
        assert(u.last() == p);
        assert(u.drop_last() == players.drop_last());
        assert(cards_in_hands(u).add(players[i].cards.to_multiset()) =~= cards_in_hands(players).add(
            p.cards.to_multiset(),
        ));
    } else {
        assert(u.last() == players.last());
        assert(u.drop_last() == players.drop_last().update(i, p));
        assert(players.drop_last()[i] == players[i]);
        lemma_cards_in_hands_update(players.drop_last(), i, p);
        let a = cards_in_hands(players.drop_last().update(i, p));
        let b = cards_in_hands(players.drop_last());
        let l = players.last().cards.to_multiset();
        let pi = players[i].cards.to_multiset();
        let pm = p.cards.to_multiset();
        assert(a.add(pi) == b.add(pm));
        assert(cards_in_hands(u) == a.add(l));
        assert(a.add(l).add(pi) =~= b.add(l).add(pm)) by {
            assert forall|c: Card| #[trigger] a.add(l).add(pi).count(c) == b.add(l).add(pm).count(c) by {
                assert(a.add(pi).count(c) == b.add(pm).count(c));
            }
        }
    }
}

/// The cards in the hands of four players.
proof fn lemma_cards_in_hands_four(p: Seq<PlayerView>)
    requires
        p.len() == 4,
    ensures
        cards_in_hands(p) == p[0].cards.to_multiset().add(p[1].cards.to_multiset()).add(
            p[2].cards.to_multiset(),
        ).add(p[3].cards.to_multiset()),
{
    broadcast use vstd::multiset::group_multiset_axioms;

    let p3 = p.drop_last();
    let p2 = p3.drop_last();
    let p1 = p2.drop_last();
    let p0 = p1.drop_last();
    assert(p0 == Seq::<PlayerView>::empty());
    assert(cards_in_hands(p0) == Multiset::<Card>::empty());
    assert(cards_in_hands(p1) == cards_in_hands(p0).add(p[0].cards.to_multiset()));
    assert(cards_in_hands(p2) == cards_in_hands(p1).add(p[1].cards.to_multiset()));
    assert(cards_in_hands(p3) == cards_in_hands(p2).add(p[2].cards.to_multiset()));
    assert(cards_in_hands(p) == cards_in_hands(p3).add(p[3].cards.to_multiset()));
    assert(cards_in_hands(p) =~= p[0].cards.to_multiset().add(p[1].cards.to_multiset()).add(
        p[2].cards.to_multiset(),
    ).add(p[3].cards.to_multiset()));
}

/// A deck of 52 cards dealt four ways: each hand is thirteen sorted cards, and the four
/// hands together hold the deck.
proof fn lemma_deal_splits_deck(deck: Seq<Card>)
    requires
        deck.len() == 52,
    ensures
        forall|i: int|
            0 <= i < 4 ==> (#[trigger] dealt_hand(deck, i)).len() == 13 && vstd::relations::sorted_by(
                dealt_hand(deck, i),
                crate::hands::card_order(),
            ),
        dealt_hand(deck, 0).to_multiset().add(dealt_hand(deck, 1).to_multiset()).add(
            dealt_hand(deck, 2).to_multiset(),
        ).add(dealt_hand(deck, 3).to_multiset()) == deck.to_multiset(),
{
    broadcast use vstd::multiset::group_multiset_axioms;

    assert forall|i: int| 0 <= i < 4 implies (#[trigger] dealt_hand(deck, i)).to_multiset()
        == deck.subrange(13 * i, 13 * i + 13).to_multiset() && dealt_hand(deck, i).len() == 13
        && vstd::relations::sorted_by(dealt_hand(deck, i), crate::hands::card_order()) by {
        crate::hands::lemma_sort_cards(deck.subrange(13 * i, 13 * i + 13));
    }
    let d0 = deck.subrange(0, 13);
    let d1 = deck.subrange(13, 26);
    let d2 = deck.subrange(26, 39);
    let d3 = deck.subrange(39, 52);
    assert(deck == d0 + d1 + d2 + d3);
    vstd::seq_lib::lemma_multiset_commutative(d0, d1);
    vstd::seq_lib::lemma_multiset_commutative(d0 + d1, d2);
    vstd::seq_lib::lemma_multiset_commutative(d0 + d1 + d2, d3);
    assert(dealt_hand(deck, 0).to_multiset() == d0.to_multiset());
    assert(dealt_hand(deck, 1).to_multiset() == d1.to_multiset());
    assert(dealt_hand(deck, 2).to_multiset() == d2.to_multiset());
    assert(dealt_hand(deck, 3).to_multiset() == d3.to_multiset());
}

/// With four players and a full deck, the deal never fails; it hands out the whole deck,
/// thirteen sorted cards each, and the player who starts holds the three of diamonds.
pub proof fn lemma_four_player_deal(
    id: Seq<char>,
    names: Seq<String>,
    deck: Seq<Card>,
    r: Result<GameView, GameError>,
)
    requires
        names.len() == 4,
        deck.to_multiset() == crate::cards::full_deck().to_multiset(),
        deal_outcome(id, names, deck, r),
    ensures
        r is Ok,
        ({
            let g = r->Ok_0;
            &&& g.players.len() == 4
            &&& g.current_turn == 0
            &&& g.players[0].cards.contains(three_of_diamonds())
            &&& forall|k: int|
                0 <= k < 4 ==> (#[trigger] g.players[k]).cards.len() == 13
                    && vstd::relations::sorted_by(g.players[k].cards, crate::hands::card_order())
            &&& cards_in_hands(g.players) == crate::cards::full_deck().to_multiset()
        }),
{
    broadcast use vstd::multiset::group_multiset_axioms;

    vstd::seq_lib::to_multiset_len(deck);
    vstd::seq_lib::to_multiset_len(crate::cards::full_deck());
    lemma_deal_splits_deck(deck);
    let h0 = dealt_hand(deck, 0).to_multiset();
    let h1 = dealt_hand(deck, 1).to_multiset();
    let h2 = dealt_hand(deck, 2).to_multiset();
    let h3 = dealt_hand(deck, 3).to_multiset();
    // The three of diamonds is dealt to some seat, so the deal goes through.
    let c = three_of_diamonds();
    crate::cards::lemma_all_cards_complete(crate::cards::full_deck(), c);
    assert(deck.to_multiset().count(c) > 0);
    if r is Err {
        assert(!dealt_hand(deck, 0).contains(c));
        assert(!dealt_hand(deck, 1).contains(c));
        assert(!dealt_hand(deck, 2).contains(c));
        assert(!dealt_hand(deck, 3).contains(c));
        assert(h0.add(h1).add(h2).add(h3).count(c) == 0);
    }
    let g = r->Ok_0;
    let f = choose|f: int|
        #![trigger is_first_holder(deck, 4, f)]
        is_first_holder(deck, 4, f) && forall|k: int|
            0 <= k < 4 ==> #[trigger] g.players[k] == (PlayerView {
                name: names[(f + k) % 4]@,
                cards: dealt_hand(deck, (f + k) % 4),
            });
    assert(g.players[0] == PlayerView { name: names[f % 4]@, cards: dealt_hand(deck, f % 4) });
    assert(g.players[1].cards == dealt_hand(deck, (f + 1) % 4));
    assert(g.players[2].cards == dealt_hand(deck, (f + 2) % 4));
    assert(g.players[3].cards == dealt_hand(deck, (f + 3) % 4));
    lemma_cards_in_hands_four(g.players);
    let hs = cards_in_hands(g.players);
    assert(hs =~= h0.add(h1).add(h2).add(h3)) by {
        assert forall|x: Card| #[trigger] hs.count(x) == h0.add(h1).add(h2).add(h3).count(x) by {
            if f == 0 {
            } else if f == 1 {
            } else if f == 2 {
            } else {
            }
        }
    }
}

} // verus!
