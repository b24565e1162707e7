use vstd::prelude::*;
use vstd::relations::{sorted_by, total_ordering};

use crate::cards::{
    card_key, card_le, lemma_card_key_injective, lemma_symbols_roundtrip, rank_at, rank_index,
    suit_index, Card, Rank, Suit,
};

verus! {

broadcast use vstd::seq_lib::group_to_multiset_ensures;

/// Why a set of cards does not form a hand, or hands cannot be compared.
#[derive(Debug, Clone, PartialEq, Eq, Structural)]
pub enum HandError {
    InvalidHandSize,
    InvalidHandType,
    CardsNotSorted,
    CannotCompareAcrossTypes,
}

/// One card.
#[derive(Debug, Clone, PartialEq, Eq)]
pub struct SingleHand {
    pub card: Card,
}

/// Two cards of one rank, lower suit first; `high_card` is the one of the higher suit.
#[derive(Debug, Clone, PartialEq, Eq)]
pub struct PairHand {
    pub rank: Rank,
    pub cards: [Card; 2],
    pub high_card: Card,
}

/// Three cards of one rank, ordered by suit; `high_card` is the highest of them.
#[derive(Debug, Clone, PartialEq, Eq)]
pub struct TripleHand {
    pub rank: Rank,
    pub cards: [Card; 3],
    pub high_card: Card,
}

/// Five cards of consecutive ranks.
#[derive(Debug, Clone, PartialEq, Eq)]
pub struct StraightHand {
    pub cards: Vec<Card>,
    pub high_card: Card,
}

/// Five cards of one suit.
#[derive(Debug, Clone, PartialEq, Eq)]
pub struct FlushHand {
    pub cards: Vec<Card>,
    pub suit: Suit,
    pub high_card: Card,
}

/// Three cards of one rank and two of another.
#[derive(Debug, Clone, PartialEq, Eq)]
pub struct FullHouseHand {
    pub cards: Vec<Card>,
    pub triple_rank: Rank,
    pub high_card: Card,
}

/// Four cards of one rank and one other card.
#[derive(Debug, Clone, PartialEq, Eq)]
pub struct FourOfAKindHand {
    pub cards: Vec<Card>,
    pub quad_rank: Rank,
    pub high_card: Card,
}

/// Five cards of consecutive ranks and one suit.
#[derive(Debug, Clone, PartialEq, Eq)]
pub struct StraightFlushHand {
    pub cards: Vec<Card>,
    pub suit: Suit,
    pub high_card: Card,
}

/// The five-card combinations, from weakest to strongest type.
#[derive(Debug, Clone, PartialEq, Eq)]
pub enum FiveCardHand {
    Straight(StraightHand),
    Flush(FlushHand),
    FullHouse(FullHouseHand),
    FourOfAKind(FourOfAKindHand),
    StraightFlush(StraightFlushHand),
}

/// A move: a pass or a combination of cards.
#[derive(Debug, Clone, PartialEq, Eq)]
pub enum Hand {
    Pass,
    Single(SingleHand),
    Pair(PairHand),
    Triple(TripleHand),
    Five(FiveCardHand),
}

/// The mathematical value of a hand: its kind, its cards and the cards or ranks it is compared by.
pub enum HandView {
    Pass,
    Single { card: Card },
    Pair { rank: Rank, cards: Seq<Card>, high_card: Card },
    Triple { rank: Rank, cards: Seq<Card>, high_card: Card },
    Straight { cards: Seq<Card>, high_card: Card },
    Flush { cards: Seq<Card>, suit: Suit, high_card: Card },
    FullHouse { cards: Seq<Card>, triple_rank: Rank, high_card: Card },
    FourOfAKind { cards: Seq<Card>, quad_rank: Rank, high_card: Card },
    StraightFlush { cards: Seq<Card>, suit: Suit, high_card: Card },
}

impl View for SingleHand {
    type V = HandView;

    open spec fn view(&self) -> HandView {
        HandView::Single { card: self.card }
    }
}

impl View for PairHand {
    type V = HandView;

    open spec fn view(&self) -> HandView {
        HandView::Pair { rank: self.rank, cards: self.cards@, high_card: self.high_card }
    }
}

impl View for TripleHand {
    type V = HandView;

    open spec fn view(&self) -> HandView {
        HandView::Triple { rank: self.rank, cards: self.cards@, high_card: self.high_card }
    }
}

impl View for StraightHand {
    type V = HandView;

    open spec fn view(&self) -> HandView {
        HandView::Straight { cards: self.cards@, high_card: self.high_card }
    }
}

impl View for FlushHand {
    type V = HandView;

    open spec fn view(&self) -> HandView {
        HandView::Flush { cards: self.cards@, suit: self.suit, high_card: self.high_card }
    }
}

impl View for FullHouseHand {
    type V = HandView;

    open spec fn view(&self) -> HandView {
        HandView::FullHouse {
            cards: self.cards@,
            triple_rank: self.triple_rank,
            high_card: self.high_card,
        }
    }
}

impl View for FourOfAKindHand {
    type V = HandView;

    open spec fn view(&self) -> HandView {
        HandView::FourOfAKind {
            cards: self.cards@,
            quad_rank: self.quad_rank,
            high_card: self.high_card,
        }
    }
}

impl View for StraightFlushHand {
    type V = HandView;

    open spec fn view(&self) -> HandView {
        HandView::StraightFlush { cards: self.cards@, suit: self.suit, high_card: self.high_card }
    }
}

impl View for FiveCardHand {
    type V = HandView;

    open spec fn view(&self) -> HandView {
        match self {
            FiveCardHand::Straight(h) => h@,
            FiveCardHand::Flush(h) => h@,
            FiveCardHand::FullHouse(h) => h@,
            FiveCardHand::FourOfAKind(h) => h@,
            FiveCardHand::StraightFlush(h) => h@,
        }
    }
}

impl View for Hand {
    type V = HandView;

    open spec fn view(&self) -> HandView {
        match self {
            Hand::Pass => HandView::Pass,
            Hand::Single(h) => h@,
            Hand::Pair(h) => h@,
            Hand::Triple(h) => h@,
            Hand::Five(h) => h@,
        }
    }
}

/// A built hand, or the error, taken by its value.
pub open spec fn view_result<T: View<V = HandView>>(r: Result<T, HandError>) -> Result<
    HandView,
    HandError,
> {
    match r {
        Ok(h) => Ok(h@),
        Err(e) => Err(e),
    }
}

// ----------------------------------------------------------------------------
// Sorting and counting cards
// ----------------------------------------------------------------------------
/// The card order as a relation.
pub open spec fn card_order() -> spec_fn(Card, Card) -> bool {
    |a: Card, b: Card| card_le(a, b)
}

/// The cards of `s` in ascending card order.
pub open spec fn sort_cards(s: Seq<Card>) -> Seq<Card> {
    s.sort_by(card_order())
}

/// How many cards of `s` have the rank at position `i` of the rank order.
pub open spec fn rank_count(s: Seq<Card>, i: int) -> nat {
    s.filter(|c: Card| rank_index(c.rank) == i).len()
}

/// The card order is a total order.
pub proof fn lemma_card_order_total()
    ensures
        total_ordering(card_order()),
{
    assert forall|a: Card, b: Card| #[trigger] card_order()(a, b) && #[trigger] card_order()(b, a)
        implies a == b by {
        lemma_card_key_injective(a, b);
    }
}

/// Sorting gives a sorted permutation, and it is the only one.
pub proof fn lemma_sort_cards(s: Seq<Card>)
    ensures
        sorted_by(sort_cards(s), card_order()),
        sort_cards(s).to_multiset() == s.to_multiset(),
        sort_cards(s).len() == s.len(),
        forall|t: Seq<Card>|
            sorted_by(t, card_order()) && t.to_multiset() == s.to_multiset() ==> t == sort_cards(
                s,
            ),
{
    lemma_card_order_total();
    s.lemma_sort_by_ensures(card_order());
    assert(sort_cards(s).len() == s.len()) by {
        assert(sort_cards(s).to_multiset().len() == s.to_multiset().len());
    }
    assert forall|t: Seq<Card>|
        sorted_by(t, card_order()) && t.to_multiset() == s.to_multiset() implies t
        == sort_cards(s) by {
        vstd::seq_lib::lemma_sorted_unique(t, sort_cards(s), card_order());
    }
}

/// Every card of a sorted sequence lies at or below its last card.
pub proof fn lemma_sorted_last_is_max(t: Seq<Card>)
    requires
        sorted_by(t, card_order()),
        t.len() > 0,
    ensures
        forall|j: int| 0 <= j < t.len() ==> card_le(#[trigger] t[j], t[t.len() - 1]),
{
    assert forall|j: int| 0 <= j < t.len() implies card_le(#[trigger] t[j], t[t.len() - 1]) by {
        if j < t.len() - 1 {
            assert(card_order()(t[j], t[t.len() - 1]));
        }
    }
}

/// Two different ranks never hold more cards between them than there are cards.
pub proof fn lemma_rank_counts_bounded(s: Seq<Card>, i: int, j: int)
    requires
        i != j,
    ensures
        rank_count(s, i) + rank_count(s, j) <= s.len(),
    decreases s.len(),
{
    if s.len() > 0 {
        let p = s.drop_last();
        lemma_rank_counts_bounded(p, i, j);
        assert(s == p.push(s.last()));
        p.lemma_filter_push(s.last(), |c: Card| rank_index(c.rank) == i);
        p.lemma_filter_push(s.last(), |c: Card| rank_index(c.rank) == j);
    }
}

/// Rank counts depend only on which cards there are, not on their order.
pub proof fn lemma_rank_count_permutation(s: Seq<Card>, t: Seq<Card>, i: int)
    requires
        s.to_multiset() == t.to_multiset(),
    ensures
        rank_count(s, i) == rank_count(t, i),
    decreases s.len(),
{
    broadcast use vstd::multiset::group_multiset_axioms;

    assert(s.len() == t.len()) by {
        vstd::seq_lib::to_multiset_len(s);
        vstd::seq_lib::to_multiset_len(t);
    }
    if s.len() > 0 {
        let x = s.last();
        let p = s.drop_last();
        assert(s == p.push(x));
        assert(t.to_multiset().contains(x));
        let k = choose|k: int| 0 <= k < t.len() && t[k] == x;
        let q = t.remove(k);
        assert(q.to_multiset() == t.to_multiset().remove(x));
        assert(p.to_multiset() == s.to_multiset().remove(x));
        lemma_rank_count_permutation(p, q, i);
        // t is q with x put back at position k.
        assert(t == q.take(k).push(x) + q.skip(k));
        lemma_rank_count_split(q.take(k), q.skip(k), i);
        lemma_rank_count_split(q.take(k).push(x), q.skip(k), i);
        assert(q == q.take(k) + q.skip(k));
        p.lemma_filter_push(x, |c: Card| rank_index(c.rank) == i);
        q.take(k).lemma_filter_push(x, |c: Card| rank_index(c.rank) == i);
    }
}

/// Rank counts add up over concatenation.
pub proof fn lemma_rank_count_split(a: Seq<Card>, b: Seq<Card>, i: int)
    ensures
        rank_count(a + b, i) == rank_count(a, i) + rank_count(b, i),
{
    Seq::filter_distributes_over_add(a, b, |c: Card| rank_index(c.rank) == i);
}


// ----------------------------------------------------------------------------
// What a set of cards forms
// ----------------------------------------------------------------------------
/// The rank count pattern of a straight that starts at rank position `k`.
pub open spec fn run_count(k: int, i: int) -> nat {
    if k <= i < k + 5 {
        1
    } else {
        0
    }
}

/// The rank count pattern of the straight Ace-Two-Three-Four-Five.
pub open spec fn low_ace_count(i: int) -> nat {
    if i <= 2 || 11 <= i {
        1
    } else {
        0
    }
}

/// The ranks of `s` are the five consecutive ranks starting at position `k`.
pub open spec fn is_run_from(s: Seq<Card>, k: int) -> bool {
    forall|i: int| 0 <= i < 13 ==> #[trigger] rank_count(s, i) == run_count(k, i)
}

/// The ranks of `s` are Ace, Two, Three, Four and Five.
pub open spec fn is_low_ace_run(s: Seq<Card>) -> bool {
    forall|i: int| 0 <= i < 13 ==> #[trigger] rank_count(s, i) == low_ace_count(i)
}

/// The ranks of `s` form a straight: five consecutive ranks from Three-to-Seven up to
/// Ten-to-Ace, or Ace-to-Five. Runs through Two (such as Jack-to-Two) are no straight.
pub open spec fn is_straight_ranks(s: Seq<Card>) -> bool {
    (exists|k: int| 0 <= k <= 7 && #[trigger] is_run_from(s, k)) || is_low_ace_run(s)
}

/// All cards of `s` share the suit of its first card.
pub open spec fn is_same_suit(s: Seq<Card>) -> bool {
    forall|j: int| 0 <= j < s.len() ==> (#[trigger] s[j]).suit == s[0].suit
}

/// Some rank occurs exactly `n` times in `s`.
pub open spec fn has_rank_count(s: Seq<Card>, n: nat) -> bool {
    exists|i: int| 0 <= i < 13 && #[trigger] rank_count(s, i) == n
}

/// A rank that occurs exactly `n` times in `s`.
pub open spec fn rank_with_count(s: Seq<Card>, n: nat) -> Rank {
    rank_at(choose|i: int| 0 <= i < 13 && #[trigger] rank_count(s, i) == n)
}

/// The hand that two cards form: a pair when they share a rank.
pub open spec fn pair_of(c1: Card, c2: Card) -> Result<HandView, HandError> {
    if c1.rank != c2.rank {
        Err(HandError::InvalidHandType)
    } else {
        Ok(
            HandView::Pair {
                rank: c1.rank,
                cards: if suit_index(c1.suit) < suit_index(c2.suit) {
                    seq![c1, c2]
                } else {
                    seq![c2, c1]
                },
                high_card: if suit_index(c1.suit) > suit_index(c2.suit) {
                    c1
                } else {
                    c2
                },
            },
        )
    }
}

/// The hand that three cards form: a triple when they share a rank.
pub open spec fn triple_of(c1: Card, c2: Card, c3: Card) -> Result<HandView, HandError> {
    if !(c1.rank == c2.rank && c2.rank == c3.rank) {
        Err(HandError::InvalidHandType)
    } else {
        let t = sort_cards(seq![c1, c2, c3]);
        Ok(HandView::Triple { rank: c1.rank, cards: t, high_card: t[2] })
    }
}

/// The hand that five cards form, checked from the strongest type down.
pub open spec fn five_of(s: Seq<Card>) -> Result<HandView, HandError> {
    let t = sort_cards(s);
    let high = t[4];
    if is_straight_ranks(t) && is_same_suit(t) {
        Ok(HandView::StraightFlush { cards: t, suit: t[0].suit, high_card: high })
    } else if has_rank_count(t, 4) {
        Ok(HandView::FourOfAKind { cards: t, quad_rank: rank_with_count(t, 4), high_card: high })
    } else if has_rank_count(t, 3) && has_rank_count(t, 2) {
        Ok(HandView::FullHouse { cards: t, triple_rank: rank_with_count(t, 3), high_card: high })
    } else if is_same_suit(t) {
        Ok(HandView::Flush { cards: t, suit: t[0].suit, high_card: high })
    } else if is_straight_ranks(t) {
        Ok(HandView::Straight { cards: t, high_card: high })
    } else {
        Err(HandError::InvalidHandType)
    }
}

/// The hand that a sequence of cards forms: a pass (no cards), a single, a pair, a triple
/// or a five-card combination. Four cards, or more than five, form no hand.
pub open spec fn hand_of(s: Seq<Card>) -> Result<HandView, HandError> {
    if s.len() == 0 {
        Ok(HandView::Pass)
    } else if s.len() == 1 {
        Ok(HandView::Single { card: s[0] })
    } else if s.len() == 2 {
        pair_of(s[0], s[1])
    } else if s.len() == 3 {
        triple_of(s[0], s[1], s[2])
    } else if s.len() == 5 {
        five_of(s)
    } else {
        Err(HandError::InvalidHandSize)
    }
}

/// The cards that make up a hand.
pub open spec fn hand_cards(h: HandView) -> Seq<Card> {
    match h {
        HandView::Pass => seq![],
        HandView::Single { card } => seq![card],
        HandView::Pair { cards, .. } => cards,
        HandView::Triple { cards, .. } => cards,
        HandView::Straight { cards, .. } => cards,
        HandView::Flush { cards, .. } => cards,
        HandView::FullHouse { cards, .. } => cards,
        HandView::FourOfAKind { cards, .. } => cards,
        HandView::StraightFlush { cards, .. } => cards,
    }
}

/// The display name of a hand's type.
pub open spec fn hand_name(h: HandView) -> Seq<char> {
    match h {
        HandView::Pass => "Pass"@,
        HandView::Single { .. } => "Single"@,
        HandView::Pair { .. } => "Pair"@,
        HandView::Triple { .. } => "Triple"@,
        HandView::Straight { .. } => "Straight"@,
        HandView::Flush { .. } => "Flush"@,
        HandView::FullHouse { .. } => "Full House"@,
        HandView::FourOfAKind { .. } => "Four of a Kind"@,
        HandView::StraightFlush { .. } => "Straight Flush"@,
    }
}

// ----------------------------------------------------------------------------
// Which hand beats which
// ----------------------------------------------------------------------------
/// Hands can only be compared within a class: singles, pairs, triples, and five-card hands.
pub open spec fn hand_class(h: HandView) -> int {
    match h {
        HandView::Pass => 0,
        HandView::Single { .. } => 1,
        HandView::Pair { .. } => 2,
        HandView::Triple { .. } => 3,
        _ => 5,
    }
}

/// The type of a five-card hand, from Straight (0) to Straight Flush (4).
pub open spec fn five_type_value(h: HandView) -> int {
    match h {
        HandView::Flush { .. } => 1,
        HandView::FullHouse { .. } => 2,
        HandView::FourOfAKind { .. } => 3,
        HandView::StraightFlush { .. } => 4,
        _ => 0,
    }
}

/// The strength of a hand within its class.
/// Singles compare by card; pairs and triples by rank, then by the suit of the high card;
/// five-card hands by type, then straights by high card, flushes and straight flushes by suit
/// and then high card, full houses by the rank of the triple, four of a kind by the rank of the four.
pub open spec fn hand_strength(h: HandView) -> int {
    match h {
        HandView::Pass => 0,
        HandView::Single { card } => card_key(card),
        HandView::Pair { rank, high_card, .. } => rank_index(rank) * 4 + suit_index(high_card.suit),
        HandView::Triple { rank, high_card, .. } => rank_index(rank) * 4 + suit_index(
            high_card.suit,
        ),
        HandView::Straight { high_card, .. } => card_key(high_card),
        HandView::Flush { suit, high_card, .. } => 10000 + suit_index(suit) * 100 + card_key(
            high_card,
        ),
        HandView::FullHouse { triple_rank, .. } => 20000 + rank_index(triple_rank),
        HandView::FourOfAKind { quad_rank, .. } => 30000 + rank_index(quad_rank),
        HandView::StraightFlush { suit, high_card, .. } => 40000 + suit_index(suit) * 100
            + card_key(high_card),
    }
}

/// `a` may be played over `b`: a pass may always be played; otherwise both hands must be of one
/// class and `a` must be stronger. Nothing but a pass beats a pass.
pub open spec fn beats(a: HandView, b: HandView) -> bool {
    a is Pass || (b !is Pass && hand_class(a) == hand_class(b) && hand_strength(a) > hand_strength(
        b,
    ))
}


// ----------------------------------------------------------------------------
// Helpers on card sequences
// ----------------------------------------------------------------------------
/// The cards in ascending card order.
pub(crate) fn sorted_cards(cards: &[Card]) -> (r: Vec<Card>)
    ensures
        r@ == sort_cards(cards@),
{
    let n = cards.len();
    let mut r: Vec<Card> = Vec::new();
    let mut i: usize = 0;
    while i < n
        invariant
            n == cards@.len(),
            0 <= i <= n,
            sorted_by(r@, card_order()),
            r@.to_multiset() == cards@.take(i as int).to_multiset(),
        decreases n - i,
    {
        let c = cards[i];
        let ck = c.key();
        let mut j: usize = 0;
        while j < r.len() && r[j].key() <= ck
            invariant
                0 <= j <= r@.len(),
                ck == card_key(c),
                sorted_by(r@, card_order()),
                forall|k: int| 0 <= k < j ==> card_le(#[trigger] r@[k], c),
            decreases r@.len() - j,
        {
            j = j + 1;
        }
        let ghost old_r = r@;
        proof {
            assert forall|k: int| j <= k < old_r.len() implies card_key(c) < card_key(
                #[trigger] old_r[k],
            ) by {
                if k > j {
                    assert(card_order()(old_r[j as int], old_r[k]));
                }
            }
        }
        r.insert(j, c);
        proof {
            let u = r@;
            assert(u == old_r.insert(j as int, c));
            assert forall|p: int, q: int| 0 <= p < q < u.len() implies #[trigger] card_order()(
                u[p],
                u[q],
            ) by {
                if q < j {
                    assert(card_order()(old_r[p], old_r[q]));
                } else if q == j {
                } else if p < j {
                    assert(card_le(old_r[p], c));
                } else if p == j {
                } else {
                    assert(card_order()(old_r[p - 1], old_r[q - 1]));
                }
            }
            assert(cards@.take(i + 1) == cards@.take(i as int).push(c));
        }
        i = i + 1;
    }
    proof {
        assert(cards@.take(n as int) == cards@);
        lemma_sort_cards(cards@);
    }
    r
}

/// How many cards there are of each rank, indexed by rank position.
fn count_ranks(cards: &[Card]) -> (counts: Vec<usize>)
    ensures
        counts@.len() == 13,
        forall|i: int| 0 <= i < 13 ==> #[trigger] counts@[i] == rank_count(cards@, i),
{
    broadcast use vstd::seq_lib::group_filter_ensures;

    let n = cards.len();
    let mut counts: Vec<usize> = Vec::new();
    let mut z: usize = 0;
    while z < 13
        invariant
            0 <= z <= 13,
            counts@.len() == z,
            forall|i: int| 0 <= i < z ==> #[trigger] counts@[i] == 0,
        decreases 13 - z,
    {
        counts.push(0);
        z = z + 1;
    }
    let mut k: usize = 0;
    while k < n
        invariant
            n == cards@.len(),
            0 <= k <= n,
            counts@.len() == 13,
            forall|i: int|
                0 <= i < 13 ==> #[trigger] counts@[i] == rank_count(cards@.take(k as int), i),
        decreases n - k,
    {
        let c = cards[k];
        let r = c.rank.value() as usize;
        let ghost before = cards@.take(k as int);
        proof {
            assert(cards@.take(k + 1) == before.push(c));
            assert forall|i: int| 0 <= i < 13 implies rank_count(cards@.take(k + 1), i) == (if i
                == r {
                rank_count(before, i) + 1
            } else {
                rank_count(before, i)
            }) by {
                before.lemma_filter_push(c, |x: Card| rank_index(x.rank) == i);
            }
            assert(rank_count(before, r as int) <= before.len());
        }
        let current = counts[r];
        counts.set(r, current + 1);
        k = k + 1;
    }
    proof {
        assert(cards@.take(n as int) == cards@);
    }
    counts
}

/// The rank at a position of the rank order.
fn rank_from_index(i: usize) -> (r: Rank)
    requires
        i < 13,
    ensures
        r == rank_at(i as int),
{
    let ranks = Rank::all();
    ranks[i]
}

/// The counts follow the pattern of a straight starting at rank position `k`.
fn counts_form_run(cards: &[Card], counts: &Vec<usize>, k: usize) -> (b: bool)
    requires
        counts@.len() == 13,
        forall|i: int| 0 <= i < 13 ==> #[trigger] counts@[i] == rank_count(cards@, i),
    ensures
        b == is_run_from(cards@, k as int),
{
    let mut i: usize = 0;
    while i < 13
        invariant
            0 <= i <= 13,
            counts@.len() == 13,
            forall|x: int| 0 <= x < 13 ==> #[trigger] counts@[x] == rank_count(cards@, x),
            forall|x: int| 0 <= x < i ==> #[trigger] rank_count(cards@, x) == run_count(k as int, x),
        decreases 13 - i,
    {
        let expected: usize = if k <= i && i < k + 5 {
            1
        } else {
            0
        };
        if counts[i] != expected {
            assert(rank_count(cards@, i as int) != run_count(k as int, i as int));
            return false;
        }
        i = i + 1;
    }
    true
}

/// The counts follow the pattern of the straight Ace-to-Five.
fn counts_form_low_ace_run(cards: &[Card], counts: &Vec<usize>) -> (b: bool)
    requires
        counts@.len() == 13,
        forall|i: int| 0 <= i < 13 ==> #[trigger] counts@[i] == rank_count(cards@, i),
    ensures
        b == is_low_ace_run(cards@),
{
    let mut i: usize = 0;
    while i < 13
        invariant
            0 <= i <= 13,
            counts@.len() == 13,
            forall|x: int| 0 <= x < 13 ==> #[trigger] counts@[x] == rank_count(cards@, x),
            forall|x: int| 0 <= x < i ==> #[trigger] rank_count(cards@, x) == low_ace_count(x),
        decreases 13 - i,
    {
        let expected: usize = if i <= 2 || 11 <= i {
            1
        } else {
            0
        };
        if counts[i] != expected {
            assert(rank_count(cards@, i as int) != low_ace_count(i as int));
            return false;
        }
        i = i + 1;
    }
    true
}

/// The first rank position whose count is `n`, if any.
fn find_rank_count(cards: &[Card], counts: &Vec<usize>, n: usize) -> (r: Option<usize>)
    requires
        counts@.len() == 13,
        forall|i: int| 0 <= i < 13 ==> #[trigger] counts@[i] == rank_count(cards@, i),
    ensures
        r is Some <==> has_rank_count(cards@, n as nat),
        r matches Some(i) ==> i < 13 && rank_count(cards@, i as int) == n,
{
    let mut i: usize = 0;
    while i < 13
        invariant
            0 <= i <= 13,
            counts@.len() == 13,
            forall|x: int| 0 <= x < 13 ==> #[trigger] counts@[x] == rank_count(cards@, x),
            forall|x: int| 0 <= x < i ==> #[trigger] rank_count(cards@, x) != n,
        decreases 13 - i,
    {
        if counts[i] == n {
            return Some(i);
        }
        i = i + 1;
    }
    None
}

/// The highest card of a non-empty sequence.
fn max_card(cards: &Vec<Card>) -> (m: Card)
    requires
        cards@.len() > 0,
    ensures
        cards@.contains(m),
        forall|j: int| 0 <= j < cards@.len() ==> card_le(#[trigger] cards@[j], m),
{
    let mut m = cards[0];
    let mut i: usize = 1;
    while i < cards.len()
        invariant
            1 <= i <= cards@.len(),
            cards@.contains(m),
            forall|j: int| 0 <= j < i ==> card_le(#[trigger] cards@[j], m),
        decreases cards@.len() - i,
    {
        if cards[i].key() >= m.key() {
            m = cards[i];
        }
        i = i + 1;
    }
    m
}

/// A highest card of a sorted sequence is its last card.
proof fn lemma_max_of_sorted(t: Seq<Card>, m: Card)
    requires
        sorted_by(t, card_order()),
        t.len() > 0,
        t.contains(m),
        forall|j: int| 0 <= j < t.len() ==> card_le(#[trigger] t[j], m),
    ensures
        m == t[t.len() - 1],
{
    lemma_sorted_last_is_max(t);
    let j = choose|j: int| 0 <= j < t.len() && t[j] == m;
    assert(card_le(t[j], t[t.len() - 1]));
    assert(card_le(t[t.len() - 1], m));
    lemma_card_key_injective(m, t[t.len() - 1]);
}

/// A rank occurring `n` times, with `2n` more than the number of cards, is the only such rank.
proof fn lemma_rank_with_count_unique(s: Seq<Card>, n: nat, i: int)
    requires
        0 <= i < 13,
        rank_count(s, i) == n,
        2 * n > s.len(),
    ensures
        rank_with_count(s, n) == rank_at(i),
{
    let j = choose|j: int| 0 <= j < 13 && #[trigger] rank_count(s, j) == n;
    if j != i {
        lemma_rank_counts_bounded(s, i, j);
    }
}

// ----------------------------------------------------------------------------
// Building hands
// ----------------------------------------------------------------------------
impl SingleHand {
    /// The single of one card.
    pub fn new(card: Card) -> (h: SingleHand)
        ensures
            h.card == card,
    {
        SingleHand { card }
    }
}

impl PairHand {
    /// The pair of two cards of one rank; cards of different ranks are refused.
    pub fn new(card1: Card, card2: Card) -> (r: Result<PairHand, HandError>)
        ensures
            view_result(r) == pair_of(card1, card2),
    {
        if card1.rank != card2.rank {
            return Err(HandError::InvalidHandType);
        }
        let high_card = if card1.suit.value() > card2.suit.value() {
            card1
        } else {
            card2
        };
        let cards = if card1.suit.value() < card2.suit.value() {
            [card1, card2]
        } else {
            [card2, card1]
        };
        let h = PairHand { rank: card1.rank, cards, high_card };
        assert(h.cards@ == (if suit_index(card1.suit) < suit_index(card2.suit) {
            seq![card1, card2]
        } else {
            seq![card2, card1]
        }));
        Ok(h)
    }
}

impl TripleHand {
    /// The triple of three cards of one rank; other cards are refused.
    pub fn new(card1: Card, card2: Card, card3: Card) -> (r: Result<TripleHand, HandError>)
        ensures
            view_result(r) == triple_of(card1, card2, card3),
    {
        if !(card1.rank == card2.rank && card2.rank == card3.rank) {
            return Err(HandError::InvalidHandType);
        }
        let three = vec![card1, card2, card3];
        let sorted = sorted_cards(three.as_slice());
        proof {
            assert(three@ == seq![card1, card2, card3]);
            lemma_sort_cards(three@);
        }
        let cards = [sorted[0], sorted[1], sorted[2]];
        let h = TripleHand { rank: card1.rank, cards, high_card: sorted[2] };
        assert(h.cards@ == sorted@);
        Ok(h)
    }
}

impl StraightHand {
    /// A straight of the given cards; its high card is the highest of them.
    pub fn new(cards: Vec<Card>) -> (h: StraightHand)
        requires
            cards@.len() > 0,
        ensures
            h.cards@ == cards@,
            cards@.contains(h.high_card),
            forall|j: int| 0 <= j < cards@.len() ==> card_le(#[trigger] cards@[j], h.high_card),
    {
        let high_card = max_card(&cards);
        StraightHand { cards, high_card }
    }
}

impl FlushHand {
    /// A flush of the given cards, of the suit of the first; its high card is the highest.
    pub fn new(cards: Vec<Card>) -> (h: FlushHand)
        requires
            cards@.len() > 0,
        ensures
            h.cards@ == cards@,
            h.suit == cards@[0].suit,
            cards@.contains(h.high_card),
            forall|j: int| 0 <= j < cards@.len() ==> card_le(#[trigger] cards@[j], h.high_card),
    {
        let suit = cards[0].suit;
        let high_card = max_card(&cards);
        FlushHand { cards, suit, high_card }
    }
}

impl FullHouseHand {
    /// A full house of the given cards, keyed by a rank that occurs three times among them.
    pub fn new(cards: Vec<Card>) -> (h: FullHouseHand)
        requires
            cards@.len() > 0,
            has_rank_count(cards@, 3),
        ensures
            h.cards@ == cards@,
            rank_count(cards@, rank_index(h.triple_rank)) == 3,
            cards@.contains(h.high_card),
            forall|j: int| 0 <= j < cards@.len() ==> card_le(#[trigger] cards@[j], h.high_card),
    {
        let counts = Self::count_ranks(&cards);
        let i = match find_rank_count(cards.as_slice(), &counts, 3) {
            Some(i) => i,
            None => {
                assert(false);
                0
            },
        };
        let triple_rank = rank_from_index(i);
        proof {
            lemma_symbols_roundtrip(triple_rank, Suit::Diamonds);
        }
        let high_card = max_card(&cards);
        FullHouseHand { cards, triple_rank, high_card }
    }

    fn count_ranks(cards: &Vec<Card>) -> (counts: Vec<usize>)
        ensures
            counts@.len() == 13,
            forall|i: int| 0 <= i < 13 ==> #[trigger] counts@[i] == rank_count(cards@, i),
    {
        count_ranks(cards.as_slice())
    }
}

impl FourOfAKindHand {
    /// Four of a kind of the given cards, keyed by a rank that occurs four times among them.
    pub fn new(cards: Vec<Card>) -> (h: FourOfAKindHand)
        requires
            cards@.len() > 0,
            has_rank_count(cards@, 4),
        ensures
            h.cards@ == cards@,
            rank_count(cards@, rank_index(h.quad_rank)) == 4,
            cards@.contains(h.high_card),
            forall|j: int| 0 <= j < cards@.len() ==> card_le(#[trigger] cards@[j], h.high_card),
    {
        let counts = Self::count_ranks(&cards);
        let i = match find_rank_count(cards.as_slice(), &counts, 4) {
            Some(i) => i,
            None => {
                assert(false);
                0
            },
        };
        let quad_rank = rank_from_index(i);
        proof {
            lemma_symbols_roundtrip(quad_rank, Suit::Diamonds);
        }
        let high_card = max_card(&cards);
        FourOfAKindHand { cards, quad_rank, high_card }
    }

    fn count_ranks(cards: &Vec<Card>) -> (counts: Vec<usize>)
        ensures
            counts@.len() == 13,
            forall|i: int| 0 <= i < 13 ==> #[trigger] counts@[i] == rank_count(cards@, i),
    {
        count_ranks(cards.as_slice())
    }
}

impl StraightFlushHand {
    /// A straight flush of the given cards, of the suit of the first; its high card is the highest.
    pub fn new(cards: Vec<Card>) -> (h: StraightFlushHand)
        requires
            cards@.len() > 0,
        ensures
            h.cards@ == cards@,
            h.suit == cards@[0].suit,
            cards@.contains(h.high_card),
            forall|j: int| 0 <= j < cards@.len() ==> card_le(#[trigger] cards@[j], h.high_card),
    {
        let suit = cards[0].suit;
        let high_card = max_card(&cards);
        StraightFlushHand { cards, suit, high_card }
    }
}


impl FiveCardHand {
    /// The five-card hand that the cards form, whatever their order; other numbers of cards,
    /// and five cards of no five-card type, are refused.
    pub fn new(cards: &[Card]) -> (r: Result<FiveCardHand, HandError>)
        ensures
            view_result(r) == (if cards@.len() == 5 {
                five_of(cards@)
            } else {
                Err(HandError::InvalidHandSize)
            }),
    {
        if cards.len() != 5 {
            return Err(HandError::InvalidHandSize);
        }
        let sorted = sorted_cards(cards);
        proof {
            lemma_sort_cards(cards@);
            lemma_sort_cards(sorted@);
        }
        Self::classify_hand(sorted)
    }

    fn classify_hand(cards: Vec<Card>) -> (r: Result<FiveCardHand, HandError>)
        requires
            cards@.len() == 5,
            sorted_by(cards@, card_order()),
        ensures
            view_result(r) == five_of(cards@),
    {
        let ghost t = cards@;
        proof {
            lemma_sort_cards(t);
            assert(sort_cards(t) == t);
        }
        let is_flush = Self::is_flush(&cards);
        let is_straight = Self::is_straight(cards.as_slice());
        if is_straight && is_flush {
            let h = StraightFlushHand::new(cards);
            proof {
                lemma_max_of_sorted(t, h.high_card);
            }
            return Ok(FiveCardHand::StraightFlush(h));
        }
        let counts = Self::count_ranks(cards.as_slice());
        if find_rank_count(cards.as_slice(), &counts, 4).is_some() {
            let h = FourOfAKindHand::new(cards);
            proof {
                lemma_max_of_sorted(t, h.high_card);
                lemma_symbols_roundtrip(h.quad_rank, Suit::Diamonds);
                lemma_rank_with_count_unique(t, 4, rank_index(h.quad_rank));
            }
            return Ok(FiveCardHand::FourOfAKind(h));
        }
        if find_rank_count(cards.as_slice(), &counts, 3).is_some() && find_rank_count(
            cards.as_slice(),
            &counts,
            2,
        ).is_some() {
            let h = FullHouseHand::new(cards);
            proof {
                lemma_max_of_sorted(t, h.high_card);
                lemma_symbols_roundtrip(h.triple_rank, Suit::Diamonds);
                lemma_rank_with_count_unique(t, 3, rank_index(h.triple_rank));
            }
            return Ok(FiveCardHand::FullHouse(h));
        }
        if is_flush {
            let h = FlushHand::new(cards);
            proof {
                lemma_max_of_sorted(t, h.high_card);
            }
            return Ok(FiveCardHand::Flush(h));
        }
        if is_straight {
            let h = StraightHand::new(cards);
            proof {
                lemma_max_of_sorted(t, h.high_card);
            }
            return Ok(FiveCardHand::Straight(h));
        }
        Err(HandError::InvalidHandType)
    }

    fn is_flush(cards: &Vec<Card>) -> (b: bool)
        requires
            cards@.len() > 0,
        ensures
            b == is_same_suit(cards@),
    {
        let suit = cards[0].suit;
        let mut i: usize = 0;
        while i < cards.len()
            invariant
                0 <= i <= cards@.len(),
                suit == cards@[0].suit,
                forall|j: int| 0 <= j < i ==> (#[trigger] cards@[j]).suit == suit,
            decreases cards@.len() - i,
        {
            if cards[i].suit != suit {
                return false;
            }
            i = i + 1;
        }
        true
    }

    fn is_straight(cards: &[Card]) -> (b: bool)
        ensures
            b == is_straight_ranks(cards@),
    {
        let counts = Self::count_ranks(cards);
        if counts_form_low_ace_run(cards, &counts) {
            return true;
        }
        let mut k: usize = 0;
        while k <= 7
            invariant
                0 <= k <= 8,
                counts@.len() == 13,
                forall|i: int| 0 <= i < 13 ==> #[trigger] counts@[i] == rank_count(cards@, i),
                !is_low_ace_run(cards@),
                forall|k2: int| 0 <= k2 < k ==> !#[trigger] is_run_from(cards@, k2),
            decreases 8 - k,
        {
            if counts_form_run(cards, &counts, k) {
                return true;
            }
            k = k + 1;
        }
        false
    }

    fn count_ranks(cards: &[Card]) -> (counts: Vec<usize>)
        ensures
            counts@.len() == 13,
            forall|i: int| 0 <= i < 13 ==> #[trigger] counts@[i] == rank_count(cards@, i),
    {
        count_ranks(cards)
    }

    /// The type of this hand: 0 for a straight, then flush, full house, four of a kind,
    /// and 4 for a straight flush.
    pub fn hand_type_value(&self) -> (v: u8)
        ensures
            v == five_type_value(self@),
    {
        match self {
            FiveCardHand::Straight(_) => 0,
            FiveCardHand::Flush(_) => 1,
            FiveCardHand::FullHouse(_) => 2,
            FiveCardHand::FourOfAKind(_) => 3,
            FiveCardHand::StraightFlush(_) => 4,
        }
    }

    /// The strength of this hand among five-card hands.
    pub fn strength(&self) -> (v: u32)
        ensures
            v == hand_strength(self@),
    {
        match self {
            FiveCardHand::Straight(h) => h.high_card.key() as u32,
            FiveCardHand::Flush(h) => 10000 + (h.suit.value() as u32) * 100
                + h.high_card.key() as u32,
            FiveCardHand::FullHouse(h) => 20000 + h.triple_rank.value() as u32,
            FiveCardHand::FourOfAKind(h) => 30000 + h.quad_rank.value() as u32,
            FiveCardHand::StraightFlush(h) => 40000 + (h.suit.value() as u32) * 100
                + h.high_card.key() as u32,
        }
    }
}

impl Hand {
    /// The hand that the cards form: no cards are a pass, one a single, two a pair,
    /// three a triple and five a five-card hand. Other cards are refused.
    pub fn from_cards(cards: &[Card]) -> (r: Result<Hand, HandError>)
        ensures
            view_result(r) == hand_of(cards@),
    {
        let n = cards.len();
        if n == 0 {
            Ok(Hand::Pass)
        } else if n == 1 {
            Ok(Hand::Single(SingleHand::new(cards[0])))
        } else if n == 2 {
            match PairHand::new(cards[0], cards[1]) {
                Ok(h) => Ok(Hand::Pair(h)),
                Err(e) => Err(e),
            }
        } else if n == 3 {
            match TripleHand::new(cards[0], cards[1], cards[2]) {
                Ok(h) => Ok(Hand::Triple(h)),
                Err(e) => Err(e),
            }
        } else if n == 5 {
            match FiveCardHand::new(cards) {
                Ok(h) => Ok(Hand::Five(h)),
                Err(e) => Err(e),
            }
        } else {
            Err(HandError::InvalidHandSize)
        }
    }

    /// Whether this hand may be played over `other` (see `beats`).
    pub fn can_beat(&self, other: &Hand) -> (b: bool)
        ensures
            b == beats(self@, other@),
    {
        match (self, other) {
            (Hand::Pass, _) => true,
            (_, Hand::Pass) => false,
            (Hand::Single(a), Hand::Single(b)) => a.card.key() > b.card.key(),
            (Hand::Pair(a), Hand::Pair(b)) => a.rank.value() * 4 + a.high_card.suit.value()
                > b.rank.value() * 4 + b.high_card.suit.value(),
            (Hand::Triple(a), Hand::Triple(b)) => a.rank.value() * 4 + a.high_card.suit.value()
                > b.rank.value() * 4 + b.high_card.suit.value(),
            (Hand::Five(a), Hand::Five(b)) => a.strength() > b.strength(),
            _ => false,
        }
    }

    /// The display name of this hand's type ("Pass", "Single", ..., "Straight Flush").
    pub fn hand_type_name(&self) -> (name: &'static str)
        ensures
            name@ == hand_name(self@),
    {
        match self {
            Hand::Pass => "Pass",
            Hand::Single(_) => "Single",
            Hand::Pair(_) => "Pair",
            Hand::Triple(_) => "Triple",
            Hand::Five(five) => match five {
                FiveCardHand::Straight(_) => "Straight",
                FiveCardHand::Flush(_) => "Flush",
                FiveCardHand::FullHouse(_) => "Full House",
                FiveCardHand::FourOfAKind(_) => "Four of a Kind",
                FiveCardHand::StraightFlush(_) => "Straight Flush",
            },
        }
    }

    /// The cards that make up this hand (none for a pass).
    pub fn to_cards(&self) -> (cards: Vec<Card>)
        ensures
            cards@ == hand_cards(self@),
    {
        match self {
            Hand::Pass => Vec::new(),
            Hand::Single(single) => vec![single.card],
            Hand::Pair(pair) => vec![pair.cards[0], pair.cards[1]],
            Hand::Triple(triple) => vec![triple.cards[0], triple.cards[1], triple.cards[2]],
            Hand::Five(five) => match five {
                FiveCardHand::Straight(h) => copy_cards(&h.cards),
                FiveCardHand::Flush(h) => copy_cards(&h.cards),
                FiveCardHand::FullHouse(h) => copy_cards(&h.cards),
                FiveCardHand::FourOfAKind(h) => copy_cards(&h.cards),
                FiveCardHand::StraightFlush(h) => copy_cards(&h.cards),
            },
        }
    }
}

/// A copy of a sequence of cards.
pub fn copy_cards(cards: &[Card]) -> (r: Vec<Card>)
    ensures
        r@ == cards@,
{
    let mut r: Vec<Card> = Vec::new();
    let mut i: usize = 0;
    while i < cards.len()
        invariant
            0 <= i <= cards@.len(),
            r@ == cards@.take(i as int),
        decreases cards@.len() - i,
    {
        r.push(cards[i]);
        i = i + 1;
    }
    r
}

/// Whether the cards played can be played over the cards on the table (no cards: a pass).
/// Either set of cards that forms no hand is refused with the reason.
pub fn compare_played_cards(played_cards: &[Card], current_cards: &[Card]) -> (r: Result<
    bool,
    HandError,
>)
    ensures
        r == match (hand_of(played_cards@), hand_of(current_cards@)) {
            (Err(e), _) => Err::<bool, HandError>(e),
            (Ok(_), Err(e)) => Err(e),
            (Ok(p), Ok(c)) => Ok(beats(p, c)),
        },
{
    let played_hand = if played_cards.len() == 0 {
        Hand::Pass
    } else {
        match Hand::from_cards(played_cards) {
            Ok(h) => h,
            Err(e) => {
                return Err(e);
            },
        }
    };
    let current_hand = if current_cards.len() == 0 {
        Hand::Pass
    } else {
        match Hand::from_cards(current_cards) {
            Ok(h) => h,
            Err(e) => {
                return Err(e);
            },
        }
    };
    Ok(played_hand.can_beat(&current_hand))
}


// ----------------------------------------------------------------------------
// Laws of hands
// ----------------------------------------------------------------------------
/// A pass may be played over anything, and only a pass may be played over a pass.
pub proof fn lemma_pass_beats(h: HandView)
    ensures
        beats(HandView::Pass, h),
        beats(h, HandView::Pass) <==> h is Pass,
{
}

/// No hand but a pass beats itself.
pub proof fn lemma_beats_irreflexive(h: HandView)
    requires
        h !is Pass,
    ensures
        !beats(h, h),
{
}

/// Two hands never beat each other, unless both are passes.
pub proof fn lemma_beats_asymmetric(a: HandView, b: HandView)
    requires
        beats(a, b),
        beats(b, a),
    ensures
        a is Pass && b is Pass,
{
}

/// Beating is transitive.
pub proof fn lemma_beats_transitive(a: HandView, b: HandView, c: HandView)
    requires
        beats(a, b),
        beats(b, c),
    ensures
        beats(a, c),
{
}

/// Of two hands of one class with different strengths, one beats the other.
pub proof fn lemma_beats_total_within_class(a: HandView, b: HandView)
    requires
        a !is Pass,
        b !is Pass,
        hand_class(a) == hand_class(b),
        hand_strength(a) != hand_strength(b),
    ensures
        beats(a, b) || beats(b, a),
{
}

/// Hands of different classes never beat each other: a single never beats a pair, and so on.
pub proof fn lemma_no_beating_across_classes(a: HandView, b: HandView)
    requires
        a !is Pass,
        b !is Pass,
        hand_class(a) != hand_class(b),
    ensures
        !beats(a, b),
{
}

/// Among five-card hands a stronger type always wins: a flush beats any straight,
/// a full house any flush, four of a kind any full house, a straight flush any of them.
pub proof fn lemma_five_card_type_order(a: HandView, b: HandView, sa: Seq<Card>, sb: Seq<Card>)
    requires
        sa.len() == 5,
        sb.len() == 5,
        hand_of(sa) == Ok::<HandView, HandError>(a),
        hand_of(sb) == Ok::<HandView, HandError>(b),
        five_type_value(a) > five_type_value(b),
    ensures
        beats(a, b),
{
    lemma_sort_cards(sa);
    lemma_sort_cards(sb);
    let ta = sort_cards(sa);
    let tb = sort_cards(sb);
    lemma_card_key_injective(ta[4], ta[4]);
    lemma_card_key_injective(tb[4], tb[4]);
    lemma_symbols_roundtrip(ta[0].rank, ta[0].suit);
    lemma_symbols_roundtrip(tb[0].rank, tb[0].suit);
    lemma_symbols_roundtrip(rank_with_count(ta, 4), Suit::Diamonds);
    lemma_symbols_roundtrip(rank_with_count(ta, 3), Suit::Diamonds);
    lemma_symbols_roundtrip(rank_with_count(tb, 4), Suit::Diamonds);
    lemma_symbols_roundtrip(rank_with_count(tb, 3), Suit::Diamonds);
}

/// The cards of a hand (`Hand::to_cards`) are exactly the cards it was formed from
/// (`Hand::from_cards`), in ascending card order: a pair or a triple by suit, a five-card hand
/// from its lowest card up, a pass none.
pub proof fn lemma_hand_keeps_cards(s: Seq<Card>, h: HandView)
    requires
        hand_of(s) == Ok::<HandView, HandError>(h),
    ensures
        hand_cards(h).to_multiset() == s.to_multiset(),
        sorted_by(hand_cards(h), card_order()),
{
    broadcast use vstd::multiset::group_multiset_axioms;

    if s.len() == 1 {
        assert(s == seq![s[0]]);
    } else if s.len() == 2 {
        assert(s == seq![s[0], s[1]]);
        assert(seq![s[0], s[1]] == seq![s[0]].push(s[1]));
        assert(seq![s[1], s[0]] == seq![s[1]].push(s[0]));
        assert(seq![s[0]] == Seq::<Card>::empty().push(s[0]));
        assert(seq![s[1]] == Seq::<Card>::empty().push(s[1]));
        assert(seq![s[0], s[1]].to_multiset() =~= seq![s[1], s[0]].to_multiset());
    } else if s.len() == 3 {
        assert(s == seq![s[0], s[1], s[2]]);
        lemma_sort_cards(s);
    } else if s.len() == 5 {
        lemma_sort_cards(s);
    }
}

/// Forming a hand (`Hand::from_cards`) from the cards of a hand (`Hand::to_cards`) gives the
/// same hand back.
pub proof fn lemma_hand_roundtrip(s: Seq<Card>, h: HandView)
    requires
        hand_of(s) == Ok::<HandView, HandError>(h),
    ensures
        hand_of(hand_cards(h)) == Ok::<HandView, HandError>(h),
{
    if s.len() == 1 {
    } else if s.len() == 2 {
        lemma_card_key_injective(s[0], s[1]);
        if suit_index(s[0].suit) < suit_index(s[1].suit) {
        } else if suit_index(s[0].suit) > suit_index(s[1].suit) {
        } else {
            assert(s[0] == s[1]);
        }
    } else if s.len() == 3 {
        let three = seq![s[0], s[1], s[2]];
        lemma_sort_cards(three);
        let t = sort_cards(three);
        lemma_sort_cards(t);
        assert(t == sort_cards(t));
        assert(seq![t[0], t[1], t[2]] == t);
        assert forall|k: int| 0 <= k < 3 implies (#[trigger] t[k]).rank == s[0].rank by {
            assert(t.to_multiset().contains(t[k]));
            assert(three.contains(t[k]));
        }
    } else if s.len() == 5 {
        lemma_sort_cards(s);
        let t = sort_cards(s);
        lemma_sort_cards(t);
        assert(t == sort_cards(t));
    }
}

/// A full house is three cards of one rank and two of another: when five cards form a full
/// house, some rank occurs among them exactly three times, a different rank exactly twice, and
/// the hand's triple rank is the first of them.
pub proof fn lemma_full_house_needs_triple_and_pair(s: Seq<Card>, h: HandView)
    requires
        hand_of(s) == Ok::<HandView, HandError>(h),
        h is FullHouse,
    ensures
        exists|i: int, j: int|
            0 <= i < 13 && 0 <= j < 13 && i != j && #[trigger] rank_count(s, i) == 3
                && #[trigger] rank_count(s, j) == 2 && h->triple_rank == rank_at(i),
{
    let t = sort_cards(s);
    lemma_sort_cards(s);
    assert(has_rank_count(t, 3) && has_rank_count(t, 2));
    let i = choose|i: int| 0 <= i < 13 && #[trigger] rank_count(t, i) == 3;
    let j = choose|j: int| 0 <= j < 13 && #[trigger] rank_count(t, j) == 2;
    lemma_rank_count_permutation(s, t, i);
    lemma_rank_count_permutation(s, t, j);
    assert(rank_count(s, i) == 3 && rank_count(s, j) == 2);
}

/// Three cards of one rank with two unmatched cards form no five-card hand: five cards of
/// which some rank occurs exactly three times and no rank exactly twice, and which are not all
/// of one suit, are refused as an invalid hand type.
pub proof fn lemma_triple_with_kickers_refused(s: Seq<Card>, i: int)
    requires
        s.len() == 5,
        0 <= i < 13,
        rank_count(s, i) == 3,
        forall|j: int| 0 <= j < 13 ==> #[trigger] rank_count(s, j) != 2,
        exists|k: int| 0 <= k < 5 && #[trigger] s[k].suit != s[0].suit,
    ensures
        hand_of(s) == Err::<HandView, HandError>(HandError::InvalidHandType),
{
    broadcast use vstd::multiset::group_multiset_axioms;

    let t = sort_cards(s);
    lemma_sort_cards(s);
    assert(t.len() == 5) by {
        vstd::seq_lib::to_multiset_len(s);
        vstd::seq_lib::to_multiset_len(t);
    }
    lemma_rank_count_permutation(s, t, i);
    assert forall|j: int| 0 <= j < 13 implies #[trigger] rank_count(t, j) != 4 && rank_count(t, j)
        != 2 by {
        lemma_rank_count_permutation(s, t, j);
        if j != i {
            lemma_rank_counts_bounded(s, i, j);
        }
    }
    assert(!has_rank_count(t, 4));
    assert(!has_rank_count(t, 2));
    assert(!is_same_suit(t)) by {
        if is_same_suit(t) {
            let k = choose|k: int| 0 <= k < 5 && #[trigger] s[k].suit != s[0].suit;
            assert(s.to_multiset().count(s[k]) > 0);
            assert(s.to_multiset().count(s[0]) > 0);
            assert(t.contains(s[k]));
            assert(t.contains(s[0]));
            let a = choose|a: int| 0 <= a < t.len() && t[a] == s[k];
            let b = choose|b: int| 0 <= b < t.len() && t[b] == s[0];
            assert(t[a].suit == t[0].suit && t[b].suit == t[0].suit);
        }
    }
    assert(!is_straight_ranks(t)) by {
        assert forall|k: int| 0 <= k <= 7 implies !#[trigger] is_run_from(t, k) by {
            assert(rank_count(t, i) == 3);
        }
        assert(rank_count(t, i) == 3);
        assert(!is_low_ace_run(t));
    }
}

/// What each kind of hand is made of: a pair is two cards of one rank, a triple three; a hand
/// of four cards, or of more than five, is refused for its size; two or three cards that do not
/// share a rank are refused as an invalid hand type.
pub proof fn lemma_small_hand_kinds(s: Seq<Card>)
    ensures
        hand_of(s) is Ok ==> s.len() == 0 || s.len() == 1 || s.len() == 2 || s.len() == 3
            || s.len() == 5,
        s.len() == 4 || s.len() > 5 ==> hand_of(s) == Err::<HandView, HandError>(
            HandError::InvalidHandSize,
        ),
        hand_of(s) matches Ok(HandView::Pair { rank, .. }) ==> s.len() == 2 && s[0].rank == rank
            && s[1].rank == rank,
        hand_of(s) matches Ok(HandView::Triple { rank, .. }) ==> s.len() == 3 && s[0].rank == rank
            && s[1].rank == rank && s[2].rank == rank,
        s.len() == 2 && s[0].rank != s[1].rank ==> hand_of(s) == Err::<HandView, HandError>(
            HandError::InvalidHandType,
        ),
        s.len() == 3 && !(s[0].rank == s[1].rank && s[1].rank == s[2].rank) ==> hand_of(s) == Err::<
            HandView,
            HandError,
        >(HandError::InvalidHandType),
{
}

/// What the five-card kinds are made of: four of a kind holds four cards of its rank; a flush
/// and a straight flush hold cards of their suit only; a straight holds five different ranks
/// and not all of one suit.
pub proof fn lemma_five_card_kinds(s: Seq<Card>, h: HandView)
    requires
        hand_of(s) == Ok::<HandView, HandError>(h),
        s.len() == 5,
    ensures
        h is FourOfAKind ==> exists|i: int|
            0 <= i < 13 && #[trigger] rank_count(s, i) == 4 && h->quad_rank == rank_at(i),
        h is Flush ==> forall|j: int| 0 <= j < 5 ==> (#[trigger] s[j]).suit == h->Flush_suit,
        h is StraightFlush ==> forall|j: int|
            0 <= j < 5 ==> (#[trigger] s[j]).suit == h->StraightFlush_suit,
        h is Straight ==> (exists|j: int| 0 <= j < 5 && #[trigger] s[j].suit != s[0].suit)
            && forall|i: int| 0 <= i < 13 ==> #[trigger] rank_count(s, i) <= 1,
{
    broadcast use vstd::multiset::group_multiset_axioms;

    let t = sort_cards(s);
    lemma_sort_cards(s);
    assert(t.len() == 5) by {
        vstd::seq_lib::to_multiset_len(s);
        vstd::seq_lib::to_multiset_len(t);
    }
    assert forall|i: int| 0 <= i < 13 implies #[trigger] rank_count(s, i) == rank_count(t, i) by {
        lemma_rank_count_permutation(s, t, i);
    }
    if h is FourOfAKind {
        let i = choose|i: int| 0 <= i < 13 && #[trigger] rank_count(t, i) == 4;
        assert(rank_count(s, i) == 4);
    }
    if h is Flush || h is StraightFlush {
        assert(is_same_suit(t));
        assert forall|j: int| 0 <= j < 5 implies (#[trigger] s[j]).suit == t[0].suit by {
            assert(s.to_multiset().count(s[j]) > 0);
            assert(t.contains(s[j]));
            let a = choose|a: int| 0 <= a < t.len() && t[a] == s[j];
            assert(t[a].suit == t[0].suit);
        }
    }
    if h is Straight {
        assert(!is_same_suit(t));
        let a = choose|a: int| 0 <= a < t.len() && !((#[trigger] t[a]).suit == t[0].suit);
        assert(t.to_multiset().count(t[a]) > 0);
        assert(t.to_multiset().count(t[0]) > 0);
        assert(s.contains(t[a]));
        assert(s.contains(t[0]));
        let x = choose|x: int| 0 <= x < s.len() && s[x] == t[a];
        let y = choose|y: int| 0 <= y < s.len() && s[y] == t[0];
        assert(s[x].suit != s[0].suit || s[y].suit != s[0].suit);
        assert(is_straight_ranks(t));
        if exists|k: int| 0 <= k <= 7 && #[trigger] is_run_from(t, k) {
            let k = choose|k: int| 0 <= k <= 7 && #[trigger] is_run_from(t, k);
            assert forall|i: int| 0 <= i < 13 implies #[trigger] rank_count(s, i) <= 1 by {
                assert(rank_count(t, i) == run_count(k, i));
            }
        } else {
            assert forall|i: int| 0 <= i < 13 implies #[trigger] rank_count(s, i) <= 1 by {
                assert(rank_count(t, i) == low_ace_count(i));
            }
        }
    }
}

/// Five cards with three of one rank and two of another form a full house of the first rank,
/// and five cards with four of one rank form four of a kind of that rank.
pub proof fn lemma_full_house_and_four_formed(s: Seq<Card>, i: int, j: int)
    requires
        s.len() == 5,
        0 <= i < 13,
        0 <= j < 13,
        i != j,
    ensures
        rank_count(s, i) == 3 && rank_count(s, j) == 2 ==> (hand_of(s) matches Ok(
            HandView::FullHouse { triple_rank, .. },
        ) && triple_rank == rank_at(i)),
        rank_count(s, i) == 4 ==> (hand_of(s) matches Ok(HandView::FourOfAKind { quad_rank, .. })
            && quad_rank == rank_at(i)),
{
    let t = sort_cards(s);
    lemma_sort_cards(s);
    assert(t.len() == 5) by {
        vstd::seq_lib::to_multiset_len(s);
        vstd::seq_lib::to_multiset_len(t);
    }
    assert forall|k: int| 0 <= k < 13 implies #[trigger] rank_count(s, k) == rank_count(t, k) by {
        lemma_rank_count_permutation(s, t, k);
    }
    if rank_count(s, i) == 3 || rank_count(s, i) == 4 {
        assert(!is_straight_ranks(t)) by {
            assert forall|k: int| 0 <= k <= 7 implies !#[trigger] is_run_from(t, k) by {
                assert(rank_count(t, i) >= 3);
            }
            assert(rank_count(t, i) >= 3);
            assert(!is_low_ace_run(t));
        }
        assert forall|k: int| 0 <= k < 13 && k != i implies #[trigger] rank_count(t, k) <= 2 by {
            lemma_rank_counts_bounded(s, i, k);
        }
    }
    if rank_count(s, i) == 3 && rank_count(s, j) == 2 {
        assert(rank_count(t, i) == 3 && rank_count(t, j) == 2);
        assert(!has_rank_count(t, 4));
        let c = choose|c: int| 0 <= c < 13 && #[trigger] rank_count(t, c) == 3;
        if c != i {
            lemma_rank_counts_bounded(s, i, c);
        }
    }
    if rank_count(s, i) == 4 {
        assert(rank_count(t, i) == 4);
        let c = choose|c: int| 0 <= c < 13 && #[trigger] rank_count(t, c) == 4;
        if c != i {
            lemma_rank_counts_bounded(s, i, c);
        }
    }
}

/// `a` is a higher card than `b`: a higher rank, or the same rank and a higher suit.
pub open spec fn card_above(a: Card, b: Card) -> bool {
    rank_index(a.rank) > rank_index(b.rank) || (a.rank == b.rank && suit_index(a.suit) > suit_index(
        b.suit,
    ))
}

/// Flushes compare by suit first and then by their highest card: a flush beats another flush
/// exactly when its suit is higher, or the suits are the same and its highest card is higher.
pub proof fn lemma_flush_order(
    ca: Seq<Card>,
    sa: Suit,
    ha: Card,
    cb: Seq<Card>,
    sb: Suit,
    hb: Card,
)
    ensures
        beats(
            HandView::Flush { cards: ca, suit: sa, high_card: ha },
            HandView::Flush { cards: cb, suit: sb, high_card: hb },
        ) <==> (suit_index(sa) > suit_index(sb) || (sa == sb && card_above(ha, hb))),
{
    lemma_symbols_roundtrip(ha.rank, ha.suit);
    lemma_symbols_roundtrip(hb.rank, hb.suit);
    lemma_symbols_roundtrip(ha.rank, sa);
    lemma_symbols_roundtrip(hb.rank, sb);
}

/// Straight flushes compare like flushes: by suit first, then by their highest card.
pub proof fn lemma_straight_flush_order(
    ca: Seq<Card>,
    sa: Suit,
    ha: Card,
    cb: Seq<Card>,
    sb: Suit,
    hb: Card,
)
    ensures
        beats(
            HandView::StraightFlush { cards: ca, suit: sa, high_card: ha },
            HandView::StraightFlush { cards: cb, suit: sb, high_card: hb },
        ) <==> (suit_index(sa) > suit_index(sb) || (sa == sb && card_above(ha, hb))),
{
    lemma_symbols_roundtrip(ha.rank, ha.suit);
    lemma_symbols_roundtrip(hb.rank, hb.suit);
    lemma_symbols_roundtrip(ha.rank, sa);
    lemma_symbols_roundtrip(hb.rank, sb);
}

/// Straights compare by their highest card: one beats another exactly when its highest card is
/// higher.
pub proof fn lemma_straight_order(ca: Seq<Card>, ha: Card, cb: Seq<Card>, hb: Card)
    ensures
        beats(HandView::Straight { cards: ca, high_card: ha }, HandView::Straight { cards: cb, high_card: hb })
            <==> card_above(ha, hb),
{
    lemma_symbols_roundtrip(ha.rank, ha.suit);
    lemma_symbols_roundtrip(hb.rank, hb.suit);
}

/// Full houses compare by the rank of their triple, four of a kind by the rank of their four:
/// one beats another exactly when that rank is higher.
pub proof fn lemma_full_house_and_four_order(
    ca: Seq<Card>,
    ra: Rank,
    ha: Card,
    cb: Seq<Card>,
    rb: Rank,
    hb: Card,
)
    ensures
        beats(
            HandView::FullHouse { cards: ca, triple_rank: ra, high_card: ha },
            HandView::FullHouse { cards: cb, triple_rank: rb, high_card: hb },
        ) <==> rank_index(ra) > rank_index(rb),
        beats(
            HandView::FourOfAKind { cards: ca, quad_rank: ra, high_card: ha },
            HandView::FourOfAKind { cards: cb, quad_rank: rb, high_card: hb },
        ) <==> rank_index(ra) > rank_index(rb),
{
}

/// Pairs and triples compare by rank first, then by the suit of their highest card.
pub proof fn lemma_pair_and_triple_order(
    ca: Seq<Card>,
    ra: Rank,
    ha: Card,
    cb: Seq<Card>,
    rb: Rank,
    hb: Card,
)
    ensures
        beats(
            HandView::Pair { rank: ra, cards: ca, high_card: ha },
            HandView::Pair { rank: rb, cards: cb, high_card: hb },
        ) <==> (rank_index(ra) > rank_index(rb) || (ra == rb && suit_index(ha.suit) > suit_index(
            hb.suit,
        ))),
        beats(
            HandView::Triple { rank: ra, cards: ca, high_card: ha },
            HandView::Triple { rank: rb, cards: cb, high_card: hb },
        ) <==> (rank_index(ra) > rank_index(rb) || (ra == rb && suit_index(ha.suit) > suit_index(
            hb.suit,
        ))),
{
    lemma_symbols_roundtrip(ra, ha.suit);
    lemma_symbols_roundtrip(rb, hb.suit);
}

/// Singles compare by card: one beats another exactly when its card is higher.
pub proof fn lemma_single_order(a: Card, b: Card)
    ensures
        beats(HandView::Single { card: a }, HandView::Single { card: b }) <==> card_above(a, b),
{
    lemma_symbols_roundtrip(a.rank, a.suit);
    lemma_symbols_roundtrip(b.rank, b.suit);
}

impl Hand {
    /// A copy of this hand.
    pub fn duplicate(&self) -> (r: Hand)
        ensures
            r@ == self@,
    {
        match self {
            Hand::Pass => Hand::Pass,
            Hand::Single(h) => Hand::Single(SingleHand { card: h.card }),
            Hand::Pair(h) => Hand::Pair(PairHand { rank: h.rank, cards: h.cards, high_card: h.high_card }),
            Hand::Triple(h) => Hand::Triple(
                TripleHand { rank: h.rank, cards: h.cards, high_card: h.high_card },
            ),
            Hand::Five(f) => Hand::Five(
                match f {
                    FiveCardHand::Straight(h) => FiveCardHand::Straight(
                        StraightHand { cards: copy_cards(h.cards.as_slice()), high_card: h.high_card },
                    ),
                    FiveCardHand::Flush(h) => FiveCardHand::Flush(
                        FlushHand {
                            cards: copy_cards(h.cards.as_slice()),
                            suit: h.suit,
                            high_card: h.high_card,
                        },
                    ),
                    FiveCardHand::FullHouse(h) => FiveCardHand::FullHouse(
                        FullHouseHand {
                            cards: copy_cards(h.cards.as_slice()),
                            triple_rank: h.triple_rank,
                            high_card: h.high_card,
                        },
                    ),
                    FiveCardHand::FourOfAKind(h) => FiveCardHand::FourOfAKind(
                        FourOfAKindHand {
                            cards: copy_cards(h.cards.as_slice()),
                            quad_rank: h.quad_rank,
                            high_card: h.high_card,
                        },
                    ),
                    FiveCardHand::StraightFlush(h) => FiveCardHand::StraightFlush(
                        StraightFlushHand {
                            cards: copy_cards(h.cards.as_slice()),
                            suit: h.suit,
                            high_card: h.high_card,
                        },
                    ),
                },
            ),
        }
    }
}

} // verus!
