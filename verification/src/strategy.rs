use vstd::prelude::*;
use vstd::multiset::Multiset;

use rand::rngs::StdRng;
use rand::Rng;

use crate::bot::BotStrategy;
use crate::cards::{card_key, Card, Rank, Suit};
use crate::game::{last_non_pass, play_result, three_of_diamonds, Game, GameView, PlayerView};
use crate::hands::{beats, copy_cards, hand_of, sort_cards, sorted_cards, Hand};

verus! {

// ----------------------------------------------------------------------------
// Which moves a bot may make
// ----------------------------------------------------------------------------
/// The cards `cards` may be played now: they form a hand; the first move of the game must
/// hold the three of diamonds; unless it is the first move or three passes cleared the table,
/// the hand must beat the last cards played.
pub open spec fn valid_move(g: GameView, cards: Seq<Card>) -> bool {
    match hand_of(cards) {
        Err(_) => false,
        Ok(hand) => {
            let first_turn = g.played_hands.len() == 0;
            if first_turn && !cards.contains(three_of_diamonds()) {
                false
            } else if g.consecutive_passes >= 3 || first_turn {
                true
            } else {
                match last_non_pass(g.played_hands) {
                    Some(last) => beats(hand, last),
                    None => true,
                }
            }
        },
    }
}

/// Unless three passes in a row cleared the table, cards the bot may play beat the most recent
/// hand of the history that is not a pass, however many passes came after it.
pub proof fn lemma_valid_move_beats_latest_hand(g: GameView, cards: Seq<Card>, i: int)
    requires
        valid_move(g, cards),
        g.consecutive_passes < 3,
        0 <= i < g.played_hands.len(),
        g.played_hands[i] !is Pass,
        forall|j: int| i < j < g.played_hands.len() ==> #[trigger] g.played_hands[j] is Pass,
    ensures
        hand_of(cards) is Ok,
        beats(hand_of(cards)->Ok_0, g.played_hands[i]),
{
    crate::game::lemma_last_non_pass_is_latest_hand(g.played_hands, i);
}

/// The combinations of `size` cards that extend `chosen` with cards of `cards` taken at
/// increasing positions from `start` on, in order of the positions taken.
pub open spec fn extensions(cards: Seq<Card>, size: int, start: int, chosen: Seq<Card>) -> Seq<
    Seq<Card>,
>
    decreases size - chosen.len(), 1int, 0int,
{
    if chosen.len() >= size {
        seq![chosen]
    } else {
        extensions_from(cards, size, start, chosen)
    }
}

/// The combinations that extend `chosen` whose next card is taken at position `i` or later.
pub open spec fn extensions_from(cards: Seq<Card>, size: int, i: int, chosen: Seq<Card>) -> Seq<
    Seq<Card>,
>
    decreases size - chosen.len(), 0int, cards.len() - i,
{
    if chosen.len() >= size || i > cards.len() - (size - chosen.len()) || i < 0 {
        seq![]
    } else {
        extensions(cards, size, i + 1, chosen.push(cards[i])) + extensions_from(
            cards,
            size,
            i + 1,
            chosen,
        )
    }
}

/// Every combination of `size` of the cards, the cards in each taken in card order and the
/// combinations listed in the order of the positions they take in the sorted cards.
pub open spec fn all_combinations(cards: Seq<Card>, size: int) -> Seq<Seq<Card>> {
    if cards.len() < size || size <= 0 {
        seq![]
    } else {
        extensions(sort_cards(cards), size, 0, seq![])
    }
}

/// The combinations of `size` of the cards that may be played now, in the order of
/// `all_combinations`.
pub open spec fn ordered_moves(g: GameView, cards: Seq<Card>, size: int) -> Seq<Seq<Card>> {
    all_combinations(cards, size).filter(|m: Seq<Card>| valid_move(g, m))
}

/// The moves a bot holding `cards` considers: singles, then pairs, triples and five-card hands.
pub open spec fn candidate_moves(g: GameView, cards: Seq<Card>) -> Seq<Seq<Card>> {
    ordered_moves(g, cards, 1) + ordered_moves(g, cards, 2) + ordered_moves(g, cards, 3)
        + ordered_moves(g, cards, 5)
}

/// Every combination takes `size` cards at increasing positions, so it holds cards of `cards`
/// only, and no card more often than `cards` does.
pub proof fn lemma_extensions_take_cards(
    cards: Seq<Card>,
    size: int,
    start: int,
    chosen: Seq<Card>,
    k: int,
)
    requires
        chosen.len() <= size,
        0 <= k < extensions(cards, size, start, chosen).len(),
    ensures
        ({
            let m = extensions(cards, size, start, chosen)[k];
            &&& m.len() == size
            &&& m.subrange(0, chosen.len() as int) == chosen
            &&& (m.subrange(chosen.len() as int, size)).to_multiset().subset_of(
                cards.subrange(start, cards.len() as int).to_multiset(),
            )
        }),
    decreases size - chosen.len(), 1int, 0int,
{
    broadcast use vstd::multiset::group_multiset_axioms;
    broadcast use vstd::seq_lib::group_to_multiset_ensures;

    if chosen.len() >= size {
        let m = chosen;
        assert(extensions(cards, size, start, chosen) == seq![chosen]);
        assert(m.subrange(0, chosen.len() as int) == chosen);
        assert(m.subrange(chosen.len() as int, size) == Seq::<Card>::empty());
        assert(Seq::<Card>::empty().to_multiset() =~= Multiset::<Card>::empty());
    } else {
        lemma_extensions_from_take_cards(cards, size, start, chosen, k);
    }
}

/// See `lemma_extensions_take_cards`.
pub proof fn lemma_extensions_from_take_cards(
    cards: Seq<Card>,
    size: int,
    i: int,
    chosen: Seq<Card>,
    k: int,
)
    requires
        chosen.len() < size,
        0 <= k < extensions_from(cards, size, i, chosen).len(),
    ensures
        ({
            let m = extensions_from(cards, size, i, chosen)[k];
            &&& m.len() == size
            &&& m.subrange(0, chosen.len() as int) == chosen
            &&& (m.subrange(chosen.len() as int, size)).to_multiset().subset_of(
                cards.subrange(i, cards.len() as int).to_multiset(),
            )
        }),
    decreases size - chosen.len(), 0int, cards.len() - i,
{
    broadcast use vstd::multiset::group_multiset_axioms;
    broadcast use vstd::seq_lib::group_to_multiset_ensures;

    let first = extensions(cards, size, i + 1, chosen.push(cards[i]));
    let rest = extensions_from(cards, size, i + 1, chosen);
    let all = extensions_from(cards, size, i, chosen);
    assert(all == first + rest);
    let n = cards.len() as int;
    let c = chosen.len() as int;
    if k < first.len() {
        lemma_extensions_take_cards(cards, size, i + 1, chosen.push(cards[i]), k);
        let m = first[k];
        assert(all[k] == m);
        assert(m.subrange(0, c) == m.subrange(0, c + 1).subrange(0, c));
        // The card at position `c` is `cards[i]`; the rest come from positions after `i`.
        let tail = m.subrange(c + 1, size);
        assert(m.subrange(0, c + 1)[c] == m[c]);
        assert(chosen.push(cards[i])[c] == cards[i]);
        assert(m[c] == cards[i]);
        assert(m.subrange(c, size) == seq![cards[i]] + tail);
        assert(cards.subrange(i, n) == seq![cards[i]] + cards.subrange(i + 1, n));
        vstd::seq_lib::lemma_multiset_commutative(seq![cards[i]], tail);
        vstd::seq_lib::lemma_multiset_commutative(seq![cards[i]], cards.subrange(i + 1, n));
        assert(m.subrange(c, size).to_multiset().subset_of(cards.subrange(i, n).to_multiset()));
    } else {
        lemma_extensions_from_take_cards(cards, size, i + 1, chosen, k - first.len());
        let m = rest[k - first.len()];
        assert(all[k] == m);
        assert(cards.subrange(i, n) == seq![cards[i]] + cards.subrange(i + 1, n));
        vstd::seq_lib::lemma_multiset_commutative(seq![cards[i]], cards.subrange(i + 1, n));
        assert(m.subrange(c, size).to_multiset().subset_of(cards.subrange(i, n).to_multiset()));
    }
}

/// Every combination of `size` of the cards has `size` cards, all taken from `cards`.
pub proof fn lemma_combination_cards(cards: Seq<Card>, size: int, k: int)
    requires
        0 <= k < all_combinations(cards, size).len(),
    ensures
        all_combinations(cards, size)[k].len() == size,
        all_combinations(cards, size)[k].to_multiset().subset_of(cards.to_multiset()),
        forall|j: int|
            0 <= j < size ==> cards.contains(#[trigger] all_combinations(cards, size)[k][j]),
{
    broadcast use vstd::multiset::group_multiset_axioms;
    broadcast use vstd::seq_lib::group_to_multiset_ensures;

    let sorted = sort_cards(cards);
    crate::hands::lemma_sort_cards(cards);
    lemma_extensions_take_cards(sorted, size, 0, seq![], k);
    let m = all_combinations(cards, size)[k];
    assert(m.subrange(0, size) == m);
    assert(sorted.subrange(0, sorted.len() as int) == sorted);
    assert forall|j: int| 0 <= j < size implies cards.contains(#[trigger] m[j]) by {
        assert(m.to_multiset().count(m[j]) > 0);
        assert(cards.to_multiset().count(m[j]) > 0);
    }
}

// ----------------------------------------------------------------------------
// Generating the moves
// ----------------------------------------------------------------------------
/// Whether `c` is among the cards.
fn holds_card(cards: &[Card], c: Card) -> (b: bool)
    ensures
        b == cards@.contains(c),
{
    let mut i: usize = 0;
    while i < cards.len()
        invariant
            i <= cards@.len(),
            forall|j: int| 0 <= j < i ==> cards@[j] != c,
        decreases cards@.len() - i,
    {
        if cards[i] == c {
            return true;
        }
        i = i + 1;
    }
    false
}

/// Whether the cards may be played now (see `valid_move`).
fn is_valid_move(game: &Game, cards: &[Card]) -> (b: bool)
    ensures
        b == valid_move(game@, cards@),
{
    let hand = match Hand::from_cards(cards) {
        Ok(hand) => hand,
        Err(_) => {
            return false;
        },
    };
    let played = game.played_hands();
    let first_turn = played.len() == 0;
    let table_clear = game.consecutive_passes() >= 3;
    if first_turn {
        if !holds_card(cards, Card::new(Rank::Three, Suit::Diamonds)) {
            return false;
        }
    }
    if table_clear || first_turn {
        return true;
    }
    let mut i: usize = played.len();
    let ghost hv = crate::game::hand_views(played@);
    proof {
        assert(hv.take(i as int) == hv);
    }
    while i > 0
        invariant
            i <= played@.len(),
            hv == crate::game::hand_views(played@),
            hv == game@.played_hands,
            last_non_pass(hv) == last_non_pass(hv.take(i as int)),
            hand_of(cards@) == Ok::<crate::hands::HandView, crate::hands::HandError>(hand@),
            game@.consecutive_passes < 3,
            game@.played_hands.len() != 0,
        decreases i,
    {
        proof {
            assert(hv.take(i as int).drop_last() == hv.take(i - 1));
        }
        let last = &played[i - 1];
        match last {
            Hand::Pass => {},
            _ => {
                return hand.can_beat(last);
            },
        }
        i = i - 1;
    }
    proof {
        assert(hv.take(0) == Seq::<crate::hands::HandView>::empty());
    }
    true
}

/// Appends to `result` every combination that extends `current` with cards taken at
/// increasing positions from `start` on; `current` is handed back as it was.
fn build_combinations(
    cards: &[Card],
    size: usize,
    start: usize,
    current: &mut Vec<Card>,
    result: &mut Vec<Vec<Card>>,
)
    requires
        old(current)@.len() <= size,
        size - old(current)@.len() <= cards@.len(),
    ensures
        final(current)@ == old(current)@,
        final(result)@.len() == old(result)@.len() + extensions(
            cards@,
            size as int,
            start as int,
            old(current)@,
        ).len(),
        forall|k: int|
            0 <= k < old(result)@.len() ==> (#[trigger] final(result)@[k])@ == old(result)@[k]@,
        forall|k: int|
            0 <= k < extensions(cards@, size as int, start as int, old(current)@).len() ==> (
            #[trigger] final(result)@[old(result)@.len() + k])@ == extensions(
                cards@,
                size as int,
                start as int,
                old(current)@,
            )[k],
    decreases size - old(current)@.len(),
{
    if current.len() == size {
        result.push(copy_cards(current));
        return;
    }
    let ghost cur = current@;
    let ghost r0 = result@;
    let remaining = size - current.len();
    let last = cards.len() - remaining;
    let mut i: usize = start;
    while i <= last
        invariant
            current@ == cur,
            old(current)@ == cur,
            cur.len() < size,
            remaining == size - cur.len(),
            last == cards@.len() - remaining,
            start <= i,
            i <= last + 1 || i == start,
            // What has been appended, followed by what is still to come, is everything.
            ({
                let done = result@.len() - r0.len();
                let todo = extensions_from(cards@, size as int, i as int, cur);
                let whole = extensions_from(cards@, size as int, start as int, cur);
                &&& result@.len() >= r0.len()
                &&& done + todo.len() == whole.len()
                &&& forall|k: int| 0 <= k < r0.len() ==> (#[trigger] result@[k])@ == r0[k]@
                &&& forall|k: int| 0 <= k < done ==> (#[trigger] result@[r0.len() + k])@ == whole[k]
                &&& forall|k: int| 0 <= k < todo.len() ==> #[trigger] todo[k] == whole[done + k]
            }),
        decreases last + 1 - i,
    {
        let ghost r1 = result@;
        let ghost todo = extensions_from(cards@, size as int, i as int, cur);
        let ghost head = extensions(cards@, size as int, i + 1, cur.push(cards@[i as int]));
        let ghost tail = extensions_from(cards@, size as int, i + 1, cur);
        proof {
            assert(todo == head + tail);
        }
        current.push(cards[i]);
        assert(current@.len() == cur.len() + 1);
        build_combinations(cards, size, i + 1, current, result);
        current.pop();
        proof {
            let whole = extensions_from(cards@, size as int, start as int, cur);
            let done1 = r1.len() - r0.len();
            assert forall|k: int| 0 <= k < tail.len() implies #[trigger] tail[k] == whole[done1
                + head.len() + k] by {
                assert(todo[head.len() + k] == tail[k]);
            }
            assert forall|k: int| 0 <= k < done1 + head.len() implies (#[trigger] result@[r0.len()
                + k])@ == whole[k] by {
                if k < done1 {
                    assert(result@[r0.len() + k] == result@[r1.len() - done1 + k]);
                } else {
                    assert(result@[r1.len() + (k - done1)]@ == head[k - done1]);
                    assert(todo[k - done1] == head[k - done1]);
                }
            }
        }
        i = i + 1;
    }
    proof {
        let todo = extensions_from(cards@, size as int, i as int, cur);
        assert(todo.len() == 0);
        assert(extensions(cards@, size as int, start as int, cur) == extensions_from(
            cards@,
            size as int,
            start as int,
            cur,
        ));
    }
}

/// Every combination of `size` of the cards, sorted first (see `all_combinations`).
fn generate_suit_sorted_combinations(cards: &[Card], size: usize) -> (r: Vec<Vec<Card>>)
    ensures
        r@.len() == all_combinations(cards@, size as int).len(),
        forall|k: int|
            0 <= k < r@.len() ==> (#[trigger] r@[k])@ == all_combinations(cards@, size as int)[k],
{
    if cards.len() < size || size == 0 {
        return Vec::new();
    }
    let sorted = sorted_cards(cards);
    proof {
        crate::hands::lemma_sort_cards(cards@);
    }
    let mut result: Vec<Vec<Card>> = Vec::new();
    let mut current: Vec<Card> = Vec::new();
    build_combinations(sorted.as_slice(), size, 0, &mut current, &mut result);
    proof {
        let all = all_combinations(cards@, size as int);
        assert(all == extensions(sorted@, size as int, 0, Seq::<Card>::empty()));
        assert forall|k: int| 0 <= k < result@.len() implies (#[trigger] result@[k])@ == all[k] by {
            assert(result@[0 + k] == result@[k]);
        }
    }
    result
}

/// The combinations of `size` of the cards that may be played now (see `ordered_moves`).
fn find_ordered_moves(game: &Game, available_cards: &[Card], size: usize) -> (r: Vec<Vec<Card>>)
    ensures
        r@.len() == ordered_moves(game@, available_cards@, size as int).len(),
        forall|k: int|
            0 <= k < r@.len() ==> (#[trigger] r@[k])@ == ordered_moves(
                game@,
                available_cards@,
                size as int,
            )[k],
{
    let ghost pred = |m: Seq<Card>| valid_move(game@, m);
    if available_cards.len() < size || size == 0 {
        proof {
            assert(all_combinations(available_cards@, size as int) == Seq::<Seq<Card>>::empty());
        }
        return Vec::new();
    }
    let combos = generate_suit_sorted_combinations(available_cards, size);
    let ghost all = all_combinations(available_cards@, size as int);
    let mut r: Vec<Vec<Card>> = Vec::new();
    let mut i: usize = 0;
    while i < combos.len()
        invariant
            combos@.len() == all.len(),
            forall|k: int| 0 <= k < combos@.len() ==> (#[trigger] combos@[k])@ == all[k],
            i <= combos@.len(),
            pred == (|m: Seq<Card>| valid_move(game@, m)),
            r@.len() == all.take(i as int).filter(pred).len(),
            forall|k: int|
                0 <= k < r@.len() ==> (#[trigger] r@[k])@ == all.take(i as int).filter(pred)[k],
        decreases combos@.len() - i,
    {
        let ok = is_valid_move(game, combos[i].as_slice());
        proof {
            reveal(Seq::filter);
            assert(all.take(i + 1).drop_last() == all.take(i as int));
            assert(all.take(i + 1).last() == all[i as int]);
        }
        if ok {
            r.push(copy_cards(&combos[i]));
        }
        i = i + 1;
    }
    proof {
        assert(all.take(i as int) == all);
    }
    r
}

// ----------------------------------------------------------------------------
// Choosing among the moves
// ----------------------------------------------------------------------------
/// The sum of the rank positions of the cards.
pub open spec fn rank_sum(m: Seq<Card>) -> int
    decreases m.len(),
{
    if m.len() == 0 {
        0
    } else {
        rank_sum(m.drop_last()) + crate::cards::rank_index(m.last().rank)
    }
}

/// The cards of `a` have a lower average rank than those of `b` (averages compared by
/// cross-multiplying; a move of no cards has no lower average than any other, nor the other
/// than it).
pub open spec fn lower_average(a: Seq<Card>, b: Seq<Card>) -> bool {
    rank_sum(a) * b.len() < rank_sum(b) * a.len()
}

/// The cards of `a` and `b` have the same average rank (see `lower_average`).
pub open spec fn same_average(a: Seq<Card>, b: Seq<Card>) -> bool {
    rank_sum(a) * b.len() == rank_sum(b) * a.len()
}

/// `a` comes before `b` in the card order of sequences: compared card by card, and a
/// sequence before any longer one that it starts.
pub open spec fn cards_before(a: Seq<Card>, b: Seq<Card>) -> bool
    decreases a.len(),
{
    if a.len() == 0 {
        b.len() > 0
    } else if b.len() == 0 {
        false
    } else if card_key(a[0]) != card_key(b[0]) {
        card_key(a[0]) < card_key(b[0])
    } else {
        cards_before(a.drop_first(), b.drop_first())
    }
}

/// `a` is a better move than `b`: a lower average rank, or the same average and earlier in
/// card order.
pub open spec fn better_move(a: Seq<Card>, b: Seq<Card>) -> bool {
    lower_average(a, b) || (same_average(a, b) && cards_before(a, b))
}

/// Some move has `size` cards.
pub open spec fn has_size(moves: Seq<Seq<Card>>, size: int) -> bool {
    exists|k: int| 0 <= k < moves.len() && #[trigger] moves[k].len() == size
}

/// `m` is one of the moves, has `size` cards, and no move of that size is better.
pub open spec fn is_best_of_size(moves: Seq<Seq<Card>>, size: int, m: Seq<Card>) -> bool {
    &&& moves.contains(m)
    &&& m.len() == size
    &&& forall|k: int|
        0 <= k < moves.len() && (#[trigger] moves[k]).len() == size ==> !better_move(moves[k], m)
}

/// The best move of `size` cards (there is only one, see `lemma_best_of_size_unique`).
pub open spec fn best_of_size(moves: Seq<Seq<Card>>, size: int) -> Seq<Card> {
    choose|m: Seq<Card>| is_best_of_size(moves, size, m)
}

/// Moves of `size` cards are among the best choices: no other size's best move has a lower
/// average than the best move of this size.
pub open spec fn is_tied_size(moves: Seq<Seq<Card>>, size: int) -> bool {
    &&& has_size(moves, size)
    &&& forall|s: int|
        #[trigger] has_size(moves, s) ==> !lower_average(
            best_of_size(moves, s),
            best_of_size(moves, size),
        )
}

/// The largest number of cards in a move (zero when there are no moves).
pub open spec fn max_size(moves: Seq<Seq<Card>>) -> int
    decreases moves.len(),
{
    if moves.len() == 0 {
        0
    } else if moves.last().len() > max_size(moves.drop_last()) {
        moves.last().len() as int
    } else {
        max_size(moves.drop_last())
    }
}

/// The sizes tied for the best choice, smallest first.
pub open spec fn tied_sizes(moves: Seq<Seq<Card>>) -> Seq<int> {
    Seq::new((max_size(moves) + 1) as nat, |i: int| i).filter(|s: int| is_tied_size(moves, s))
}

/// The values of a sequence of moves.
pub open spec fn move_views(moves: Seq<Vec<Card>>) -> Seq<Seq<Card>> {
    moves.map_values(|m: Vec<Card>| m@)
}

/// Rank sums are at least zero and at most twelve per card, and grow along a sequence.
pub proof fn lemma_rank_sum_bounds(m: Seq<Card>, i: int)
    requires
        0 <= i <= m.len(),
    ensures
        0 <= rank_sum(m.take(i)) <= rank_sum(m) <= 12 * m.len(),
    decreases m.len(),
{
    if m.len() > 0 {
        if i == m.len() {
            assert(m.take(i) == m);
            lemma_rank_sum_bounds(m.drop_last(), i - 1);
        } else {
            assert(m.drop_last().take(i) == m.take(i));
            lemma_rank_sum_bounds(m.drop_last(), i);
        }
        crate::cards::lemma_symbols_roundtrip(m.last().rank, m.last().suit);
    } else {
        assert(m.take(i) == m);
    }
}

/// No sequence comes before itself.
pub proof fn lemma_cards_before_irreflexive(a: Seq<Card>)
    ensures
        !cards_before(a, a),
    decreases a.len(),
{
    if a.len() > 0 {
        lemma_cards_before_irreflexive(a.drop_first());
    }
}

/// Coming before is transitive.
pub proof fn lemma_cards_before_transitive(a: Seq<Card>, b: Seq<Card>, c: Seq<Card>)
    requires
        cards_before(a, b),
        cards_before(b, c),
    ensures
        cards_before(a, c),
    decreases a.len(),
{
    if a.len() > 0 && b.len() > 0 && c.len() > 0 {
        if card_key(a[0]) == card_key(b[0]) && card_key(b[0]) == card_key(c[0]) {
            lemma_cards_before_transitive(a.drop_first(), b.drop_first(), c.drop_first());
        }
    }
}

/// Of two different sequences of the same length, one comes before the other.
pub proof fn lemma_cards_before_total(a: Seq<Card>, b: Seq<Card>)
    requires
        a.len() == b.len(),
        a != b,
    ensures
        cards_before(a, b) || cards_before(b, a),
    decreases a.len(),
{
    if a.len() == 0 {
        assert(a == b);
    } else if card_key(a[0]) == card_key(b[0]) {
        crate::cards::lemma_card_key_injective(a[0], b[0]);
        if a.drop_first() == b.drop_first() {
            assert(a == seq![a[0]] + a.drop_first());
            assert(b == seq![b[0]] + b.drop_first());
        }
        lemma_cards_before_total(a.drop_first(), b.drop_first());
    }
}

/// Between moves of one size with cards, the better move has the lower rank sum, or the same
/// rank sum and comes first.
pub proof fn lemma_better_same_size(a: Seq<Card>, b: Seq<Card>)
    requires
        a.len() == b.len(),
    ensures
        better_move(a, b) <==> (rank_sum(a) < rank_sum(b) || (rank_sum(a) == rank_sum(b)
            && cards_before(a, b))),
        a.len() > 0 ==> (lower_average(a, b) <==> rank_sum(a) < rank_sum(b)),
{
    let l = a.len() as int;
    let x = rank_sum(a);
    let y = rank_sum(b);
    if l == 0 {
        assert(a == b);
        lemma_cards_before_irreflexive(a);
        assert(x == 0 && y == 0);
    } else {
        assert(x * l < y * l <==> x < y) by (nonlinear_arith)
            requires
                l > 0,
        ;
        assert(x * l == y * l <==> x == y) by (nonlinear_arith)
            requires
                l > 0,
        ;
    }
}

/// Lower average is transitive (rank sums and lengths are never negative).
pub proof fn lemma_lower_average_transitive(a: Seq<Card>, b: Seq<Card>, c: Seq<Card>)
    requires
        lower_average(a, b),
        lower_average(b, c),
    ensures
        lower_average(a, c),
{
    lemma_rank_sum_bounds(a, 0);
    lemma_rank_sum_bounds(b, 0);
    lemma_rank_sum_bounds(c, 0);
    let (sa, la) = (rank_sum(a), a.len() as int);
    let (sb, lb) = (rank_sum(b), b.len() as int);
    let (sc, lc) = (rank_sum(c), c.len() as int);
    assert(sa * lc < sc * la) by (nonlinear_arith)
        requires
            sa >= 0,
            la >= 0,
            sb >= 0,
            lb >= 0,
            sc >= 0,
            lc >= 0,
            sa * lb < sb * la,
            sb * lc < sc * lb,
    {
        assert(lb > 0) by {
            if lb == 0 {
                assert(sb * lc >= 0);
            }
        }
        assert(la > 0) by {
            if la == 0 {
                assert(sa * lb >= 0);
            }
        }
        assert(sa * lb * lc <= sb * la * lc);
        assert(sb * lc * la < sc * lb * la);
        assert(sa * lc * lb < sc * la * lb);
    }
}

/// Better is transitive between moves of one size.
pub proof fn lemma_better_transitive(a: Seq<Card>, b: Seq<Card>, c: Seq<Card>)
    requires
        a.len() == b.len(),
        b.len() == c.len(),
        better_move(a, b),
        better_move(b, c),
    ensures
        better_move(a, c),
{
    lemma_better_same_size(a, b);
    lemma_better_same_size(b, c);
    lemma_better_same_size(a, c);
    if rank_sum(a) == rank_sum(b) && rank_sum(b) == rank_sum(c) {
        lemma_cards_before_transitive(a, b, c);
    }
}

/// No move is better than itself.
pub proof fn lemma_better_irreflexive(a: Seq<Card>)
    ensures
        !better_move(a, a),
{
    lemma_cards_before_irreflexive(a);
}

/// There is only one best move of each size.
pub proof fn lemma_best_of_size_unique(moves: Seq<Seq<Card>>, size: int, m1: Seq<Card>, m2: Seq<Card>)
    requires
        is_best_of_size(moves, size, m1),
        is_best_of_size(moves, size, m2),
    ensures
        m1 == m2,
{
    let k1 = choose|k: int| 0 <= k < moves.len() && moves[k] == m1;
    let k2 = choose|k: int| 0 <= k < moves.len() && moves[k] == m2;
    assert(!better_move(moves[k1], m2));
    assert(!better_move(moves[k2], m1));
    lemma_better_same_size(m1, m2);
    lemma_better_same_size(m2, m1);
    if m1 != m2 {
        lemma_cards_before_total(m1, m2);
    }
}

/// Among finitely many moves, one has no lower average against it.
pub proof fn lemma_unbeaten_exists(bests: Seq<Seq<Card>>) -> (j: int)
    requires
        bests.len() > 0,
    ensures
        0 <= j < bests.len(),
        forall|k: int| 0 <= k < bests.len() ==> !lower_average(#[trigger] bests[k], bests[j]),
    decreases bests.len(),
{
    if bests.len() == 1 {
        0
    } else {
        let pre = bests.drop_last();
        let j0 = lemma_unbeaten_exists(pre);
        let last = bests.len() - 1;
        if lower_average(bests[last], bests[j0]) {
            assert forall|k: int| 0 <= k < bests.len() implies !lower_average(
                #[trigger] bests[k],
                bests[last],
            ) by {
                if k < last {
                    assert(pre[k] == bests[k]);
                    if lower_average(bests[k], bests[last]) {
                        lemma_lower_average_transitive(bests[k], bests[last], bests[j0]);
                    }
                }
            }
            last
        } else {
            assert forall|k: int| 0 <= k < bests.len() implies !lower_average(
                #[trigger] bests[k],
                bests[j0],
            ) by {
                if k < last {
                    assert(pre[k] == bests[k]);
                }
            }
            j0
        }
    }
}

/// The best move found so far among the moves of one size, with its rank sum.
struct CategoryBest {
    size: usize,
    best: Vec<Card>,
    sum: u64,
}

/// The rank sum of the cards.
fn rank_sum_of(cards: &Vec<Card>) -> (s: u64)
    requires
        rank_sum(cards@) <= u32::MAX,
    ensures
        s == rank_sum(cards@),
{
    let mut s: u64 = 0;
    let mut i: usize = 0;
    while i < cards.len()
        invariant
            i <= cards@.len(),
            rank_sum(cards@) <= u32::MAX,
            s == rank_sum(cards@.take(i as int)),
        decreases cards@.len() - i,
    {
        proof {
            assert(cards@.take(i + 1).drop_last() == cards@.take(i as int));
            lemma_rank_sum_bounds(cards@, i + 1);
        }
        s = s + cards[i].rank.value() as u64;
        i = i + 1;
    }
    proof {
        assert(cards@.take(i as int) == cards@);
    }
    s
}

/// Whether the average of rank sum `sa` over `la` cards is below that of `sb` over `lb` cards.
fn average_below(sa: u64, la: usize, sb: u64, lb: usize) -> (b: bool)
    requires
        sa <= u32::MAX,
        sb <= u32::MAX,
    ensures
        b == (sa * lb < sb * la),
{
    let x: u128 = sa as u128;
    let y: u128 = sb as u128;
    let p: u128 = la as u128;
    let q: u128 = lb as u128;
    assert(x * q <= 0xffff_ffff * 0xffff_ffff_ffff_ffffu128) by (nonlinear_arith)
        requires
            x <= 0xffff_ffff,
            q <= 0xffff_ffff_ffff_ffff,
    ;
    assert(y * p <= 0xffff_ffff * 0xffff_ffff_ffff_ffffu128) by (nonlinear_arith)
        requires
            y <= 0xffff_ffff,
            p <= 0xffff_ffff_ffff_ffff,
    ;
    x * q < y * p
}

/// Whether `a` comes before `b` in card order (see `cards_before`).
fn comes_before(a: &Vec<Card>, b: &Vec<Card>) -> (r: bool)
    ensures
        r == cards_before(a@, b@),
{
    let mut i: usize = 0;
    proof {
        assert(a@.skip(0) == a@);
        assert(b@.skip(0) == b@);
    }
    loop
        invariant
            i <= a@.len(),
            i <= b@.len(),
            cards_before(a@, b@) == cards_before(a@.skip(i as int), b@.skip(i as int)),
        decreases a@.len() - i,
    {
        if i == a.len() {
            return i < b.len();
        }
        if i == b.len() {
            return false;
        }
        let ka = a[i].key();
        let kb = b[i].key();
        if ka != kb {
            return ka < kb;
        }
        proof {
            assert(a@.skip(i as int).drop_first() == a@.skip(i + 1));
            assert(b@.skip(i as int).drop_first() == b@.skip(i + 1));
        }
        i = i + 1;
    }
}

/// The best move of each size among the moves: one entry per size that occurs.
fn category_bests(moves: &Vec<Vec<Card>>) -> (cats: Vec<CategoryBest>)
    requires
        forall|k: int| 0 <= k < moves@.len() ==> rank_sum(#[trigger] moves@[k]@) <= u32::MAX,
    ensures
        forall|j: int|
            0 <= j < cats@.len() ==> is_best_of_size(
                move_views(moves@),
                (#[trigger] cats@[j]).size as int,
                cats@[j].best@,
            ) && cats@[j].sum == rank_sum(cats@[j].best@),
        forall|j1: int, j2: int|
            0 <= j1 < cats@.len() && 0 <= j2 < cats@.len() && j1 != j2 ==> (#[trigger] cats@[j1]).size
                != (#[trigger] cats@[j2]).size,
        forall|s: int|
            #[trigger] has_size(move_views(moves@), s) <==> exists|j: int|
                0 <= j < cats@.len() && (#[trigger] cats@[j]).size == s,
{
    let ghost mv = move_views(moves@);
    let mut cats: Vec<CategoryBest> = Vec::new();
    let mut i: usize = 0;
    while i < moves.len()
        invariant
            i <= moves@.len(),
            mv == move_views(moves@),
            forall|k: int| 0 <= k < moves@.len() ==> rank_sum(#[trigger] moves@[k]@) <= u32::MAX,
            forall|j: int|
                0 <= j < cats@.len() ==> is_best_of_size(
                    mv.take(i as int),
                    (#[trigger] cats@[j]).size as int,
                    cats@[j].best@,
                ) && cats@[j].sum == rank_sum(cats@[j].best@),
            forall|j1: int, j2: int|
                0 <= j1 < cats@.len() && 0 <= j2 < cats@.len() && j1 != j2 ==> (#[trigger] cats@[j1]).size
                    != (#[trigger] cats@[j2]).size,
            forall|s: int|
                #[trigger] has_size(mv.take(i as int), s) <==> exists|j: int|
                    0 <= j < cats@.len() && (#[trigger] cats@[j]).size == s,
        decreases moves@.len() - i,
    {
        let mv_i = &moves[i];
        let size = mv_i.len();
        let sum = rank_sum_of(mv_i);
        let ghost before = mv.take(i as int);
        let ghost after = mv.take(i + 1);
        let ghost m = mv[i as int];
        proof {
            assert(after == before.push(m));
            assert(m == mv_i@);
        }
        // Find the entry for this size.
        let mut j: usize = 0;
        while j < cats.len()
            invariant
                j <= cats@.len(),
                forall|jj: int| 0 <= jj < j ==> (#[trigger] cats@[jj]).size != size,
            ensures
                j <= cats@.len(),
                forall|jj: int| 0 <= jj < j ==> (#[trigger] cats@[jj]).size != size,
                j < cats@.len() ==> cats@[j as int].size == size,
            decreases cats@.len() - j,
        {
            if cats[j].size == size {
                break;
            }
            j = j + 1;
        }
        let ghost old_cats = cats@;
        if j < cats.len() {
            let replace = {
                let cur = &cats[j];
                if average_below(sum, size, cur.sum, cur.best.len()) {
                    true
                } else if average_below(cur.sum, cur.best.len(), sum, size) {
                    false
                } else {
                    comes_before(mv_i, &cur.best)
                }
            };
            proof {
                let cur = old_cats[j as int].best@;
                assert(replace == better_move(m, cur));
            }
            if replace {
                let entry = CategoryBest { size, best: copy_cards(mv_i), sum };
                cats.set(j, entry);
            }
            proof {
                let cur = old_cats[j as int].best@;
                assert forall|jj: int| 0 <= jj < cats@.len() implies is_best_of_size(
                    after,
                    (#[trigger] cats@[jj]).size as int,
                    cats@[jj].best@,
                ) && cats@[jj].sum == rank_sum(cats@[jj].best@) by {
                    let e = cats@[jj];
                    assert(is_best_of_size(before, old_cats[jj].size as int, old_cats[jj].best@));
                    if jj == j && replace {
                        assert(after[i as int] == m);
                        assert forall|k: int|
                            0 <= k < after.len() && (#[trigger] after[k]).len() == size implies !better_move(after[k], m) by {
                            if k < i {
                                assert(after[k] == before[k]);
                                assert(!better_move(before[k], cur));
                                if better_move(after[k], m) {
                                    lemma_better_transitive(after[k], m, cur);
                                }
                            } else {
                                lemma_better_irreflexive(m);
                            }
                        }
                    } else {
                        let b = e.best@;
                        let kb = choose|k: int| 0 <= k < before.len() && before[k] == b;
                        assert(after[kb] == b);
                        assert forall|k: int|
                            0 <= k < after.len() && (#[trigger] after[k]).len() == e.size implies !better_move(after[k], b) by {
                            if k < i {
                                assert(after[k] == before[k]);
                            } else {
                                assert(after[k] == m);
                                if jj == j {
                                    assert(!replace);
                                    assert(cats@ == old_cats);
                                    assert(b == cur);
                                } else {
                                    assert(old_cats[j as int].size == size);
                                    assert(e == old_cats[jj]);
                                    assert(e.size != size);
                                }
                            }
                        }
                    }
                }
                assert forall|s: int| #[trigger] has_size(after, s) <==> exists|jj: int|
                    0 <= jj < cats@.len() && (#[trigger] cats@[jj]).size == s by {
                    if has_size(after, s) {
                        let k = choose|k: int| 0 <= k < after.len() && #[trigger] after[k].len() == s;
                        if k < i {
                            assert(before[k] == after[k]);
                            assert(has_size(before, s));
                            let jj = choose|jj: int| 0 <= jj < old_cats.len() && (#[trigger] old_cats[jj]).size == s;
                            assert(cats@[jj].size == s);
                        } else {
                            assert(cats@[j as int].size == s);
                        }
                    }
                    if exists|jj: int| 0 <= jj < cats@.len() && (#[trigger] cats@[jj]).size == s {
                        let jj = choose|jj: int| 0 <= jj < cats@.len() && (#[trigger] cats@[jj]).size == s;
                        assert(old_cats[jj].size == s);
                        assert(has_size(before, s));
                        let k = choose|k: int| 0 <= k < before.len() && #[trigger] before[k].len() == s;
                        assert(after[k] == before[k]);
                    }
                }
            }
        } else {
            let entry = CategoryBest { size, best: copy_cards(mv_i), sum };
            cats.push(entry);
            proof {
                assert(!has_size(before, size as int));
                assert forall|jj: int| 0 <= jj < cats@.len() implies is_best_of_size(
                    after,
                    (#[trigger] cats@[jj]).size as int,
                    cats@[jj].best@,
                ) && cats@[jj].sum == rank_sum(cats@[jj].best@) by {
                    if jj < old_cats.len() {
                        let e = old_cats[jj];
                        assert(cats@[jj] == e);
                        assert(is_best_of_size(before, e.size as int, e.best@));
                        let b = e.best@;
                        let kb = choose|k: int| 0 <= k < before.len() && before[k] == b;
                        assert(after[kb] == b);
                        assert forall|k: int|
                            0 <= k < after.len() && (#[trigger] after[k]).len() == e.size implies !better_move(after[k], b) by {
                            if k < i {
                                assert(after[k] == before[k]);
                            } else {
                                assert(e.size != size);
                            }
                        }
                    } else {
                        assert(after[i as int] == m);
                        assert forall|k: int|
                            0 <= k < after.len() && (#[trigger] after[k]).len() == size implies !better_move(after[k], m) by {
                            if k < i {
                                assert(before[k] == after[k]);
                                assert(has_size(before, size as int));
                            } else {
                                lemma_better_irreflexive(m);
                            }
                        }
                    }
                }
                assert forall|s: int| #[trigger] has_size(after, s) <==> exists|jj: int|
                    0 <= jj < cats@.len() && (#[trigger] cats@[jj]).size == s by {
                    if has_size(after, s) {
                        let k = choose|k: int| 0 <= k < after.len() && #[trigger] after[k].len() == s;
                        if k < i {
                            assert(before[k] == after[k]);
                            assert(has_size(before, s));
                            let jj = choose|jj: int| 0 <= jj < old_cats.len() && (#[trigger] old_cats[jj]).size == s;
                            assert(cats@[jj].size == s);
                        } else {
                            assert(cats@[old_cats.len() as int].size == s);
                        }
                    }
                    if exists|jj: int| 0 <= jj < cats@.len() && (#[trigger] cats@[jj]).size == s {
                        let jj = choose|jj: int| 0 <= jj < cats@.len() && (#[trigger] cats@[jj]).size == s;
                        if jj < old_cats.len() {
                            assert(old_cats[jj].size == s);
                            assert(has_size(before, s));
                            let k = choose|k: int| 0 <= k < before.len() && #[trigger] before[k].len() == s;
                            assert(after[k] == before[k]);
                        } else {
                            assert(after[i as int].len() == s);
                        }
                    }
                }
            }
        }
        i = i + 1;
    }
    proof {
        assert(mv.take(i as int) == mv);
    }
    cats
}

/// Every move has at most `max_size` cards.
pub proof fn lemma_max_size(moves: Seq<Seq<Card>>)
    ensures
        max_size(moves) >= 0,
        forall|k: int| 0 <= k < moves.len() ==> (#[trigger] moves[k]).len() <= max_size(moves),
    decreases moves.len(),
{
    if moves.len() > 0 {
        lemma_max_size(moves.drop_last());
        assert forall|k: int| 0 <= k < moves.len() implies (#[trigger] moves[k]).len() <= max_size(
            moves,
        ) by {
            if k < moves.len() - 1 {
                assert(moves.drop_last()[k] == moves[k]);
            }
        }
    }
}

/// The best move of a size is the one that `best_of_size` names.
pub proof fn lemma_best_is_chosen(moves: Seq<Seq<Card>>, size: int, m: Seq<Card>)
    requires
        is_best_of_size(moves, size, m),
    ensures
        best_of_size(moves, size) == m,
{
    let c = best_of_size(moves, size);
    assert(is_best_of_size(moves, size, c));
    lemma_best_of_size_unique(moves, size, c, m);
}

/// The largest number of cards in a move.
fn max_move_size(moves: &Vec<Vec<Card>>) -> (m: usize)
    ensures
        m == max_size(move_views(moves@)),
{
    let ghost mv = move_views(moves@);
    let mut m: usize = 0;
    let mut i: usize = 0;
    while i < moves.len()
        invariant
            i <= moves@.len(),
            mv == move_views(moves@),
            m == max_size(mv.take(i as int)),
        decreases moves@.len() - i,
    {
        proof {
            assert(mv.take(i + 1).drop_last() == mv.take(i as int));
            assert(mv.take(i + 1).last() == moves@[i as int]@);
        }
        if moves[i].len() > m {
            m = moves[i].len();
        }
        i = i + 1;
    }
    proof {
        assert(mv.take(i as int) == mv);
    }
    m
}

/// Where the entry for `size` stands, if there is one.
fn find_category(cats: &Vec<CategoryBest>, size: usize) -> (r: Option<usize>)
    ensures
        match r {
            Some(j) => j < cats@.len() && cats@[j as int].size == size,
            None => forall|j: int| 0 <= j < cats@.len() ==> (#[trigger] cats@[j]).size != size,
        },
{
    let mut j: usize = 0;
    while j < cats.len()
        invariant
            j <= cats@.len(),
            forall|jj: int| 0 <= jj < j ==> (#[trigger] cats@[jj]).size != size,
        decreases cats@.len() - j,
    {
        if cats[j].size == size {
            return Some(j);
        }
        j = j + 1;
    }
    None
}

/// The entries hold, one for each size that occurs, the best move of that size.
pub open spec fn describes_categories(mv: Seq<Seq<Card>>, sizes: Seq<int>, bests: Seq<Seq<Card>>, sums: Seq<int>) -> bool {
    &&& sizes.len() == bests.len()
    &&& sums.len() == bests.len()
    &&& forall|j: int|
        0 <= j < bests.len() ==> is_best_of_size(mv, #[trigger] sizes[j], bests[j]) && sums[j]
            == rank_sum(bests[j])
    &&& forall|s: int| #[trigger] has_size(mv, s) <==> exists|j: int| 0 <= j < sizes.len() && #[trigger] sizes[j] == s
}

/// The sizes, best moves and rank sums of the entries.
spec fn entry_sizes(cats: Seq<CategoryBest>) -> Seq<int> {
    cats.map_values(|e: CategoryBest| e.size as int)
}

spec fn entry_bests(cats: Seq<CategoryBest>) -> Seq<Seq<Card>> {
    cats.map_values(|e: CategoryBest| e.best@)
}

spec fn entry_sums(cats: Seq<CategoryBest>) -> Seq<int> {
    cats.map_values(|e: CategoryBest| e.sum as int)
}

/// The sizes tied for the best choice, smallest first (see `tied_sizes`); there is at least
/// one when there are moves.
fn tied_category_sizes(moves: &Vec<Vec<Card>>, cats: &Vec<CategoryBest>) -> (t: Vec<usize>)
    requires
        describes_categories(move_views(moves@), entry_sizes(cats@), entry_bests(cats@), entry_sums(cats@)),
        forall|j: int| 0 <= j < cats@.len() ==> (#[trigger] cats@[j]).sum <= u32::MAX,
    ensures
        t@.len() == tied_sizes(move_views(moves@)).len(),
        forall|k: int| 0 <= k < t@.len() ==> (#[trigger] t@[k]) as int == tied_sizes(move_views(moves@))[k],
        moves@.len() > 0 ==> t@.len() > 0,
{
    let ghost mv = move_views(moves@);
    let ghost pred = |s: int| is_tied_size(mv, s);
    let ghost sizes = entry_sizes(cats@);
    let ghost bests = entry_bests(cats@);
    proof {
        assert forall|j: int| 0 <= j < cats@.len() implies best_of_size(mv, #[trigger] sizes[j]) == bests[j] by {
            lemma_best_is_chosen(mv, sizes[j], bests[j]);
        }
        // Whether a size is tied can be read off the entries.
        assert forall|s: int| #[trigger] is_tied_size(mv, s) <==> exists|j: int|
            0 <= j < sizes.len() && sizes[j] == s && forall|jj: int| 0 <= jj < sizes.len() ==> !lower_average(#[trigger] bests[jj], bests[j]) by {
            if is_tied_size(mv, s) {
                let j = choose|j: int| 0 <= j < sizes.len() && #[trigger] sizes[j] == s;
                assert forall|jj: int| 0 <= jj < sizes.len() implies !lower_average(#[trigger] bests[jj], bests[j]) by {
                    assert(has_size(mv, sizes[jj]));
                }
            }
            if exists|j: int| 0 <= j < sizes.len() && sizes[j] == s && forall|jj: int| 0 <= jj < sizes.len() ==> !lower_average(#[trigger] bests[jj], bests[j]) {
                let j = choose|j: int| 0 <= j < sizes.len() && sizes[j] == s && forall|jj: int| 0 <= jj < sizes.len() ==> !lower_average(#[trigger] bests[jj], bests[j]);
                assert(has_size(mv, s));
                assert forall|s2: int| #[trigger] has_size(mv, s2) implies !lower_average(best_of_size(mv, s2), best_of_size(mv, s)) by {
                    let jj = choose|jj: int| 0 <= jj < sizes.len() && #[trigger] sizes[jj] == s2;
                }
            }
        }
    }
    let maxs = max_move_size(moves);
    let mut t: Vec<usize> = Vec::new();
    let mut s: usize = 0;
    let mut more = true;
    while more
        invariant
            mv == move_views(moves@),
            pred == (|x: int| is_tied_size(mv, x)),
            sizes == entry_sizes(cats@),
            bests == entry_bests(cats@),
            describes_categories(mv, sizes, bests, entry_sums(cats@)),
            forall|j: int| 0 <= j < cats@.len() ==> (#[trigger] cats@[j]).sum <= u32::MAX,
            forall|x: int| #[trigger] is_tied_size(mv, x) <==> exists|j: int|
                0 <= j < sizes.len() && sizes[j] == x && forall|jj: int| 0 <= jj < sizes.len() ==> !lower_average(#[trigger] bests[jj], bests[j]),
            maxs == max_size(mv),
            s <= maxs,
            more ==> t@.len() == Seq::new(s as nat, |i: int| i).filter(pred).len(),
            more ==> forall|k: int| 0 <= k < t@.len() ==> (#[trigger] t@[k]) as int == Seq::new(s as nat, |i: int| i).filter(pred)[k],
            !more ==> s == maxs,
            !more ==> t@.len() == Seq::new((s + 1) as nat, |i: int| i).filter(pred).len(),
            !more ==> forall|k: int| 0 <= k < t@.len() ==> (#[trigger] t@[k]) as int == Seq::new((s + 1) as nat, |i: int| i).filter(pred)[k],
        decreases maxs - s + (if more { 1int } else { 0int }),
    {
        let tied = match find_category(cats, s) {
            None => false,
            Some(j) => {
                let mut unbeaten = true;
                let mut jj: usize = 0;
                while jj < cats.len()
                    invariant
                        j < cats@.len(),
                        jj <= cats@.len(),
                        sizes == entry_sizes(cats@),
                        bests == entry_bests(cats@),
                        forall|x: int| 0 <= x < cats@.len() ==> (#[trigger] cats@[x]).sum <= u32::MAX,
                        describes_categories(mv, sizes, bests, entry_sums(cats@)),
                        unbeaten <==> forall|x: int| 0 <= x < jj ==> !lower_average(#[trigger] bests[x], bests[j as int]),
                    decreases cats@.len() - jj,
                {
                    proof {
                        assert(sizes[jj as int] == cats@[jj as int].size);
                        assert(sizes[j as int] == cats@[j as int].size);
                        assert(entry_sums(cats@)[jj as int] == cats@[jj as int].sum);
                        assert(entry_sums(cats@)[j as int] == cats@[j as int].sum);
                        assert(cats@[jj as int].sum == rank_sum(bests[jj as int]));
                        assert(cats@[j as int].sum == rank_sum(bests[j as int]));
                    }
                    if average_below(cats[jj].sum, cats[jj].best.len(), cats[j].sum, cats[j].best.len()) {
                        unbeaten = false;
                    }
                    jj = jj + 1;
                }
                proof {
                    assert(sizes[j as int] == s);
                    if unbeaten {
                        assert(is_tied_size(mv, s as int));
                    } else {
                        if is_tied_size(mv, s as int) {
                            let j2 = choose|j2: int| 0 <= j2 < sizes.len() && sizes[j2] == s && forall|x: int| 0 <= x < sizes.len() ==> !lower_average(#[trigger] bests[x], bests[j2]);
                            if j2 != j {
                                assert(cats@[j2].size == cats@[j as int].size);
                                assert(is_best_of_size(mv, sizes[j2], bests[j2]));
                                assert(is_best_of_size(mv, sizes[j as int], bests[j as int]));
                                lemma_best_of_size_unique(mv, s as int, bests[j2], bests[j as int]);
                            }
                        }
                    }
                }
                unbeaten
            },
        };
        proof {
            reveal(Seq::filter);
            let r0 = Seq::new(s as nat, |i: int| i);
            let r1 = Seq::new((s + 1) as nat, |i: int| i);
            assert(r1.drop_last() == r0);
            assert(r1.last() == s);
            if tied != pred(s as int) {
                if tied {
                    assert(pred(s as int));
                } else {
                    assert(!is_tied_size(mv, s as int)) by {
                        if is_tied_size(mv, s as int) {
                            let j2 = choose|j2: int| 0 <= j2 < sizes.len() && sizes[j2] == s && forall|x: int| 0 <= x < sizes.len() ==> !lower_average(#[trigger] bests[x], bests[j2]);
                            assert(cats@[j2].size == s);
                        }
                    }
                }
            }
        }
        if tied {
            t.push(s);
        }
        if s == maxs {
            more = false;
        } else {
            s = s + 1;
        }
    }
    proof {
        if moves@.len() > 0 {
            let k0 = 0int;
            assert(has_size(mv, mv[k0].len() as int));
            let j0 = choose|j: int| 0 <= j < sizes.len() && #[trigger] sizes[j] == mv[k0].len() as int;
            assert(bests.len() > 0);
            let jb = lemma_unbeaten_exists(bests);
            let sb = sizes[jb];
            assert(is_tied_size(mv, sb));
            lemma_max_size(mv);
            assert(is_best_of_size(mv, sb, bests[jb]));
            let kb = choose|k: int| 0 <= k < mv.len() && mv[k] == bests[jb];
            assert(0 <= sb <= max_size(mv));
            let range = Seq::new((maxs + 1) as nat, |i: int| i);
            assert(range[sb] == sb);
            range.lemma_filter_contains(pred, sb);
        }
    }
    t
}

/// The best move of the tied size at position `pick` of the tied sizes.
fn best_move_from(moves: &Vec<Vec<Card>>, cats: &Vec<CategoryBest>, tied: &Vec<usize>, pick: usize) -> (m: Vec<Card>)
    requires
        describes_categories(move_views(moves@), entry_sizes(cats@), entry_bests(cats@), entry_sums(cats@)),
        tied@.len() == tied_sizes(move_views(moves@)).len(),
        forall|k: int| 0 <= k < tied@.len() ==> (#[trigger] tied@[k]) as int == tied_sizes(move_views(moves@))[k],
        pick < tied@.len(),
    ensures
        m@ == best_of_size(move_views(moves@), tied_sizes(move_views(moves@))[pick as int]),
        move_views(moves@).contains(m@),
{
    let ghost mv = move_views(moves@);
    let size = tied[pick];
    proof {
        let pred = |s: int| is_tied_size(mv, s);
        let range = Seq::new((max_size(mv) + 1) as nat, |i: int| i);
        range.filter_lemma(pred);
        assert(tied_sizes(mv)[pick as int] == size);
        assert(pred(size as int));
    }
    match find_category(cats, size) {
        Some(j) => {
            proof {
                let sizes = entry_sizes(cats@);
                let bests = entry_bests(cats@);
                assert(sizes[j as int] == size);
                lemma_best_is_chosen(mv, size as int, bests[j as int]);
            }
            copy_cards(&cats[j].best)
        },
        None => {
            proof {
                let sizes = entry_sizes(cats@);
                assert(has_size(mv, size as int));
                let j = choose|j: int| 0 <= j < sizes.len() && #[trigger] sizes[j] == size as int;
                assert(cats@[j].size == size);
            }
            Vec::new()
        },
    }
}

// ----------------------------------------------------------------------------
// Chance
// ----------------------------------------------------------------------------
/// A seedable random number generator of the `rand` crate.
#[verifier::external_type_specification]
#[verifier::external_body]
pub struct ExStdRng(StdRng);

/// A number below `n` drawn with `rng` (`rand::Rng::random_range` over `0..n`, which refuses an
/// empty range). Which number comes out is left to chance.
#[verifier::external_body]
fn random_index_with(rng: &mut StdRng, n: usize) -> (r: usize)
    requires
        n > 0,
    ensures
        r < n,
{
    rng.random_range(0..n)
}

/// A number below `n` drawn with the thread's random number generator
/// (`rand::Rng::random_range` over `0..n` on `rand::rng()`). Which number comes out is left to
/// chance.
#[verifier::external_body]
pub(crate) fn random_index(n: usize) -> (r: usize)
    requires
        n > 0,
    ensures
        r < n,
{
    rand::rng().random_range(0..n)
}

// ----------------------------------------------------------------------------
// The basic strategy
// ----------------------------------------------------------------------------
/// The first seat whose player has this name.
pub open spec fn first_seat_named(players: Seq<PlayerView>, name: Seq<char>) -> int {
    choose|i: int|
        0 <= i < players.len() && players[i].name == name && forall|j: int|
            0 <= j < i ==> #[trigger] players[j].name != name
}

/// The moves the bot named `name` considers: those of the first player with that name.
pub open spec fn bot_candidates(g: GameView, name: Seq<char>) -> Seq<Seq<Card>> {
    candidate_moves(g, g.players[first_seat_named(g.players, name)].cards)
}

/// The basic strategy: among the moves that may be played, take for each number of cards the
/// one with the lowest average rank (the first in card order among equals), keep the numbers
/// of cards whose best move has no lower average against it, and pick one of those at random.
#[derive(Debug, Clone, Copy)]
pub struct BasicBotStrategy;

/// The moves are fit for choosing: the rank sum of each fits in 32 bits.
pub open spec fn moves_in_range(moves: Seq<Vec<Card>>) -> bool {
    forall|k: int| 0 <= k < moves.len() ==> rank_sum(#[trigger] moves[k]@) <= u32::MAX
}

/// What choosing with pick `pick` among `moves` gives: nothing when there are no moves,
/// otherwise the best move of the `pick`-th tied size.
pub open spec fn picked_move(moves: Seq<Seq<Card>>, pick: int) -> Option<Seq<Card>> {
    if moves.len() == 0 {
        None
    } else {
        Some(best_of_size(moves, tied_sizes(moves)[pick]))
    }
}

impl BasicBotStrategy {
    /// The strategy.
    pub fn new() -> (s: BasicBotStrategy) {
        BasicBotStrategy
    }

    /// The single cards that may be played now.
    fn find_valid_singles(&self, game: &Game, available_cards: &[Card]) -> (r: Vec<Vec<Card>>)
        ensures
            move_views(r@) == ordered_moves(game@, available_cards@, 1),
    {
        let r = find_ordered_moves(game, available_cards, 1);
        assert(move_views(r@) == ordered_moves(game@, available_cards@, 1));
        r
    }

    /// The pairs that may be played now.
    fn find_valid_pairs(&self, game: &Game, available_cards: &[Card]) -> (r: Vec<Vec<Card>>)
        ensures
            move_views(r@) == ordered_moves(game@, available_cards@, 2),
    {
        let r = find_ordered_moves(game, available_cards, 2);
        assert(move_views(r@) == ordered_moves(game@, available_cards@, 2));
        r
    }

    /// The triples that may be played now.
    fn find_valid_triples(&self, game: &Game, available_cards: &[Card]) -> (r: Vec<Vec<Card>>)
        ensures
            move_views(r@) == ordered_moves(game@, available_cards@, 3),
    {
        let r = find_ordered_moves(game, available_cards, 3);
        assert(move_views(r@) == ordered_moves(game@, available_cards@, 3));
        r
    }

    /// The five-card hands that may be played now.
    fn find_valid_five_card_hands(&self, game: &Game, available_cards: &[Card]) -> (r: Vec<
        Vec<Card>,
    >)
        ensures
            move_views(r@) == ordered_moves(game@, available_cards@, 5),
    {
        let r = find_ordered_moves(game, available_cards, 5);
        assert(move_views(r@) == ordered_moves(game@, available_cards@, 5));
        r
    }

    /// The entries and tied sizes for `moves`.
    fn tied_categories(moves: &Vec<Vec<Card>>) -> (r: (Vec<CategoryBest>, Vec<usize>))
        requires
            moves_in_range(moves@),
        ensures
            describes_categories(
                move_views(moves@),
                entry_sizes(r.0@),
                entry_bests(r.0@),
                entry_sums(r.0@),
            ),
            r.1@.len() == tied_sizes(move_views(moves@)).len(),
            forall|k: int|
                0 <= k < r.1@.len() ==> (#[trigger] r.1@[k]) as int == tied_sizes(
                    move_views(moves@),
                )[k],
            moves@.len() > 0 ==> r.1@.len() > 0,
    {
        let ghost mv = move_views(moves@);
        proof {
            assert forall|k: int| 0 <= k < moves@.len() implies rank_sum(#[trigger] moves@[k]@)
                <= u32::MAX by {
                assert(mv[k] == moves@[k]@);
            }
        }
        let cats = category_bests(moves);
        proof {
            let sizes = entry_sizes(cats@);
            let bests = entry_bests(cats@);
            let sums = entry_sums(cats@);
            assert forall|j: int| 0 <= j < bests.len() implies is_best_of_size(
                mv,
                #[trigger] sizes[j],
                bests[j],
            ) && sums[j] == rank_sum(bests[j]) by {
                assert(cats@[j].size as int == sizes[j]);
            }
            assert forall|s: int| #[trigger] has_size(mv, s) <==> exists|j: int|
                0 <= j < sizes.len() && #[trigger] sizes[j] == s by {
                if has_size(mv, s) {
                    let j = choose|j: int| 0 <= j < cats@.len() && (#[trigger] cats@[j]).size == s;
                    assert(sizes[j] == s);
                }
                if exists|j: int| 0 <= j < sizes.len() && #[trigger] sizes[j] == s {
                    let j = choose|j: int| 0 <= j < sizes.len() && #[trigger] sizes[j] == s;
                    assert(cats@[j].size == s);
                }
            }
            assert forall|j: int| 0 <= j < cats@.len() implies (#[trigger] cats@[j]).sum
                <= u32::MAX by {
                assert(is_best_of_size(mv, cats@[j].size as int, cats@[j].best@));
                let k = choose|k: int| 0 <= k < mv.len() && mv[k] == cats@[j].best@;
                assert(mv[k] == moves@[k]@);
            }
        }
        let tied = tied_category_sizes(moves, &cats);
        (cats, tied)
    }

    /// The move that choosing with pick `pick` gives (see `picked_move`): every choice of the
    /// strategy is one of these, for a pick below the number of tied sizes.
    pub fn pick_best_move(&self, valid_moves: &Vec<Vec<Card>>, pick: usize) -> (r: Option<
        Vec<Card>,
    >)
        requires
            moves_in_range(valid_moves@),
            valid_moves@.len() > 0 ==> pick < tied_sizes(move_views(valid_moves@)).len(),
        ensures
            match r {
                None => picked_move(move_views(valid_moves@), pick as int) is None,
                Some(m) => picked_move(move_views(valid_moves@), pick as int) == Some(m@),
            },
    {
        if valid_moves.len() == 0 {
            return None;
        }
        let (cats, tied) = Self::tied_categories(valid_moves);
        Some(best_move_from(valid_moves, &cats, &tied, pick))
    }

    /// Chooses a move at random among the best ones (see `BasicBotStrategy`); nothing when
    /// there are no moves.
    fn choose_best_move(&self, valid_moves: Vec<Vec<Card>>) -> (r: Option<Vec<Card>>)
        requires
            moves_in_range(valid_moves@),
        ensures
            match r {
                None => valid_moves@.len() == 0,
                Some(m) => exists|pick: int|
                    0 <= pick < tied_sizes(move_views(valid_moves@)).len() && picked_move(
                        move_views(valid_moves@),
                        pick,
                    ) == Some(m@),
            },
    {
        if valid_moves.len() == 0 {
            return None;
        }
        let (cats, tied) = Self::tied_categories(&valid_moves);
        let pick = random_index(tied.len());
        let m = best_move_from(&valid_moves, &cats, &tied, pick);
        proof {
            let mv = move_views(valid_moves@);
            assert(picked_move(mv, pick as int) == Some(m@));
        }
        Some(m)
    }

    /// Chooses a move among the best ones (see `BasicBotStrategy`), drawing the pick with
    /// `rng`; nothing when there are no moves.
    pub fn choose_best_move_with_rng(&self, valid_moves: Vec<Vec<Card>>, rng: &mut StdRng) -> (r:
        Option<Vec<Card>>)
        requires
            moves_in_range(valid_moves@),
        ensures
            match r {
                None => valid_moves@.len() == 0,
                Some(m) => exists|pick: int|
                    0 <= pick < tied_sizes(move_views(valid_moves@)).len() && picked_move(
                        move_views(valid_moves@),
                        pick,
                    ) == Some(m@),
            },
    {
        if valid_moves.len() == 0 {
            return None;
        }
        let (cats, tied) = Self::tied_categories(&valid_moves);
        let pick = random_index_with(rng, tied.len());
        let m = best_move_from(&valid_moves, &cats, &tied, pick);
        proof {
            let mv = move_views(valid_moves@);
            assert(picked_move(mv, pick as int) == Some(m@));
        }
        Some(m)
    }
}

/// Each move the bot finds may be played now and is made of the bot's own cards.
pub proof fn lemma_ordered_move(g: GameView, cards: Seq<Card>, size: int, i: int)
    requires
        0 <= i < ordered_moves(g, cards, size).len(),
    ensures
        valid_move(g, ordered_moves(g, cards, size)[i]),
        ordered_moves(g, cards, size)[i].len() == size,
        ordered_moves(g, cards, size)[i].to_multiset().subset_of(cards.to_multiset()),
        forall|j: int|
            0 <= j < size ==> cards.contains(#[trigger] ordered_moves(g, cards, size)[i][j]),
{
    let all = all_combinations(cards, size);
    let pred = |m: Seq<Card>| valid_move(g, m);
    all.filter_lemma(pred);
    let m = all.filter(pred)[i];
    assert(all.filter(pred).contains(m));
    all.lemma_filter_contains_rev(pred, m);
    let k = choose|k: int| 0 <= k < all.len() && all[k] == m;
    lemma_combination_cards(cards, size, k);
}

/// Every move the bot considers may be played now, has one, two, three or five cards, all of
/// them the bot's own, and a small rank sum.
pub proof fn lemma_candidate_moves(g: GameView, cards: Seq<Card>, k: int)
    requires
        0 <= k < candidate_moves(g, cards).len(),
    ensures
        ({
            let m = candidate_moves(g, cards)[k];
            &&& valid_move(g, m)
            &&& 1 <= m.len() <= 5
            &&& m.to_multiset().subset_of(cards.to_multiset())
            &&& forall|j: int| 0 <= j < m.len() ==> cards.contains(#[trigger] m[j])
            &&& 0 <= rank_sum(m) <= 60
        }),
{
    let o1 = ordered_moves(g, cards, 1);
    let o2 = ordered_moves(g, cards, 2);
    let o3 = ordered_moves(g, cards, 3);
    let o5 = ordered_moves(g, cards, 5);
    let all = candidate_moves(g, cards);
    assert(all == o1 + o2 + o3 + o5);
    let m = all[k];
    if k < o1.len() {
        assert(m == o1[k]);
        lemma_ordered_move(g, cards, 1, k);
    } else if k < o1.len() + o2.len() {
        assert(m == o2[k - o1.len()]);
        lemma_ordered_move(g, cards, 2, k - o1.len());
    } else if k < o1.len() + o2.len() + o3.len() {
        assert(m == o3[k - o1.len() - o2.len()]);
        lemma_ordered_move(g, cards, 3, k - o1.len() - o2.len());
    } else {
        assert(m == o5[k - o1.len() - o2.len() - o3.len()]);
        lemma_ordered_move(g, cards, 5, k - o1.len() - o2.len() - o3.len());
    }
    lemma_rank_sum_bounds(m, 0);
}

impl BotStrategy for BasicBotStrategy {
    /// When it is the bot's turn, the move chosen among those the bot may play with the cards of
    /// the first player of that name (see `BasicBotStrategy`); nothing when it is not the bot's
    /// turn or no move may be played.
    fn decide_move(&self, game: &Game, bot_uuid: &str) -> (r: Option<Vec<Card>>)
        ensures
            ({
                let g = game@;
                let name = bot_uuid@;
                let cands = bot_candidates(g, name);
                if g.players[g.current_turn as int].name != name {
                    r is None
                } else {
                    match r {
                        None => cands.len() == 0,
                        Some(m) => exists|pick: int|
                            0 <= pick < tied_sizes(cands).len() && picked_move(cands, pick) == Some(
                                m@,
                            ),
                    }
                }
            }),
    {
        let ghost g = game@;
        let name = String::from_str(bot_uuid);
        if !(game.current_player_turn() == name) {
            return None;
        }
        let players = game.players();
        let mut seat: usize = 0;
        while seat < players.len()
            invariant
                seat <= players@.len(),
                crate::game::player_views(players@) == g.players,
                g.players[g.current_turn as int].name == bot_uuid@,
                0 <= g.current_turn < g.players.len(),
                name@ == bot_uuid@,
                forall|j: int| 0 <= j < seat ==> #[trigger] g.players[j].name != bot_uuid@,
            ensures
                seat <= players@.len(),
                forall|j: int| 0 <= j < seat ==> #[trigger] g.players[j].name != bot_uuid@,
                seat < players@.len() ==> g.players[seat as int].name == bot_uuid@,
            decreases players@.len() - seat,
        {
            proof {
                assert(g.players[seat as int] == players@[seat as int]@);
            }
            if players[seat].name == name {
                break;
            }
            seat = seat + 1;
        }
        proof {
            assert(seat < players@.len()) by {
                if seat == players@.len() {
                    assert(g.players[g.current_turn as int].name != bot_uuid@);
                }
            }
            assert(g.players[seat as int].name == bot_uuid@);
            let f = first_seat_named(g.players, bot_uuid@);
            assert(0 <= f < g.players.len() && g.players[f].name == bot_uuid@ && forall|j: int|
                0 <= j < f ==> #[trigger] g.players[j].name != bot_uuid@);
            if f < seat {
            } else if f > seat {
                assert(g.players[seat as int].name != bot_uuid@);
            }
            assert(f == seat);
        }
        let available_cards = players[seat].cards.as_slice();
        let mut all_valid_moves = self.find_valid_singles(game, available_cards);
        if available_cards.len() >= 2 {
            let mut pairs = self.find_valid_pairs(game, available_cards);
            all_valid_moves.append(&mut pairs);
        }
        if available_cards.len() >= 3 {
            let mut triples = self.find_valid_triples(game, available_cards);
            all_valid_moves.append(&mut triples);
        }
        if available_cards.len() >= 5 {
            let mut fives = self.find_valid_five_card_hands(game, available_cards);
            all_valid_moves.append(&mut fives);
        }
        proof {
            let cards = available_cards@;
            assert(cards.len() < 2 ==> ordered_moves(g, cards, 2) == Seq::<Seq<Card>>::empty());
            assert(cards.len() < 3 ==> ordered_moves(g, cards, 3) == Seq::<Seq<Card>>::empty());
            assert(cards.len() < 5 ==> ordered_moves(g, cards, 5) == Seq::<Seq<Card>>::empty());
            assert(move_views(all_valid_moves@) == candidate_moves(g, cards));
            assert forall|k: int| 0 <= k < all_valid_moves@.len() implies rank_sum(
                #[trigger] all_valid_moves@[k]@,
            ) <= u32::MAX by {
                assert(move_views(all_valid_moves@)[k] == all_valid_moves@[k]@);
                lemma_candidate_moves(g, cards, k);
            }
        }
        proof {
            assert(bot_candidates(g, bot_uuid@) == move_views(all_valid_moves@));
        }
        self.choose_best_move(all_valid_moves)
    }

    /// "BasicBotStrategy".
    fn strategy_name(&self) -> (name: &'static str)
        ensures
            name@ == "BasicBotStrategy"@,
    {
        "BasicBotStrategy"
    }
}

// ----------------------------------------------------------------------------
// Laws of the basic strategy
// ----------------------------------------------------------------------------
/// Every size that occurs among the moves has a best move.
pub proof fn lemma_best_exists(moves: Seq<Seq<Card>>, size: int)
    requires
        has_size(moves, size),
    ensures
        is_best_of_size(moves, size, best_of_size(moves, size)),
    decreases moves.len(),
{
    let n = moves.len() as int;
    let pre = moves.drop_last();
    let last = moves[n - 1];
    let b: Seq<Card> = if has_size(pre, size) {
        lemma_best_exists(pre, size);
        best_of_size(pre, size)
    } else {
        last
    };
    let w = if has_size(pre, size) && !(last.len() == size && better_move(last, b)) {
        b
    } else {
        last
    };
    if has_size(pre, size) {
        let kb = choose|k: int| 0 <= k < pre.len() && pre[k] == b;
        assert(moves[kb] == b);
    } else {
        let k = choose|k: int| 0 <= k < moves.len() && #[trigger] moves[k].len() == size;
        if k < n - 1 {
            assert(pre[k] == moves[k]);
        }
    }
    assert(moves[n - 1] == last);
    assert forall|k: int| 0 <= k < moves.len() && (#[trigger] moves[k]).len() == size implies !better_move(moves[k], w) by {
        if k < n - 1 {
            assert(pre[k] == moves[k]);
            if has_size(pre, size) {
                assert(!better_move(pre[k], b));
                if w == last && better_move(moves[k], last) {
                    lemma_better_transitive(moves[k], last, b);
                }
            } else {
                assert(has_size(pre, size));
            }
        } else {
            if w == last {
                lemma_better_irreflexive(last);
            }
        }
    }
    assert(is_best_of_size(moves, size, w));
}

/// A tied size is a size that occurs.
proof fn lemma_tied_size(moves: Seq<Seq<Card>>, pick: int)
    requires
        0 <= pick < tied_sizes(moves).len(),
    ensures
        is_tied_size(moves, tied_sizes(moves)[pick]),
{
    let pred = |s: int| is_tied_size(moves, s);
    let range = Seq::new((max_size(moves) + 1) as nat, |i: int| i);
    range.filter_lemma(pred);
}

/// The chosen move is one of the moves.
pub proof fn lemma_picked_move_is_a_move(moves: Seq<Seq<Card>>, pick: int)
    requires
        moves.len() > 0,
        0 <= pick < tied_sizes(moves).len(),
    ensures
        picked_move(moves, pick) matches Some(m) && moves.contains(m),
{
    lemma_tied_size(moves, pick);
    lemma_best_exists(moves, tied_sizes(moves)[pick]);
}

/// Every move the bot considers may be played by the player whose turn it is: the game
/// accepts it.
pub proof fn lemma_candidate_is_accepted(g: GameView, k: int)
    requires
        0 <= g.current_turn < g.players.len(),
        0 <= k < candidate_moves(g, g.players[g.current_turn as int].cards).len(),
    ensures
        play_result(
            g,
            g.players[g.current_turn as int].name,
            candidate_moves(g, g.players[g.current_turn as int].cards)[k],
        ) is Ok,
{
    let cards = g.players[g.current_turn as int].cards;
    let m = candidate_moves(g, cards)[k];
    lemma_candidate_moves(g, cards, k);
    crate::game::lemma_first_unowned_none(cards, m);
}

/// A bot never makes a move the game refuses: when it is the bot's turn (and the bot is the
/// first player of its name), whatever pick it draws, the move it chooses is accepted.
pub proof fn lemma_bot_move_is_accepted(g: GameView, name: Seq<char>, pick: int)
    requires
        0 <= g.current_turn < g.players.len(),
        g.players[g.current_turn as int].name == name,
        first_seat_named(g.players, name) == g.current_turn,
        bot_candidates(g, name).len() > 0,
        0 <= pick < tied_sizes(bot_candidates(g, name)).len(),
    ensures
        picked_move(bot_candidates(g, name), pick) matches Some(m) && play_result(g, name, m) is Ok,
{
    let cands = bot_candidates(g, name);
    lemma_picked_move_is_a_move(cands, pick);
    let m = picked_move(cands, pick)->Some_0;
    let k = choose|k: int| 0 <= k < cands.len() && cands[k] == m;
    lemma_candidate_is_accepted(g, k);
}

/// Of three moves with cards, if the first has a lower average than the third, it has a lower
/// average than the second, or the second than the third.
proof fn lemma_lower_average_split(a: Seq<Card>, b: Seq<Card>, c: Seq<Card>)
    requires
        a.len() > 0,
        b.len() > 0,
        c.len() > 0,
        lower_average(a, c),
    ensures
        lower_average(a, b) || lower_average(b, c),
{
    lemma_rank_sum_bounds(a, 0);
    lemma_rank_sum_bounds(b, 0);
    lemma_rank_sum_bounds(c, 0);
    let (sa, la) = (rank_sum(a), a.len() as int);
    let (sb, lb) = (rank_sum(b), b.len() as int);
    let (sc, lc) = (rank_sum(c), c.len() as int);
    if !lower_average(a, b) {
        assert(sb * lc < sc * lb) by (nonlinear_arith)
            requires
                la > 0,
                lb > 0,
                lc > 0,
                sa * lc < sc * la,
                sb * la <= sa * lb,
        {
            assert(sb * la * lc <= sa * lb * lc);
            assert(sa * lc * lb < sc * la * lb);
            assert(sb * lc * la < sc * lb * la);
        }
    }
}

/// The bot plays its lowest cards: no move (with cards) has a lower average rank than the
/// move it chooses, whatever pick it draws.
pub proof fn lemma_picked_move_has_lowest_average(moves: Seq<Seq<Card>>, pick: int)
    requires
        moves.len() > 0,
        0 <= pick < tied_sizes(moves).len(),
        forall|k: int| 0 <= k < moves.len() ==> (#[trigger] moves[k]).len() > 0,
    ensures
        picked_move(moves, pick) matches Some(m) && forall|k: int|
            0 <= k < moves.len() ==> !lower_average(#[trigger] moves[k], m),
{
    let t = tied_sizes(moves)[pick];
    lemma_tied_size(moves, pick);
    lemma_best_exists(moves, t);
    let m = best_of_size(moves, t);
    assert forall|k: int| 0 <= k < moves.len() implies !lower_average(#[trigger] moves[k], m) by {
        let s = moves[k].len() as int;
        assert(has_size(moves, s));
        lemma_best_exists(moves, s);
        let b = best_of_size(moves, s);
        assert(!better_move(moves[k], b));
        assert(!lower_average(b, m));
        let kb = choose|j: int| 0 <= j < moves.len() && moves[j] == b;
        let km = choose|j: int| 0 <= j < moves.len() && moves[j] == m;
        assert(b.len() > 0 && m.len() > 0) by {
            assert(moves[kb].len() > 0);
            assert(moves[km].len() > 0);
        }
        if lower_average(moves[k], m) {
            lemma_lower_average_split(moves[k], b, m);
        }
    }
}

} // verus!
