use vstd::prelude::*;

use crate::hands::HandError;
use vstd::string::StringSliceAdditionalSpecFns;

verus! {

/// The four suits, from lowest to highest.
#[derive(Debug, Clone, Copy, PartialEq, Eq, Hash, PartialOrd, Ord, Structural)]
pub enum Suit {
    Diamonds,
    Clubs,
    Hearts,
    Spades,
}

/// The thirteen ranks in Big Two order: Three is the lowest, Two the highest.
#[derive(Debug, Clone, Copy, PartialEq, Eq, Hash, PartialOrd, Ord, Structural)]
pub enum Rank {
    Three,
    Four,
    Five,
    Six,
    Seven,
    Eight,
    Nine,
    Ten,
    Jack,
    Queen,
    King,
    Ace,
    Two,
}

/// A playing card. Cards are ordered by rank first and by suit second.
#[derive(Debug, Clone, Copy, PartialEq, Eq, Hash, PartialOrd, Ord, Structural)]
pub struct Card {
    pub rank: Rank,
    pub suit: Suit,
}

/// Position of a suit in the suit order (Diamonds lowest, Spades highest).
pub open spec fn suit_index(s: Suit) -> int {
    match s {
        Suit::Diamonds => 0,
        Suit::Clubs => 1,
        Suit::Hearts => 2,
        Suit::Spades => 3,
    }
}

/// Position of a rank in the rank order (Three lowest, Two highest).
pub open spec fn rank_index(r: Rank) -> int {
    match r {
        Rank::Three => 0,
        Rank::Four => 1,
        Rank::Five => 2,
        Rank::Six => 3,
        Rank::Seven => 4,
        Rank::Eight => 5,
        Rank::Nine => 6,
        Rank::Ten => 7,
        Rank::Jack => 8,
        Rank::Queen => 9,
        Rank::King => 10,
        Rank::Ace => 11,
        Rank::Two => 12,
    }
}

/// The suit at a position of the suit order.
pub open spec fn suit_at(i: int) -> Suit {
    if i <= 0 {
        Suit::Diamonds
    } else if i == 1 {
        Suit::Clubs
    } else if i == 2 {
        Suit::Hearts
    } else {
        Suit::Spades
    }
}

/// The rank at a position of the rank order.
pub open spec fn rank_at(i: int) -> Rank {
    if i <= 0 {
        Rank::Three
    } else if i == 1 {
        Rank::Four
    } else if i == 2 {
        Rank::Five
    } else if i == 3 {
        Rank::Six
    } else if i == 4 {
        Rank::Seven
    } else if i == 5 {
        Rank::Eight
    } else if i == 6 {
        Rank::Nine
    } else if i == 7 {
        Rank::Ten
    } else if i == 8 {
        Rank::Jack
    } else if i == 9 {
        Rank::Queen
    } else if i == 10 {
        Rank::King
    } else if i == 11 {
        Rank::Ace
    } else {
        Rank::Two
    }
}

/// The total order on cards as one number: rank first, suit second.
pub open spec fn card_key(c: Card) -> int {
    rank_index(c.rank) * 4 + suit_index(c.suit)
}

/// The full deck of 52 cards: suit by suit from Diamonds, and within a suit by rank from Three.
pub open spec fn full_deck() -> Seq<Card> {
    Seq::new(52, |i: int| Card { rank: rank_at(i % 13), suit: suit_at(i / 13) })
}

/// `a` is ordered at or below `b`.
pub open spec fn card_le(a: Card, b: Card) -> bool {
    card_key(a) <= card_key(b)
}

/// The one-character symbol of a rank.
pub open spec fn rank_char(r: Rank) -> char {
    match r {
        Rank::Three => '3',
        Rank::Four => '4',
        Rank::Five => '5',
        Rank::Six => '6',
        Rank::Seven => '7',
        Rank::Eight => '8',
        Rank::Nine => '9',
        Rank::Ten => 'T',
        Rank::Jack => 'J',
        Rank::Queen => 'Q',
        Rank::King => 'K',
        Rank::Ace => 'A',
        Rank::Two => '2',
    }
}

/// The one-character symbol of a suit.
pub open spec fn suit_char(s: Suit) -> char {
    match s {
        Suit::Diamonds => 'D',
        Suit::Clubs => 'C',
        Suit::Hearts => 'H',
        Suit::Spades => 'S',
    }
}

/// The rank whose symbol is `c`, if any.
pub open spec fn rank_from_char(c: char) -> Option<Rank> {
    if c == '3' {
        Some(Rank::Three)
    } else if c == '4' {
        Some(Rank::Four)
    } else if c == '5' {
        Some(Rank::Five)
    } else if c == '6' {
        Some(Rank::Six)
    } else if c == '7' {
        Some(Rank::Seven)
    } else if c == '8' {
        Some(Rank::Eight)
    } else if c == '9' {
        Some(Rank::Nine)
    } else if c == 'T' {
        Some(Rank::Ten)
    } else if c == 'J' {
        Some(Rank::Jack)
    } else if c == 'Q' {
        Some(Rank::Queen)
    } else if c == 'K' {
        Some(Rank::King)
    } else if c == 'A' {
        Some(Rank::Ace)
    } else if c == '2' {
        Some(Rank::Two)
    } else {
        None
    }
}

/// The suit whose symbol is `c`, if any.
pub open spec fn suit_from_char(c: char) -> Option<Suit> {
    if c == 'D' {
        Some(Suit::Diamonds)
    } else if c == 'C' {
        Some(Suit::Clubs)
    } else if c == 'H' {
        Some(Suit::Hearts)
    } else if c == 'S' {
        Some(Suit::Spades)
    } else {
        None
    }
}

/// The rank written as the text `t` (exactly one symbol), if any.
pub open spec fn rank_from_text(t: Seq<char>) -> Option<Rank> {
    if t.len() == 1 {
        rank_from_char(t[0])
    } else {
        None
    }
}

/// The suit written as the text `t` (exactly one symbol), if any.
pub open spec fn suit_from_text(t: Seq<char>) -> Option<Suit> {
    if t.len() == 1 {
        suit_from_char(t[0])
    } else {
        None
    }
}

/// The text of a card: its rank symbol followed by its suit symbol.
pub open spec fn card_text(c: Card) -> Seq<char> {
    seq![rank_char(c.rank), suit_char(c.suit)]
}

/// The card written as the text `t` (rank symbol then suit symbol), if any.
pub open spec fn card_from_text(t: Seq<char>) -> Option<Card> {
    if t.len() == 2 && rank_from_char(t[0]) is Some && suit_from_char(t[1]) is Some {
        Some(Card { rank: rank_from_char(t[0])->Some_0, suit: suit_from_char(t[1])->Some_0 })
    } else {
        None
    }
}

/// Card keys identify cards: distinct cards have distinct keys.
pub proof fn lemma_card_key_injective(a: Card, b: Card)
    ensures
        card_key(a) == card_key(b) <==> a == b,
        0 <= card_key(a) < 52,
{
}

/// The symbols of ranks and suits read back as the same rank and suit.
pub proof fn lemma_symbols_roundtrip(r: Rank, s: Suit)
    ensures
        rank_from_char(rank_char(r)) == Some(r),
        suit_from_char(suit_char(s)) == Some(s),
        rank_at(rank_index(r)) == r,
        suit_at(suit_index(s)) == s,
        0 <= rank_index(r) < 13,
        0 <= suit_index(s) < 4,
{
}

/// Every card reads back from its own text.
pub proof fn lemma_card_text_roundtrip(c: Card)
    ensures
        card_from_text(card_text(c)) == Some(c),
{
    lemma_symbols_roundtrip(c.rank, c.suit);
}

impl Suit {
    /// Position of this suit in the suit order, as a number.
    pub fn value(&self) -> (v: u8)
        ensures
            v == suit_index(*self),
    {
        match self {
            Suit::Diamonds => 0,
            Suit::Clubs => 1,
            Suit::Hearts => 2,
            Suit::Spades => 3,
        }
    }

    /// The suit whose symbol is `c`, if any.
    pub fn from_symbol(c: char) -> (r: Option<Suit>)
        ensures
            r == suit_from_char(c),
    {
        if c == 'D' {
            Some(Suit::Diamonds)
        } else if c == 'C' {
            Some(Suit::Clubs)
        } else if c == 'H' {
            Some(Suit::Hearts)
        } else if c == 'S' {
            Some(Suit::Spades)
        } else {
            None
        }
    }

    /// All suits, lowest first.
    pub fn all() -> (r: Vec<Suit>)
        ensures
            r@ == seq![Suit::Diamonds, Suit::Clubs, Suit::Hearts, Suit::Spades],
    {
        vec![Suit::Diamonds, Suit::Clubs, Suit::Hearts, Suit::Spades]
    }

    fn symbol(&self) -> (t: &'static str)
        ensures
            t@ == seq![suit_char(*self)],
    {
        match self {
            Suit::Diamonds => {
                proof {
                    reveal_strlit("D");
                }
                "D"
            },
            Suit::Clubs => {
                proof {
                    reveal_strlit("C");
                }
                "C"
            },
            Suit::Hearts => {
                proof {
                    reveal_strlit("H");
                }
                "H"
            },
            Suit::Spades => {
                proof {
                    reveal_strlit("S");
                }
                "S"
            },
        }
    }

    /// The symbol of this suit as text ("D", "C", "H" or "S").
    pub fn to_string(&self) -> (t: String)
        ensures
            t@ == seq![suit_char(*self)],
    {
        String::from_str(self.symbol())
    }

    /// Reads a suit from its one-symbol text; any other text is refused and handed back.
    pub fn try_from(s: &str) -> (r: Result<Suit, String>)
        ensures
            match suit_from_text(s@) {
                Some(suit) => r == Ok::<Suit, String>(suit),
                None => r matches Err(e) && e@ == s@,
            },
    {
        if s.unicode_len() != 1 {
            return Err(s.to_string());
        }
        let c = s.get_char(0);
        if c == 'D' {
            Ok(Suit::Diamonds)
        } else if c == 'C' {
            Ok(Suit::Clubs)
        } else if c == 'H' {
            Ok(Suit::Hearts)
        } else if c == 'S' {
            Ok(Suit::Spades)
        } else {
            Err(s.to_string())
        }
    }
}


impl Rank {
    /// Position of this rank in the rank order, as a number.
    pub fn value(&self) -> (v: u8)
        ensures
            v == rank_index(*self),
    {
        match self {
            Rank::Three => 0,
            Rank::Four => 1,
            Rank::Five => 2,
            Rank::Six => 3,
            Rank::Seven => 4,
            Rank::Eight => 5,
            Rank::Nine => 6,
            Rank::Ten => 7,
            Rank::Jack => 8,
            Rank::Queen => 9,
            Rank::King => 10,
            Rank::Ace => 11,
            Rank::Two => 12,
        }
    }

    /// All ranks, lowest (Three) first.
    pub fn all() -> (r: Vec<Rank>)
        ensures
            r@.len() == 13,
            forall|i: int| 0 <= i < 13 ==> #[trigger] r@[i] == rank_at(i),
    {
        vec![Rank::Three, Rank::Four, Rank::Five, Rank::Six, Rank::Seven, Rank::Eight, Rank::Nine, Rank::Ten, Rank::Jack, Rank::Queen, Rank::King, Rank::Ace, Rank::Two]
    }

    /// The rank whose symbol is `c`, if any.
    pub fn from_symbol(c: char) -> (r: Option<Rank>)
        ensures
            r == rank_from_char(c),
    {
        if c == '3' {
            Some(Rank::Three)
        } else if c == '4' {
            Some(Rank::Four)
        } else if c == '5' {
            Some(Rank::Five)
        } else if c == '6' {
            Some(Rank::Six)
        } else if c == '7' {
            Some(Rank::Seven)
        } else if c == '8' {
            Some(Rank::Eight)
        } else if c == '9' {
            Some(Rank::Nine)
        } else if c == 'T' {
            Some(Rank::Ten)
        } else if c == 'J' {
            Some(Rank::Jack)
        } else if c == 'Q' {
            Some(Rank::Queen)
        } else if c == 'K' {
            Some(Rank::King)
        } else if c == 'A' {
            Some(Rank::Ace)
        } else if c == '2' {
            Some(Rank::Two)
        } else {
            None
        }
    }

    fn symbol(&self) -> (t: &'static str)
        ensures
            t@ == seq![rank_char(*self)],
    {
        match self {
            Rank::Three => {
                proof {
                    reveal_strlit("3");
                }
                "3"
            },
            Rank::Four => {
                proof {
                    reveal_strlit("4");
                }
                "4"
            },
            Rank::Five => {
                proof {
                    reveal_strlit("5");
                }
                "5"
            },
            Rank::Six => {
                proof {
                    reveal_strlit("6");
                }
                "6"
            },
            Rank::Seven => {
                proof {
                    reveal_strlit("7");
                }
                "7"
            },
            Rank::Eight => {
                proof {
                    reveal_strlit("8");
                }
                "8"
            },
            Rank::Nine => {
                proof {
                    reveal_strlit("9");
                }
                "9"
            },
            Rank::Ten => {
                proof {
                    reveal_strlit("T");
                }
                "T"
            },
            Rank::Jack => {
                proof {
                    reveal_strlit("J");
                }
                "J"
            },
            Rank::Queen => {
                proof {
                    reveal_strlit("Q");
                }
                "Q"
            },
            Rank::King => {
                proof {
                    reveal_strlit("K");
                }
                "K"
            },
            Rank::Ace => {
                proof {
                    reveal_strlit("A");
                }
                "A"
            },
            Rank::Two => {
                proof {
                    reveal_strlit("2");
                }
                "2"
            },
        }
    }

    /// The symbol of this rank as text ("3" ... "9", "T", "J", "Q", "K", "A", "2").
    pub fn to_string(&self) -> (t: String)
        ensures
            t@ == seq![rank_char(*self)],
    {
        String::from_str(self.symbol())
    }

    /// Reads a rank from its one-symbol text; any other text is refused and handed back.
    pub fn try_from(s: &str) -> (r: Result<Rank, String>)
        ensures
            match rank_from_text(s@) {
                Some(rank) => r == Ok::<Rank, String>(rank),
                None => r matches Err(e) && e@ == s@,
            },
    {
        if s.unicode_len() != 1 {
            return Err(s.to_string());
        }
        match Rank::from_symbol(s.get_char(0)) {
            Some(rank) => Ok(rank),
            None => Err(s.to_string()),
        }
    }
}


impl Card {
    /// The card of the given rank and suit.
    pub fn new(rank: Rank, suit: Suit) -> (c: Card)
        ensures
            c == (Card { rank, suit }),
    {
        Card { rank, suit }
    }

    /// Position of this card in the card order (rank first, suit second), as a number.
    pub fn key(&self) -> (k: u8)
        ensures
            k == card_key(*self),
            k < 52,
    {
        self.rank.value() * 4 + self.suit.value()
    }

    /// Reads a card from two symbols, rank then suit ("KH", "2S", "TD").
    /// Text of any other length, or with an unknown symbol, is refused.
    pub fn from_string(s: &str) -> (r: Result<Card, HandError>)
        requires
            s.spec_bytes().len() == 2 ==> vstd::string::is_ascii(s),
        ensures
            r == match card_from_text(s@) {
                Some(c) => Ok::<Card, HandError>(c),
                None => Err(HandError::InvalidHandType),
            },
    {
        // For ASCII text the byte length equals the number of symbols; text of two
        // bytes that is not ASCII is a single symbol, which the precondition leaves out.
        if !s.is_ascii() || s.unicode_len() != 2 {
            proof {
                if card_from_text(s@) is Some {
                    assert(vstd::utf8::is_ascii_chars(s@));
                }
            }
            return Err(HandError::InvalidHandType);
        }
        let rank = match Rank::from_symbol(s.get_char(0)) {
            Some(rank) => rank,
            None => {
                return Err(HandError::InvalidHandType);
            },
        };
        let suit = match Suit::from_symbol(s.get_char(1)) {
            Some(suit) => suit,
            None => {
                return Err(HandError::InvalidHandType);
            },
        };
        Ok(Card::new(rank, suit))
    }

    /// The text of this card: rank symbol then suit symbol ("KH").
    pub fn to_string(&self) -> (t: String)
        ensures
            t@ == card_text(*self),
    {
        let mut t = String::from_str(self.rank.symbol());
        t.append(self.suit.symbol());
        t
    }

    /// The full deck of 52 cards: suit by suit from Diamonds, and within a suit by rank from Three.
    pub fn all_cards() -> (cards: Vec<Card>)
        ensures
            cards@ == full_deck(),
            cards@.len() == 52,
            forall|i: int|
                0 <= i < 52 ==> #[trigger] cards@[i] == (Card { rank: rank_at(i % 13), suit: suit_at(i / 13) }),
    {
        let suits = Suit::all();
        let ranks = Rank::all();
        let mut cards: Vec<Card> = Vec::new();
        let mut s: usize = 0;
        while s < 4
            invariant
                0 <= s <= 4,
                suits@ == seq![Suit::Diamonds, Suit::Clubs, Suit::Hearts, Suit::Spades],
                ranks@.len() == 13,
                forall|i: int| 0 <= i < 13 ==> #[trigger] ranks@[i] == rank_at(i),
                cards@.len() == 13 * s,
                forall|i: int|
                    0 <= i < 13 * s ==> #[trigger] cards@[i] == (Card { rank: rank_at(i % 13), suit: suit_at(i / 13) }),
            decreases 4 - s,
        {
            let mut k: usize = 0;
            while k < 13
                invariant
                    0 <= s < 4,
                    0 <= k <= 13,
                    suits@ == seq![Suit::Diamonds, Suit::Clubs, Suit::Hearts, Suit::Spades],
                    ranks@.len() == 13,
                    forall|i: int| 0 <= i < 13 ==> #[trigger] ranks@[i] == rank_at(i),
                    cards@.len() == 13 * s + k,
                    forall|i: int|
                        0 <= i < 13 * s + k ==> #[trigger] cards@[i] == (Card { rank: rank_at(i % 13), suit: suit_at(i / 13) }),
                decreases 13 - k,
            {
                proof {
                    let i = 13 * s + k;
                    assert(i % 13 == k as int && i / 13 == s as int) by (nonlinear_arith)
                        requires i == 13 * s + k, 0 <= k < 13;
                    assert(suits@[s as int] == suit_at(s as int));
                }
                cards.push(Card::new(ranks[k], suits[s]));
                k = k + 1;
            }
            s = s + 1;
        }
        assert(cards@ == full_deck());
        cards
    }
}

/// The deck holds every card exactly once.
pub proof fn lemma_all_cards_complete(cards: Seq<Card>, c: Card)
    requires
        cards.len() == 52,
        forall|i: int|
            0 <= i < 52 ==> #[trigger] cards[i] == (Card { rank: rank_at(i % 13), suit: suit_at(i / 13) }),
    ensures
        cards.contains(c),
        forall|i: int, j: int| 0 <= i < j < 52 ==> cards[i] != cards[j],
{
    lemma_symbols_roundtrip(c.rank, c.suit);
    let i = suit_index(c.suit) * 13 + rank_index(c.rank);
    assert(i % 13 == rank_index(c.rank) && i / 13 == suit_index(c.suit)) by (nonlinear_arith)
        requires i == suit_index(c.suit) * 13 + rank_index(c.rank), 0 <= rank_index(c.rank) < 13;
    assert(cards[i] == c);
    assert forall|i: int, j: int| 0 <= i < j < 52 implies cards[i] != cards[j] by {
        assert(i == (i / 13) * 13 + i % 13) by (nonlinear_arith);
        assert(j == (j / 13) * 13 + j % 13) by (nonlinear_arith);
        assert(0 <= i % 13 < 13 && 0 <= j % 13 < 13) by (nonlinear_arith) requires 0 <= i, 0 <= j;
        assert(0 <= i / 13 < 4 && 0 <= j / 13 < 4) by (nonlinear_arith) requires 0 <= i < 52, 0 <= j < 52;
        if cards[i] == cards[j] {
            assert(rank_index(rank_at(i % 13)) == i % 13);
            assert(rank_index(rank_at(j % 13)) == j % 13);
            assert(suit_index(suit_at(i / 13)) == i / 13);
            assert(suit_index(suit_at(j / 13)) == j / 13);
        }
    }
}

} // verus!
