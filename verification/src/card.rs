//! The card model: thirteen ranks ordered from Three (the lowest) up to Two
//! (the highest), four suits with the fixed tie-break order
//! Clubs < Diamonds < Hearts < Spades, and the total order on cards that
//! compares by rank first and breaks ties by suit.

use vstd::prelude::*;
use vstd::string::StrSliceExecFns;

verus! {

/// The thirteen ranks. Three is the lowest and Two is the highest: this is
/// the game's signature departure from the usual rank order.
#[derive(Clone, Copy, Debug, PartialEq, Eq, Structural)]
pub enum Rank {
    Three,
    Four,
    Five,
    Six,
    Seven,
    Eight,
    Nine,
    Ten,
    Jack,
    Queen,
    King,
    Ace,
    Two,
}

/// The four suits, in the game's fixed tie-break order:
/// Clubs is the lowest, Spades the highest.
#[derive(Clone, Copy, Debug, PartialEq, Eq, Structural)]
pub enum Suit {
    Clubs,
    Diamonds,
    Hearts,
    Spades,
}

/// An immutable playing card. Cards compare by rank first, then by suit;
/// two distinct cards are never equal.
#[derive(Clone, Copy, Debug, PartialEq, Eq, Structural)]
pub struct Card {
    pub rank: Rank,
    pub suit: Suit,
}

/// The position of a rank in the game's order: Three is 0, Two is 12.
pub open spec fn rank_value(r: Rank) -> int {
    match r {
        Rank::Three => 0,
        Rank::Four => 1,
        Rank::Five => 2,
        Rank::Six => 3,
        Rank::Seven => 4,
        Rank::Eight => 5,
        Rank::Nine => 6,
        Rank::Ten => 7,
        Rank::Jack => 8,
        Rank::Queen => 9,
        Rank::King => 10,
        Rank::Ace => 11,
        Rank::Two => 12,
    }
}

/// The position of a suit in the tie-break order: Clubs is 0, Spades is 3.
pub open spec fn suit_value(s: Suit) -> int {
    match s {
        Suit::Clubs => 0,
        Suit::Diamonds => 1,
        Suit::Hearts => 2,
        Suit::Spades => 3,
    }
}

/// A card's position in the total order over all 52 cards: rank decides
/// first, suit breaks ties. Ranges over 0..52 and is injective.
pub open spec fn card_value(c: Card) -> int {
    rank_value(c.rank) * 4 + suit_value(c.suit)
}

/// The strict order on cards: `a` is strictly lower than `b`.
pub open spec fn card_below(a: Card, b: Card) -> bool {
    card_value(a) < card_value(b)
}

/// The rank whose position is `v` (for `v` in 0..13).
pub open spec fn rank_of_value(v: int) -> Rank {
    if v == 0 {
        Rank::Three
    } else if v == 1 {
        Rank::Four
    } else if v == 2 {
        Rank::Five
    } else if v == 3 {
        Rank::Six
    } else if v == 4 {
        Rank::Seven
    } else if v == 5 {
        Rank::Eight
    } else if v == 6 {
        Rank::Nine
    } else if v == 7 {
        Rank::Ten
    } else if v == 8 {
        Rank::Jack
    } else if v == 9 {
        Rank::Queen
    } else if v == 10 {
        Rank::King
    } else if v == 11 {
        Rank::Ace
    } else {
        Rank::Two
    }
}

/// The suit whose position is `v` (for `v` in 0..4).
pub open spec fn suit_of_value(v: int) -> Suit {
    if v == 0 {
        Suit::Clubs
    } else if v == 1 {
        Suit::Diamonds
    } else if v == 2 {
        Suit::Hearts
    } else {
        Suit::Spades
    }
}

/// The card whose position in the total order is `v` (for `v` in 0..52).
pub open spec fn card_of_value(v: int) -> Card {
    Card { rank: rank_of_value(v / 4), suit: suit_of_value(v % 4) }
}

/// The Three of Clubs: the unique card that the opening hand of a game must
/// contain.
pub open spec fn three_of_clubs() -> Card {
    Card { rank: Rank::Three, suit: Suit::Clubs }
}

/// `rank_value` ranges over 0..13 and `rank_of_value` inverts it.
pub proof fn lemma_rank_value(r: Rank)
    ensures
        0 <= rank_value(r) < 13,
        rank_of_value(rank_value(r)) == r,
{
    match r {
        Rank::Three => {},
        Rank::Four => {},
        Rank::Five => {},
        Rank::Six => {},
        Rank::Seven => {},
        Rank::Eight => {},
        Rank::Nine => {},
        Rank::Ten => {},
        Rank::Jack => {},
        Rank::Queen => {},
        Rank::King => {},
        Rank::Ace => {},
        Rank::Two => {},
    }
}

/// `suit_value` ranges over 0..4 and `suit_of_value` inverts it.
pub proof fn lemma_suit_value(s: Suit)
    ensures
        0 <= suit_value(s) < 4,
        suit_of_value(suit_value(s)) == s,
{
    match s {
        Suit::Clubs => {},
        Suit::Diamonds => {},
        Suit::Hearts => {},
        Suit::Spades => {},
    }
}

/// `card_value` ranges over 0..52 and `card_of_value` inverts it, so the
/// order on cards is total and two distinct cards never share a position.
pub proof fn lemma_card_value(c: Card)
    ensures
        0 <= card_value(c) < 52,
        card_of_value(card_value(c)) == c,
{
    lemma_rank_value(c.rank);
    lemma_suit_value(c.suit);
    assert(card_value(c) / 4 == rank_value(c.rank) && card_value(c) % 4 == suit_value(c.suit))
        by (nonlinear_arith)
        requires
            0 <= suit_value(c.suit) < 4,
            card_value(c) == rank_value(c.rank) * 4 + suit_value(c.suit),
    ;
}

impl Rank {
    /// The rank's position in the game's order, as a machine integer.
    pub fn number(self) -> (n: u8)
        ensures
            n as int == rank_value(self),
    {
        match self {
            Rank::Three => 0,
            Rank::Four => 1,
            Rank::Five => 2,
            Rank::Six => 3,
            Rank::Seven => 4,
            Rank::Eight => 5,
            Rank::Nine => 6,
            Rank::Ten => 7,
            Rank::Jack => 8,
            Rank::Queen => 9,
            Rank::King => 10,
            Rank::Ace => 11,
            Rank::Two => 12,
        }
    }
}

impl Suit {
    /// The suit's position in the tie-break order, as a machine integer.
    pub fn number(self) -> (n: u8)
        ensures
            n as int == suit_value(self),
    {
        match self {
            Suit::Clubs => 0,
            Suit::Diamonds => 1,
            Suit::Hearts => 2,
            Suit::Spades => 3,
        }
    }
}

impl Card {
    /// The card's position in the total order, as a machine integer.
    pub fn number(&self) -> (n: u8)
        ensures
            n as int == card_value(*self),
    {
        self.rank.number() * 4 + self.suit.number()
    }
}

/// Decides the strict order on cards: rank first, then suit.
pub fn card_lt(a: &Card, b: &Card) -> (res: bool)
    ensures
        res == card_below(*a, *b),
{
    a.number() < b.number()
}

/// A sequence of cards in ascending order: no card is strictly above a
/// later one.
pub open spec fn sorted_ascending(s: Seq<Card>) -> bool {
    forall|i: int, j: int|
        0 <= i < j < s.len() ==> card_value(#[trigger] s[i]) <= card_value(#[trigger] s[j])
}

/// Sorts cards in place into ascending order, keeping exactly the same
/// cards.
pub fn sort_cards_ascending(v: &mut Vec<Card>)
    ensures
        sorted_ascending(final(v)@),
        final(v)@.to_multiset() == old(v)@.to_multiset(),
        final(v)@.len() == old(v)@.len(),
{
    broadcast use vstd::multiset::group_multiset_axioms;

    let n = v.len();
    if n <= 1 {
        return ;
    }
    let mut i: usize = 1;
    while i < n
        invariant
            n == v@.len(),
            1 <= i <= n,
            sorted_ascending(v@.take(i as int)),
            v@.to_multiset() == old(v)@.to_multiset(),
        decreases n - i,
    {
        proof {
            assert forall|p: int, q: int| 0 <= p < q <= i && p != i && q != i implies card_value(
                v@[p],
            ) <= card_value(v@[q]) by {
                assert(card_value(v@.take(i as int)[p]) <= card_value(v@.take(i as int)[q]));
            }
        }
        let mut j: usize = i;
        while j > 0 && card_lt(&v[j], &v[j - 1])
            invariant
                n == v@.len(),
                j <= i < n,
                v@.to_multiset() == old(v)@.to_multiset(),
                forall|p: int, q: int|
                    0 <= p < q <= i && p != j && q != j ==> card_value(#[trigger] v@[p])
                        <= card_value(#[trigger] v@[q]),
                forall|q: int|
                    j < q <= i ==> card_value(v@[j as int]) <= card_value(#[trigger] v@[q]),
            decreases j,
        {
            let a = v[j - 1];
            let b = v[j];
            let ghost before = v@;
            v[j - 1] = b;
            v[j] = a;
            proof {
                let m0 = before.to_multiset();
                assert(before.contains(before[j - 1]));
                before.to_multiset_ensures();
                assert(m0.count(a) > 0);
                let mid = before.update(j - 1, b);
                vstd::seq_lib::to_multiset_update(before, j as int - 1, b);
                vstd::seq_lib::to_multiset_update(mid, j as int, a);
                assert(before.update(j - 1, b).to_multiset() == m0.insert(b).remove(a));
                assert(mid[j as int] == b);
                assert(mid.update(j as int, a).to_multiset() == mid.to_multiset().insert(a).remove(
                    b,
                ));
                assert(v@ == mid.update(j as int, a));
                assert(v@.to_multiset() =~= m0);
            }
            j -= 1;
        }
        proof {
            assert forall|p: int, q: int|
                0 <= p < q <= i implies card_value(#[trigger] v@[p]) <= card_value(
                #[trigger] v@[q],
            ) by {
                if q == j && p < j {
                    if p < j - 1 {
                        assert(card_value(v@[p]) <= card_value(v@[j - 1]));
                    }
                }
            }
            assert(sorted_ascending(v@.take(i + 1)));
        }
        i += 1;
    }
    proof {
        assert(v@.take(n as int) =~= v@);
    }
}

/// The ways a token can fail to name a card.
#[derive(Clone, Copy, Debug, PartialEq, Eq, Structural)]
pub enum ParseCardError {
    /// A card token is exactly one rank symbol and one suit symbol.
    NotTwoSymbols,
    /// The first symbol is not one of `3 4 5 6 7 8 9 T J Q K A 2`.
    BadRank,
    /// The second symbol is not one of `D C H S`.
    BadSuit,
}

/// The text symbol of a rank.
pub open spec fn rank_char(r: Rank) -> char {
    match r {
        Rank::Three => '3',
        Rank::Four => '4',
        Rank::Five => '5',
        Rank::Six => '6',
        Rank::Seven => '7',
        Rank::Eight => '8',
        Rank::Nine => '9',
        Rank::Ten => 'T',
        Rank::Jack => 'J',
        Rank::Queen => 'Q',
        Rank::King => 'K',
        Rank::Ace => 'A',
        Rank::Two => '2',
    }
}

/// The text symbol of a suit.
pub open spec fn suit_char(s: Suit) -> char {
    match s {
        Suit::Diamonds => 'D',
        Suit::Clubs => 'C',
        Suit::Hearts => 'H',
        Suit::Spades => 'S',
    }
}

/// The rank named by a symbol, if any.
pub open spec fn rank_of_char(c: char) -> Option<Rank> {
    if c == '3' {
        Some(Rank::Three)
    } else if c == '4' {
        Some(Rank::Four)
    } else if c == '5' {
        Some(Rank::Five)
    } else if c == '6' {
        Some(Rank::Six)
    } else if c == '7' {
        Some(Rank::Seven)
    } else if c == '8' {
        Some(Rank::Eight)
    } else if c == '9' {
        Some(Rank::Nine)
    } else if c == 'T' {
        Some(Rank::Ten)
    } else if c == 'J' {
        Some(Rank::Jack)
    } else if c == 'Q' {
        Some(Rank::Queen)
    } else if c == 'K' {
        Some(Rank::King)
    } else if c == 'A' {
        Some(Rank::Ace)
    } else if c == '2' {
        Some(Rank::Two)
    } else {
        None
    }
}

/// The suit named by a symbol, if any.
pub open spec fn suit_of_char(c: char) -> Option<Suit> {
    if c == 'D' {
        Some(Suit::Diamonds)
    } else if c == 'C' {
        Some(Suit::Clubs)
    } else if c == 'H' {
        Some(Suit::Hearts)
    } else if c == 'S' {
        Some(Suit::Spades)
    } else {
        None
    }
}

/// The card named by a token of characters: exactly one rank symbol followed
/// by one suit symbol.
pub open spec fn parse_card_chars(t: Seq<char>) -> Result<Card, ParseCardError> {
    if t.len() != 2 {
        Err(ParseCardError::NotTwoSymbols)
    } else {
        match rank_of_char(t[0]) {
            None => Err(ParseCardError::BadRank),
            Some(r) => match suit_of_char(t[1]) {
                None => Err(ParseCardError::BadSuit),
                Some(s) => Ok(Card { rank: r, suit: s }),
            },
        }
    }
}

/// Reading a rank symbol back gives the rank it was written for.
pub proof fn lemma_rank_char_inverse(r: Rank)
    ensures
        rank_of_char(rank_char(r)) == Some(r),
{
    match r {
        Rank::Three => {},
        Rank::Four => {},
        Rank::Five => {},
        Rank::Six => {},
        Rank::Seven => {},
        Rank::Eight => {},
        Rank::Nine => {},
        Rank::Ten => {},
        Rank::Jack => {},
        Rank::Queen => {},
        Rank::King => {},
        Rank::Ace => {},
        Rank::Two => {},
    }
}

/// Reading a suit symbol back gives the suit it was written for.
pub proof fn lemma_suit_char_inverse(s: Suit)
    ensures
        suit_of_char(suit_char(s)) == Some(s),
{
    match s {
        Suit::Diamonds => {},
        Suit::Clubs => {},
        Suit::Hearts => {},
        Suit::Spades => {},
    }
}

/// Decides which rank a symbol names, if any.
pub fn parse_rank(c: char) -> (r: Option<Rank>)
    ensures
        r == rank_of_char(c),
{
    if c == '3' {
        Some(Rank::Three)
    } else if c == '4' {
        Some(Rank::Four)
    } else if c == '5' {
        Some(Rank::Five)
    } else if c == '6' {
        Some(Rank::Six)
    } else if c == '7' {
        Some(Rank::Seven)
    } else if c == '8' {
        Some(Rank::Eight)
    } else if c == '9' {
        Some(Rank::Nine)
    } else if c == 'T' {
        Some(Rank::Ten)
    } else if c == 'J' {
        Some(Rank::Jack)
    } else if c == 'Q' {
        Some(Rank::Queen)
    } else if c == 'K' {
        Some(Rank::King)
    } else if c == 'A' {
        Some(Rank::Ace)
    } else if c == '2' {
        Some(Rank::Two)
    } else {
        None
    }
}

/// Decides which suit a symbol names, if any.
pub fn parse_suit(c: char) -> (r: Option<Suit>)
    ensures
        r == suit_of_char(c),
{
    if c == 'D' {
        Some(Suit::Diamonds)
    } else if c == 'C' {
        Some(Suit::Clubs)
    } else if c == 'H' {
        Some(Suit::Hearts)
    } else if c == 'S' {
        Some(Suit::Spades)
    } else {
        None
    }
}

/// The one-character text of a rank.
pub fn rank_str(r: Rank) -> (s: &'static str)
    ensures
        s@ == seq![rank_char(r)],
{
    match r {
        Rank::Three => {
            proof {
                reveal_strlit("3");
                assert("3"@ =~= seq![rank_char(Rank::Three)]);
            }
            "3"
        },
        Rank::Four => {
            proof {
                reveal_strlit("4");
                assert("4"@ =~= seq![rank_char(Rank::Four)]);
            }
            "4"
        },
        Rank::Five => {
            proof {
                reveal_strlit("5");
                assert("5"@ =~= seq![rank_char(Rank::Five)]);
            }
            "5"
        },
        Rank::Six => {
            proof {
                reveal_strlit("6");
                assert("6"@ =~= seq![rank_char(Rank::Six)]);
            }
            "6"
        },
        Rank::Seven => {
            proof {
                reveal_strlit("7");
                assert("7"@ =~= seq![rank_char(Rank::Seven)]);
            }
            "7"
        },
        Rank::Eight => {
            proof {
                reveal_strlit("8");
                assert("8"@ =~= seq![rank_char(Rank::Eight)]);
            }
            "8"
        },
        Rank::Nine => {
            proof {
                reveal_strlit("9");
                assert("9"@ =~= seq![rank_char(Rank::Nine)]);
            }
            "9"
        },
        Rank::Ten => {
            proof {
                reveal_strlit("T");
                assert("T"@ =~= seq![rank_char(Rank::Ten)]);
            }
            "T"
        },
        Rank::Jack => {
            proof {
                reveal_strlit("J");
                assert("J"@ =~= seq![rank_char(Rank::Jack)]);
            }
            "J"
        },
        Rank::Queen => {
            proof {
                reveal_strlit("Q");
                assert("Q"@ =~= seq![rank_char(Rank::Queen)]);
            }
            "Q"
        },
        Rank::King => {
            proof {
                reveal_strlit("K");
                assert("K"@ =~= seq![rank_char(Rank::King)]);
            }
            "K"
        },
        Rank::Ace => {
            proof {
                reveal_strlit("A");
                assert("A"@ =~= seq![rank_char(Rank::Ace)]);
            }
            "A"
        },
        Rank::Two => {
            proof {
                reveal_strlit("2");
                assert("2"@ =~= seq![rank_char(Rank::Two)]);
            }
            "2"
        },
    }
}

/// The one-character text of a suit.
pub fn suit_str(s: Suit) -> (t: &'static str)
    ensures
        t@ == seq![suit_char(s)],
{
    match s {
        Suit::Diamonds => {
            proof {
                reveal_strlit("D");
                assert("D"@ =~= seq![suit_char(Suit::Diamonds)]);
            }
            "D"
        },
        Suit::Clubs => {
            proof {
                reveal_strlit("C");
                assert("C"@ =~= seq![suit_char(Suit::Clubs)]);
            }
            "C"
        },
        Suit::Hearts => {
            proof {
                reveal_strlit("H");
                assert("H"@ =~= seq![suit_char(Suit::Hearts)]);
            }
            "H"
        },
        Suit::Spades => {
            proof {
                reveal_strlit("S");
                assert("S"@ =~= seq![suit_char(Suit::Spades)]);
            }
            "S"
        },
    }
}

impl Card {
    /// Parses a two-symbol token (rank, then suit) into a card.
    pub fn from_text(s: &str) -> (r: Result<Card, ParseCardError>)
        ensures
            r == parse_card_chars(s@),
    {
        if s.unicode_len() != 2 {
            return Err(ParseCardError::NotTwoSymbols);
        }
        let rank = match parse_rank(s.get_char(0)) {
            Some(r) => r,
            None => {
                return Err(ParseCardError::BadRank);
            },
        };
        let suit = match parse_suit(s.get_char(1)) {
            Some(su) => su,
            None => {
                return Err(ParseCardError::BadSuit);
            },
        };
        Ok(Card { rank, suit })
    }
}

} // verus!
