//! Classification of validated card sequences into hands: a duplicate-free,
//! strictly descending run of 1, 2, 3 or 5 cards becomes a tagged hand
//! variant, and anything else is rejected with a structural error.

use vstd::prelude::*;

use crate::card::{card_below, lemma_card_value, Card, ParseCardError};
use crate::hand::{
    descending5, is_flush, is_four_plus_kick, is_full_house, is_pair, is_straight, is_trips,
    sorted_descending, Hand,
};

verus! {

/// The ways valid cards can fail to combine into a valid hand.
#[derive(Clone, Copy, Debug, PartialEq, Eq, Structural)]
pub enum InvalidHandError {
    /// Two cards of different rank.
    UnmatchedPair,
    /// Three cards, at least one of a different rank.
    UnmatchedTrips,
    /// An impossible number of cards (4, or more than 5).
    WrongQuantity,
    /// Five cards that fit no five-card category.
    NotAFiveCardHand,
}

/// The ways a string can fail to parse into a valid hand.
#[derive(Clone, Copy, Debug, PartialEq, Eq, Structural)]
pub enum ParseHandError {
    /// One of the card tokens does not name a card.
    BadCard(ParseCardError),
    /// The game is played with a single deck: each card at most once.
    DuplicateCard,
    /// Cards must be given in strictly descending order.
    NotSortedDescending,
    /// The cards parsed, in order, but do not form a valid hand.
    InvalidHand(InvalidHandError),
}

/// Classification of five strictly descending cards, in priority order:
/// straight flush, four plus kicker, full house, flush, straight.
pub open spec fn classify_five(a: Card, b: Card, c: Card, d: Card, e: Card) -> Result<
    Hand,
    InvalidHandError,
> {
    if is_straight(a, b, c, d, e) && is_flush(a, b, c, d, e) {
        Ok(Hand::StraightFlush(a, b, c, d, e))
    } else if is_four_plus_kick(a, b, c, d, e) {
        Ok(Hand::FourPlusKick(a, b, c, d, e))
    } else if is_full_house(a, b, c, d, e) {
        Ok(Hand::FullHouse(a, b, c, d, e))
    } else if is_flush(a, b, c, d, e) {
        Ok(Hand::Flush(a, b, c, d, e))
    } else if is_straight(a, b, c, d, e) {
        Ok(Hand::Straight(a, b, c, d, e))
    } else {
        Err(InvalidHandError::NotAFiveCardHand)
    }
}

/// Classification of a duplicate-free, strictly descending card sequence by
/// length: zero cards pass, one is a lone card, two must pair, three must be
/// trips, five must fit a five-card category, and any other count is refused.
pub open spec fn classify(cards: Seq<Card>) -> Result<Hand, ParseHandError> {
    if cards.len() == 0 {
        Ok(Hand::Pass)
    } else if cards.len() == 1 {
        Ok(Hand::Lone(cards[0]))
    } else if cards.len() == 2 {
        if is_pair(cards[0], cards[1]) {
            Ok(Hand::Pair(cards[0], cards[1]))
        } else {
            Err(ParseHandError::InvalidHand(InvalidHandError::UnmatchedPair))
        }
    } else if cards.len() == 3 {
        if is_trips(cards[0], cards[1], cards[2]) {
            Ok(Hand::Trips(cards[0], cards[1], cards[2]))
        } else {
            Err(ParseHandError::InvalidHand(InvalidHandError::UnmatchedTrips))
        }
    } else if cards.len() == 5 {
        match classify_five(cards[0], cards[1], cards[2], cards[3], cards[4]) {
            Ok(h) => Ok(h),
            Err(e) => Err(ParseHandError::InvalidHand(e)),
        }
    } else {
        Err(ParseHandError::InvalidHand(InvalidHandError::WrongQuantity))
    }
}

/// Whether some card occurs twice in the sequence.
pub open spec fn has_duplicate(s: Seq<Card>) -> bool {
    exists|i: int, j: int| 0 <= i < j < s.len() && #[trigger] s[i] == #[trigger] s[j]
}

/// What sanitation decides for a raw card sequence: duplicates are rejected
/// first, then any violation of strictly descending order.
pub open spec fn sanitize_spec(s: Seq<Card>) -> Result<(), ParseHandError> {
    if has_duplicate(s) {
        Err(ParseHandError::DuplicateCard)
    } else if !sorted_descending(s) {
        Err(ParseHandError::NotSortedDescending)
    } else {
        Ok(())
    }
}

impl Hand {
    /// Classifies a duplicate-free, strictly descending slice of cards into a
    /// hand, or reports why it is not one.
    pub fn try_from_cards(cards: &[Card]) -> (r: Result<Hand, ParseHandError>)
        requires
            sorted_descending(cards@),
        ensures
            r == classify(cards@),
            r matches Ok(h) ==> h.wf() && h.spec_cards() == cards@,
    {
        let res: Result<Hand, ParseHandError> = if cards.len() == 0 {
            Ok(Hand::Pass)
        } else if cards.len() == 1 {
            Ok(Hand::Lone(cards[0]))
        } else if cards.len() == 2 {
            match Hand::try_pair(cards[0], cards[1]) {
                Ok(h) => Ok(h),
                Err(e) => Err(ParseHandError::InvalidHand(e)),
            }
        } else if cards.len() == 3 {
            match Hand::try_trips(cards[0], cards[1], cards[2]) {
                Ok(h) => Ok(h),
                Err(e) => Err(ParseHandError::InvalidHand(e)),
            }
        } else if cards.len() == 5 {
            match Hand::try_fiver(cards[0], cards[1], cards[2], cards[3], cards[4]) {
                Ok(h) => Ok(h),
                Err(e) => Err(ParseHandError::InvalidHand(e)),
            }
        } else {
            Err(ParseHandError::InvalidHand(InvalidHandError::WrongQuantity))
        };
        proof {
            if res is Ok {
                assert(res->Ok_0.spec_cards() =~= cards@);
            }
        }
        res
    }

    /// Combines two descending cards into a pair, if their ranks match.
    pub fn try_pair(first: Card, second: Card) -> (r: Result<Hand, InvalidHandError>)
        requires
            card_below(second, first),
        ensures
            r == if is_pair(first, second) {
                Result::<Hand, InvalidHandError>::Ok(Hand::Pair(first, second))
            } else {
                Result::<Hand, InvalidHandError>::Err(InvalidHandError::UnmatchedPair)
            },
            r matches Ok(h) ==> h.wf(),
    {
        if Hand::check_pair(&first, &second) {
            Ok(Hand::Pair(first, second))
        } else {
            Err(InvalidHandError::UnmatchedPair)
        }
    }

    /// Whether two cards form a valid pair.
    fn check_pair(first: &Card, second: &Card) -> (r: bool)
        ensures
            r == is_pair(*first, *second),
    {
        first.rank == second.rank
    }

    /// Combines three descending cards into trips, if all ranks match.
    pub fn try_trips(first: Card, second: Card, third: Card) -> (r: Result<Hand, InvalidHandError>)
        requires
            card_below(second, first),
            card_below(third, second),
        ensures
            r == if is_trips(first, second, third) {
                Result::<Hand, InvalidHandError>::Ok(Hand::Trips(first, second, third))
            } else {
                Result::<Hand, InvalidHandError>::Err(InvalidHandError::UnmatchedTrips)
            },
            r matches Ok(h) ==> h.wf(),
    {
        if Hand::check_trips(&first, &second, &third) {
            Ok(Hand::Trips(first, second, third))
        } else {
            Err(InvalidHandError::UnmatchedTrips)
        }
    }

    /// Whether three cards form a valid trips.
    fn check_trips(first: &Card, second: &Card, third: &Card) -> (r: bool)
        ensures
            r == is_trips(*first, *second, *third),
    {
        first.rank == second.rank && second.rank == third.rank
    }

    /// Classifies five descending cards into the highest five-card category
    /// that fits, or reports that none does.
    pub fn try_fiver(first: Card, second: Card, third: Card, fourth: Card, fifth: Card) -> (r:
        Result<Hand, InvalidHandError>)
        requires
            descending5(first, second, third, fourth, fifth),
        ensures
            r == classify_five(first, second, third, fourth, fifth),
            r matches Ok(h) ==> h.wf(),
    {
        let straight = Hand::check_straight(&first, &second, &third, &fourth, &fifth);
        let flush = Hand::check_flush(&first, &second, &third, &fourth, &fifth);
        if straight && flush {
            Ok(Hand::StraightFlush(first, second, third, fourth, fifth))
        } else if Hand::check_four_plus_kick(&first, &second, &third, &fourth, &fifth) {
            Ok(Hand::FourPlusKick(first, second, third, fourth, fifth))
        } else if Hand::check_full_house(&first, &second, &third, &fourth, &fifth) {
            Ok(Hand::FullHouse(first, second, third, fourth, fifth))
        } else if flush {
            Ok(Hand::Flush(first, second, third, fourth, fifth))
        } else if straight {
            Ok(Hand::Straight(first, second, third, fourth, fifth))
        } else {
            Err(InvalidHandError::NotAFiveCardHand)
        }
    }

    /// Whether five cards descend by exactly one rank at each step.
    fn check_straight(first: &Card, second: &Card, third: &Card, fourth: &Card, fifth: &Card) -> (r:
        bool)
        ensures
            r == is_straight(*first, *second, *third, *fourth, *fifth),
    {
        let a = first.rank.number();
        let b = second.rank.number();
        let c = third.rank.number();
        let d = fourth.rank.number();
        let e = fifth.rank.number();
        a == b + 1 && b == c + 1 && c == d + 1 && d == e + 1
    }

    /// Whether all five cards share one suit.
    fn check_flush(first: &Card, second: &Card, third: &Card, fourth: &Card, fifth: &Card) -> (r:
        bool)
        ensures
            r == is_flush(*first, *second, *third, *fourth, *fifth),
    {
        first.suit == second.suit && second.suit == third.suit && third.suit == fourth.suit
            && fourth.suit == fifth.suit
    }

    /// Whether the five cards are a pair and a trips, in either arrangement.
    fn check_full_house(first: &Card, second: &Card, third: &Card, fourth: &Card, fifth: &Card) -> (
        r: bool)
        ensures
            r == is_full_house(*first, *second, *third, *fourth, *fifth),
    {
        (Hand::check_pair(first, second) && Hand::check_trips(third, fourth, fifth)) || (
        Hand::check_trips(first, second, third) && Hand::check_pair(fourth, fifth))
    }

    /// Whether the top four or the bottom four of the five cards share a rank.
    fn check_four_plus_kick(
        first: &Card,
        second: &Card,
        _third: &Card,
        fourth: &Card,
        fifth: &Card,
    ) -> (r: bool)
        ensures
            r == is_four_plus_kick(*first, *second, *_third, *fourth, *fifth),
    {
        first.rank == fourth.rank || second.rank == fifth.rank
    }

    /// Rejects a raw card slice that repeats a card or is not strictly
    /// descending; duplicates are reported before ordering.
    pub fn sanitize_cards(cards: &[Card]) -> (r: Result<(), ParseHandError>)
        ensures
            r == sanitize_spec(cards@),
            r is Ok ==> !has_duplicate(cards@) && sorted_descending(cards@),
    {
        let n = cards.len();
        let mut i: usize = 0;
        while i < n
            invariant
                n == cards@.len(),
                i <= n,
                forall|p: int, q: int| 0 <= p < q < n && p < i ==> #[trigger] cards@[p] != #[trigger] cards@[q],
            decreases n - i,
        {
            let mut j: usize = i + 1;
            while j < n
                invariant
                    n == cards@.len(),
                    i < j <= n,
                    forall|q: int| i < q < j ==> cards@[i as int] != #[trigger] cards@[q],
                decreases n - j,
            {
                if cards[i] == cards[j] {
                    return Err(ParseHandError::DuplicateCard);
                }
                j += 1;
            }
            i += 1;
        }
        assert(!has_duplicate(cards@));
        let mut k: usize = 1;
        while k < n
            invariant
                n == cards@.len(),
                1 <= k,
                k <= n || n == 0,
                !has_duplicate(cards@),
                forall|p: int| 0 < p < k ==> !card_below(cards@[p - 1], #[trigger] cards@[p]),
            decreases n - k,
        {
            if crate::card::card_lt(&cards[k - 1], &cards[k]) {
                proof {
                    assert(!sorted_descending(cards@)) by {
                        assert(card_below(cards@[k - 1], cards@[k as int]));
                    }
                }
                return Err(ParseHandError::NotSortedDescending);
            }
            k += 1;
        }
        proof {
            assert forall|p: int, q: int| 0 <= p < q < cards@.len() implies card_below(
                #[trigger] cards@[q],
                #[trigger] cards@[p],
            ) by {
                lemma_adjacent_descending(cards@, p, q);
            }
        }
        Ok(())
    }
}

/// Of two distinct cards of one rank, the lower one has the lower suit.
proof fn lemma_same_rank_below(x: Card, y: Card)
    requires
        x.rank == y.rank,
        card_below(y, x),
    ensures
        crate::card::suit_value(y.suit) < crate::card::suit_value(x.suit),
{
}

/// Five strictly descending cards cannot all share one rank: their suit
/// positions would have to descend five times inside a range of four.
proof fn lemma_no_five_of_a_kind(a: Card, b: Card, c: Card, d: Card, e: Card)
    requires
        descending5(a, b, c, d, e),
    ensures
        !(a.rank == b.rank && b.rank == c.rank && c.rank == d.rank && d.rank == e.rank),
{
    if a.rank == b.rank && b.rank == c.rank && c.rank == d.rank && d.rank == e.rank {
        lemma_same_rank_below(a, b);
        lemma_same_rank_below(b, c);
        lemma_same_rank_below(c, d);
        lemma_same_rank_below(d, e);
        crate::card::lemma_suit_value(a.suit);
        crate::card::lemma_suit_value(e.suit);
    }
}

/// Classification is complete on well-formed hands: the cards of any
/// well-formed hand classify back to exactly that hand.
pub proof fn lemma_classify_wf(h: Hand)
    requires
        h.wf(),
    ensures
        classify(h.spec_cards()) == Ok::<Hand, ParseHandError>(h),
{
    match h {
        Hand::Pass => {},
        Hand::Lone(_) => {},
        Hand::Pair(..) => {},
        Hand::Trips(..) => {},
        Hand::Straight(a, b, c, d, e) => {
            assert(!is_four_plus_kick(a, b, c, d, e));
            assert(!is_full_house(a, b, c, d, e));
        },
        Hand::Flush(a, b, c, d, e) => {
            assert(!is_four_plus_kick(a, b, c, d, e)) by {
                if a.rank == d.rank {
                    assert(card_below(d, a));
                }
                if b.rank == e.rank {
                    assert(card_below(e, b));
                }
            }
            assert(!is_full_house(a, b, c, d, e)) by {
                if is_pair(a, b) {
                    assert(card_below(b, a));
                }
                if is_pair(d, e) && is_trips(a, b, c) {
                    assert(card_below(e, d));
                }
            }
        },
        Hand::FullHouse(a, b, c, d, e) => {
            assert(!is_straight(a, b, c, d, e));
            assert(!is_four_plus_kick(a, b, c, d, e)) by {
                lemma_no_five_of_a_kind(a, b, c, d, e);
                if is_four_plus_kick(a, b, c, d, e) {
                    assert(a.rank == b.rank && b.rank == c.rank && c.rank == d.rank && d.rank
                        == e.rank);
                }
            }
        },
        Hand::FourPlusKick(a, b, c, d, e) => {
            assert(!is_straight(a, b, c, d, e));
        },
        Hand::StraightFlush(..) => {},
    }
}

/// In a duplicate-free sequence whose adjacent cards never ascend, every card
/// is strictly above every later one.
proof fn lemma_adjacent_descending(s: Seq<Card>, p: int, q: int)
    requires
        !has_duplicate(s),
        forall|i: int| 0 < i < s.len() ==> !card_below(s[i - 1], #[trigger] s[i]),
        0 <= p < q < s.len(),
    ensures
        card_below(s[q], s[p]),
    decreases q - p,
{
    assert(s[q - 1] != s[q]);
    lemma_card_value(s[q - 1]);
    lemma_card_value(s[q]);
    assert(!card_below(s[q - 1], s[q]));
    assert(card_below(s[q], s[q - 1]));
    if p < q - 1 {
        lemma_adjacent_descending(s, p, q - 1);
    }
}

} // verus!
