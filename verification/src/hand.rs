//! The hand model: a closed tagged union over the playable card sets of the
//! game, with the well-formedness invariant that every multi-card hand stores
//! its cards in strictly descending order and fits exactly its category.

pub mod order;
pub mod text;
pub mod try_from;

use vstd::pervasive::unreached;
use vstd::prelude::*;

use crate::card::{card_below, rank_value, Card};

verus! {

/// A playable set of cards, tagged by category. Cards inside a multi-card
/// hand are always stored in strictly descending order, highest first.
#[derive(Clone, Copy, Debug, PartialEq, Eq, Structural)]
pub enum Hand {
    /// A declination to play in the current trick: no cards.
    Pass,
    /// A single card.
    Lone(Card),
    /// Two cards of one rank, highest first.
    Pair(Card, Card),
    /// Three cards of one rank, in descending suit order.
    Trips(Card, Card, Card),
    /// Five cards of strictly consecutive descending rank, not all one suit.
    Straight(Card, Card, Card, Card, Card),
    /// Five cards of one suit, not of consecutive rank.
    Flush(Card, Card, Card, Card, Card),
    /// A pair plus a trips of a different rank.
    FullHouse(Card, Card, Card, Card, Card),
    /// Four cards of one rank plus one kicker.
    FourPlusKick(Card, Card, Card, Card, Card),
    /// Five cards that are both a straight and a flush: the top category.
    StraightFlush(Card, Card, Card, Card, Card),
}

/// Two cards of one rank.
pub open spec fn is_pair(a: Card, b: Card) -> bool {
    a.rank == b.rank
}

/// Three cards of one rank.
pub open spec fn is_trips(a: Card, b: Card, c: Card) -> bool {
    a.rank == b.rank && b.rank == c.rank
}

/// Five ranks, each exactly one below the previous.
pub open spec fn is_straight(a: Card, b: Card, c: Card, d: Card, e: Card) -> bool {
    &&& rank_value(a.rank) == rank_value(b.rank) + 1
    &&& rank_value(b.rank) == rank_value(c.rank) + 1
    &&& rank_value(c.rank) == rank_value(d.rank) + 1
    &&& rank_value(d.rank) == rank_value(e.rank) + 1
}

/// All five cards of one suit.
pub open spec fn is_flush(a: Card, b: Card, c: Card, d: Card, e: Card) -> bool {
    a.suit == b.suit && b.suit == c.suit && c.suit == d.suit && d.suit == e.suit
}

/// A pair and a trips of five descending cards, in either arrangement.
pub open spec fn is_full_house(a: Card, b: Card, c: Card, d: Card, e: Card) -> bool {
    (is_pair(a, b) && is_trips(c, d, e)) || (is_trips(a, b, c) && is_pair(d, e))
}

/// Four of one rank plus a kicker: of five descending cards, either the top
/// four or the bottom four share a rank.
pub open spec fn is_four_plus_kick(a: Card, b: Card, c: Card, d: Card, e: Card) -> bool {
    a.rank == d.rank || b.rank == e.rank
}

/// Five cards in strictly descending order.
pub open spec fn descending5(a: Card, b: Card, c: Card, d: Card, e: Card) -> bool {
    card_below(b, a) && card_below(c, b) && card_below(d, c) && card_below(e, d)
}

/// A sequence of cards in strictly descending order: every card is strictly
/// above every later one.
pub open spec fn sorted_descending(s: Seq<Card>) -> bool {
    forall|i: int, j: int| 0 <= i < j < s.len() ==> card_below(#[trigger] s[j], #[trigger] s[i])
}

impl Hand {
    /// The hand's cards in their stored order, highest first.
    pub open spec fn spec_cards(self) -> Seq<Card> {
        match self {
            Hand::Pass => Seq::empty(),
            Hand::Lone(a) => seq![a],
            Hand::Pair(a, b) => seq![a, b],
            Hand::Trips(a, b, c) => seq![a, b, c],
            Hand::Straight(a, b, c, d, e) => seq![a, b, c, d, e],
            Hand::Flush(a, b, c, d, e) => seq![a, b, c, d, e],
            Hand::FullHouse(a, b, c, d, e) => seq![a, b, c, d, e],
            Hand::FourPlusKick(a, b, c, d, e) => seq![a, b, c, d, e],
            Hand::StraightFlush(a, b, c, d, e) => seq![a, b, c, d, e],
        }
    }

    /// Well-formedness: the cards are stored in strictly descending order and
    /// satisfy exactly the conditions of the hand's category.
    pub open spec fn wf(self) -> bool {
        match self {
            Hand::Pass => true,
            Hand::Lone(_) => true,
            Hand::Pair(a, b) => card_below(b, a) && is_pair(a, b),
            Hand::Trips(a, b, c) => card_below(b, a) && card_below(c, b) && is_trips(a, b, c),
            Hand::Straight(a, b, c, d, e) => descending5(a, b, c, d, e) && is_straight(
                a,
                b,
                c,
                d,
                e,
            ) && !is_flush(a, b, c, d, e),
            Hand::Flush(a, b, c, d, e) => descending5(a, b, c, d, e) && is_flush(a, b, c, d, e)
                && !is_straight(a, b, c, d, e),
            Hand::FullHouse(a, b, c, d, e) => descending5(a, b, c, d, e) && is_full_house(
                a,
                b,
                c,
                d,
                e,
            ),
            Hand::FourPlusKick(a, b, c, d, e) => descending5(a, b, c, d, e) && is_four_plus_kick(
                a,
                b,
                c,
                d,
                e,
            ),
            Hand::StraightFlush(a, b, c, d, e) => descending5(a, b, c, d, e) && is_straight(
                a,
                b,
                c,
                d,
                e,
            ) && is_flush(a, b, c, d, e),
        }
    }

    /// How many cards the hand holds.
    pub fn count(&self) -> (n: usize)
        ensures
            n == self.spec_cards().len(),
    {
        match self {
            Hand::Pass => 0,
            Hand::Lone(..) => 1,
            Hand::Pair(..) => 2,
            Hand::Trips(..) => 3,
            Hand::Straight(..) => 5,
            Hand::Flush(..) => 5,
            Hand::FullHouse(..) => 5,
            Hand::FourPlusKick(..) => 5,
            Hand::StraightFlush(..) => 5,
        }
    }

    /// The hand's highest-placed card: the first in its stored order.
    pub fn top_card(&self) -> (c: Card)
        requires
            self.spec_cards().len() > 0,
        ensures
            c == self.spec_cards()[0],
    {
        match self {
            Hand::Pass => unreached(),
            Hand::Lone(a) => *a,
            Hand::Pair(a, ..) => *a,
            Hand::Trips(a, ..) => *a,
            Hand::Straight(a, ..) => *a,
            Hand::Flush(a, ..) => *a,
            Hand::FullHouse(a, ..) => *a,
            Hand::FourPlusKick(a, ..) => *a,
            Hand::StraightFlush(a, ..) => *a,
        }
    }

    /// The hand's lowest-placed card: the last in its stored order.
    pub fn bottom_card(&self) -> (c: Card)
        requires
            self.spec_cards().len() > 0,
        ensures
            c == self.spec_cards().last(),
    {
        match self {
            Hand::Pass => unreached(),
            Hand::Lone(a) => *a,
            Hand::Pair(_, b) => *b,
            Hand::Trips(_, _, c) => *c,
            Hand::Straight(_, _, _, _, e) => *e,
            Hand::Flush(_, _, _, _, e) => *e,
            Hand::FullHouse(_, _, _, _, e) => *e,
            Hand::FourPlusKick(_, _, _, _, e) => *e,
            Hand::StraightFlush(_, _, _, _, e) => *e,
        }
    }

    /// The hand's cards as a vector, highest first.
    pub fn cards(&self) -> (v: Vec<Card>)
        ensures
            v@ == self.spec_cards(),
    {
        let mut v: Vec<Card> = Vec::new();
        match self {
            Hand::Pass => {},
            Hand::Lone(a) => {
                v.push(*a);
            },
            Hand::Pair(a, b) => {
                v.push(*a);
                v.push(*b);
            },
            Hand::Trips(a, b, c) => {
                v.push(*a);
                v.push(*b);
                v.push(*c);
            },
            Hand::Straight(a, b, c, d, e)
            | Hand::Flush(a, b, c, d, e)
            | Hand::FullHouse(a, b, c, d, e)
            | Hand::FourPlusKick(a, b, c, d, e)
            | Hand::StraightFlush(a, b, c, d, e) => {
                v.push(*a);
                v.push(*b);
                v.push(*c);
                v.push(*d);
                v.push(*e);
            },
        }
        proof {
            assert(v@ =~= self.spec_cards());
        }
        v
    }
}

/// The cards of a well-formed hand are strictly descending, highest first.
pub proof fn lemma_wf_sorted(h: Hand)
    requires
        h.wf(),
    ensures
        sorted_descending(h.spec_cards()),
{
    let s = h.spec_cards();
    match h {
        Hand::Pass => {},
        Hand::Lone(_) => {},
        Hand::Pair(a, b) => {
            assert(s[0] == a && s[1] == b);
        },
        Hand::Trips(a, b, c) => {
            assert(s[0] == a && s[1] == b && s[2] == c);
        },
        Hand::Straight(a, b, c, d, e)
        | Hand::Flush(a, b, c, d, e)
        | Hand::FullHouse(a, b, c, d, e)
        | Hand::FourPlusKick(a, b, c, d, e)
        | Hand::StraightFlush(a, b, c, d, e) => {
            assert(s[0] == a && s[1] == b && s[2] == c && s[3] == d && s[4] == e);
        },
    }
}

/// A strictly descending sequence never repeats a card: equal cards share a
/// position in the card order, which strict descent rules out.
pub proof fn lemma_sorted_no_duplicate(s: Seq<Card>, i: int, j: int)
    requires
        sorted_descending(s),
        0 <= i < j < s.len(),
    ensures
        s[i] != s[j],
{
    assert(card_below(s[j], s[i]));
}

} // verus!
