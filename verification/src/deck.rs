//! The 52-card deck: one card for every rank and suit, each exactly once.

use vstd::prelude::*;

use crate::card::{
    card_of_value, card_value, lemma_card_value, rank_of_value, suit_of_value, Card, Rank, Suit,
};

verus! {

/// A deck of cards, fresh from the box in a fixed order until shuffled.
#[derive(Debug)]
pub struct Deck {
    pub cards: Vec<Card>,
}

/// The rank at a position of the rank order.
fn rank_from_number(n: u8) -> (r: Rank)
    requires
        n < 13,
    ensures
        r == rank_of_value(n as int),
{
    if n == 0 {
        Rank::Three
    } else if n == 1 {
        Rank::Four
    } else if n == 2 {
        Rank::Five
    } else if n == 3 {
        Rank::Six
    } else if n == 4 {
        Rank::Seven
    } else if n == 5 {
        Rank::Eight
    } else if n == 6 {
        Rank::Nine
    } else if n == 7 {
        Rank::Ten
    } else if n == 8 {
        Rank::Jack
    } else if n == 9 {
        Rank::Queen
    } else if n == 10 {
        Rank::King
    } else if n == 11 {
        Rank::Ace
    } else {
        Rank::Two
    }
}

/// The suit at a position of the tie-break order.
fn suit_from_number(n: u8) -> (s: Suit)
    requires
        n < 4,
    ensures
        s == suit_of_value(n as int),
{
    if n == 0 {
        Suit::Clubs
    } else if n == 1 {
        Suit::Diamonds
    } else if n == 2 {
        Suit::Hearts
    } else {
        Suit::Spades
    }
}

/// The full deck as a sequence: the card at each position of the card
/// order, so each of the 52 cards exactly once.
pub open spec fn full_deck() -> Seq<Card> {
    Seq::new(52, |i: int| card_of_value(i))
}

impl Deck {
    /// A full deck: 52 cards, one at each position of the card order, so
    /// every card appears exactly once.
    pub fn new() -> (d: Deck)
        ensures
            d.cards@ == full_deck(),
            d.cards@.len() == 52,
            forall|i: int| 0 <= i < 52 ==> #[trigger] d.cards@[i] == card_of_value(i),
            forall|i: int| 0 <= i < 52 ==> card_value(#[trigger] d.cards@[i]) == i,
            !crate::hand::try_from::has_duplicate(d.cards@),
            d.cards@.contains(crate::card::three_of_clubs()),
    {
        let mut cards: Vec<Card> = Vec::new();
        let mut i: usize = 0;
        while i < 52
            invariant
                i <= 52,
                cards@.len() == i,
                forall|k: int| 0 <= k < i ==> #[trigger] cards@[k] == card_of_value(k),
                forall|k: int| 0 <= k < i ==> card_value(#[trigger] cards@[k]) == k,
            decreases 52 - i,
        {
            let r = rank_from_number((i / 4) as u8);
            let s = suit_from_number((i % 4) as u8);
            let c = Card { rank: r, suit: s };
            proof {
                assert(card_value(c) == i);
            }
            cards.push(c);
            i += 1;
        }
        let d = Deck { cards };
        proof {
            assert(!crate::hand::try_from::has_duplicate(d.cards@)) by {
                if crate::hand::try_from::has_duplicate(d.cards@) {
                    let (p, q) = choose|p: int, q: int|
                        0 <= p < q < d.cards@.len() && #[trigger] d.cards@[p] == #[trigger] d.cards@[q];
                    assert(card_value(d.cards@[p]) == p);
                    assert(card_value(d.cards@[q]) == q);
                }
            }
            let tc = crate::card::three_of_clubs();
            lemma_card_value(tc);
            assert(d.cards@[card_value(tc)] == card_of_value(card_value(tc)));
            assert(d.cards@[card_value(tc)] == tc);
            assert(d.cards@ =~= full_deck());
        }
        d
    }
}

} // verus!
