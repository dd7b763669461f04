//! Simple greedy move choices for computer players: open the game on the
//! Three of Clubs, answer a lone card with the first held card that beats
//! it, and lead a new trick with the lowest held card.

use vstd::prelude::*;

use crate::card::{card_below, card_lt, lemma_card_value, three_of_clubs, Card, Rank};
use crate::hand::try_from::has_duplicate;
use crate::hand::Hand;

verus! {

/// The reply this strategy gives to a lone hand: the first held card above
/// it, or a pass when none of the cards from this position on beats it.
pub open spec fn lone_above(cards: Seq<Card>, c: Card) -> Hand
    decreases cards.len(),
{
    if cards.len() == 0 {
        Hand::Pass
    } else if card_below(c, cards[0]) {
        Hand::Lone(cards[0])
    } else {
        lone_above(cards.drop_first(), c)
    }
}

/// What this strategy answers to a hand to beat: a lone reply to a lone
/// hand, a pass to anything else.
pub open spec fn single_reply(hand: Hand, cards: Seq<Card>) -> Hand {
    match hand {
        Hand::Lone(c) => lone_above(cards, c),
        _ => Hand::Pass,
    }
}

/// Orders three pairwise distinct cards into descending order.
fn order3_desc(a: Card, b: Card, c: Card) -> (t: (Card, Card, Card))
    requires
        a != b && a != c && b != c,
    ensures
        card_below(t.1, t.0) && card_below(t.2, t.1),
        (t.0 == a || t.0 == b || t.0 == c),
        (t.1 == a || t.1 == b || t.1 == c),
        (t.2 == a || t.2 == b || t.2 == c),
        (a == t.0 || a == t.1 || a == t.2),
        (b == t.0 || b == t.1 || b == t.2),
        (c == t.0 || c == t.1 || c == t.2),
        t.0 != t.1 && t.0 != t.2 && t.1 != t.2,
{
    proof {
        lemma_card_value(a);
        lemma_card_value(b);
        lemma_card_value(c);
    }
    if card_lt(&b, &a) {
        if card_lt(&c, &b) {
            (a, b, c)
        } else if card_lt(&c, &a) {
            (a, c, b)
        } else {
            (c, a, b)
        }
    } else {
        if card_lt(&c, &a) {
            (b, a, c)
        } else if card_lt(&c, &b) {
            (b, c, a)
        } else {
            (c, b, a)
        }
    }
}

/// Chooses the opening play for the player holding the Three of Clubs,
/// which must be their first card: the trips of threes if the next two
/// cards are also threes, else the pair of threes if the next card is a
/// three, else the Three of Clubs alone.
pub fn play_three_of_clubs(cards: &Vec<Card>) -> (h: Hand)
    requires
        cards@.len() >= 1,
        cards@[0] == three_of_clubs(),
        !has_duplicate(cards@),
    ensures
        h.wf(),
        h.spec_cards().contains(three_of_clubs()),
        if cards@.len() >= 3 && cards@[1].rank == Rank::Three && cards@[2].rank == Rank::Three {
            &&& h is Trips
            &&& h.spec_cards().contains(cards@[0])
            &&& h.spec_cards().contains(cards@[1])
            &&& h.spec_cards().contains(cards@[2])
        } else if cards@.len() >= 2 && cards@[1].rank == Rank::Three {
            &&& h is Pair
            &&& h.spec_cards().contains(cards@[0])
            &&& h.spec_cards().contains(cards@[1])
        } else {
            h == Hand::Lone(three_of_clubs())
        },
{
    let a = cards[0];
    if cards.len() >= 3 && cards[1].rank == Rank::Three && cards[2].rank == Rank::Three {
        let b = cards[1];
        let c = cards[2];
        proof {
            assert(a != b && a != c && b != c);
        }
        let (hi, mid, lo) = order3_desc(a, b, c);
        let h = Hand::Trips(hi, mid, lo);
        proof {
            assert(h.spec_cards()[0] == hi && h.spec_cards()[1] == mid && h.spec_cards()[2] == lo);
            assert(h.spec_cards().contains(a)) by {
                if hi == a {
                    assert(h.spec_cards()[0] == a);
                } else if mid == a {
                    assert(h.spec_cards()[1] == a);
                } else {
                    assert(h.spec_cards()[2] == a);
                }
            }
            assert(h.spec_cards().contains(b)) by {
                if hi == b {
                    assert(h.spec_cards()[0] == b);
                } else if mid == b {
                    assert(h.spec_cards()[1] == b);
                } else {
                    assert(h.spec_cards()[2] == b);
                }
            }
            assert(h.spec_cards().contains(c)) by {
                if hi == c {
                    assert(h.spec_cards()[0] == c);
                } else if mid == c {
                    assert(h.spec_cards()[1] == c);
                } else {
                    assert(h.spec_cards()[2] == c);
                }
            }
        }
        h
    } else if cards.len() >= 2 && cards[1].rank == Rank::Three {
        let b = cards[1];
        proof {
            assert(a != b);
            lemma_card_value(a);
            lemma_card_value(b);
        }
        let h = if card_lt(&b, &a) {
            Hand::Pair(a, b)
        } else {
            Hand::Pair(b, a)
        };
        proof {
            assert(h.spec_cards().contains(a) && h.spec_cards().contains(b)) by {
                assert(h.spec_cards()[0] == a || h.spec_cards()[1] == a);
            }
        }
        h
    } else {
        let h = Hand::Lone(a);
        proof {
            assert(h.spec_cards()[0] == a);
        }
        h
    }
}

/// Answers a lone hand with the first held card that beats it, and passes
/// otherwise; any hand of more cards is passed on.
pub fn play_smallest_single_or_pass(hand: &Hand, cards: &Vec<Card>) -> (h: Hand)
    ensures
        h == single_reply(*hand, cards@),
        h.wf(),
{
    if let Hand::Lone(c) = *hand {
        proof {
            assert(cards@.skip(0) =~= cards@);
        }
        let mut i: usize = 0;
        while i < cards.len()
            invariant
                *hand == Hand::Lone(c),
                i <= cards@.len(),
                lone_above(cards@, c) == lone_above(cards@.skip(i as int), c),
            decreases cards@.len() - i,
        {
            if card_lt(&c, &cards[i]) {
                proof {
                    assert(cards@.skip(i as int)[0] == cards@[i as int]);
                }
                return Hand::Lone(cards[i]);
            }
            proof {
                assert(cards@.skip(i as int).drop_first() =~= cards@.skip(i + 1));
            }
            i += 1;
        }
        proof {
            assert(cards@.skip(cards@.len() as int) =~= Seq::<Card>::empty());
        }
        Hand::Pass
    } else {
        Hand::Pass
    }
}

/// Leads a new trick with the first held card, the lowest when the cards
/// are kept in ascending order.
pub fn start_trick_with_lowest_single(cards: &Vec<Card>) -> (h: Hand)
    requires
        cards@.len() > 0,
    ensures
        h == Hand::Lone(cards@[0]),
{
    Hand::Lone(cards[0])
}

} // verus!
