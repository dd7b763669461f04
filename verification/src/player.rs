//! A player: the owner of a duplicate-free set of cards dealt at game
//! start, which shrinks only when a legally played hand is removed. An
//! emptied card set is the game's win signal.

pub mod get_ai_input;

use vstd::prelude::*;
use vstd::string::StringExecFns;

use crate::card::{rank_str, suit_str, Card};
use crate::hand::text::card_chars;
use crate::hand::Hand;

verus! {

/// A player and the cards they still hold.
#[derive(Debug)]
pub struct Player {
    pub cards: Vec<Card>,
}

/// A card sequence with the cards of a hand taken out.
pub open spec fn without_hand(cards: Seq<Card>, hand: Hand) -> Seq<Card> {
    cards.filter(|c: Card| !hand.spec_cards().contains(c))
}

/// Whether a card sequence holds every card of a hand.
pub open spec fn holds_all(cards: Seq<Card>, hand: Hand) -> bool {
    forall|i: int| 0 <= i < hand.spec_cards().len() ==> cards.contains(#[trigger] hand.spec_cards()[i])
}

/// Removing a hand keeps a duplicate-free card sequence duplicate-free.
pub proof fn lemma_without_hand_keeps_distinct(cards: Seq<Card>, hand: Hand)
    requires
        !crate::hand::try_from::has_duplicate(cards),
    ensures
        !crate::hand::try_from::has_duplicate(without_hand(cards, hand)),
{
    let p = |c: Card| !hand.spec_cards().contains(c);
    lemma_filter_keeps_distinct(cards, p);
    assert(without_hand(cards, hand) == cards.filter(p));
}

/// Filtering keeps a duplicate-free card sequence duplicate-free.
pub proof fn lemma_filter_keeps_distinct(s: Seq<Card>, pred: spec_fn(Card) -> bool)
    requires
        !crate::hand::try_from::has_duplicate(s),
    ensures
        !crate::hand::try_from::has_duplicate(s.filter(pred)),
    decreases s.len(),
{
    reveal(Seq::filter);
    broadcast use vstd::seq_lib::group_filter_ensures;

    if s.len() == 0 {
    } else {
        let butlast = s.drop_last();
        assert(!crate::hand::try_from::has_duplicate(butlast)) by {
            if crate::hand::try_from::has_duplicate(butlast) {
                let (i, j) = choose|i: int, j: int|
                    0 <= i < j < butlast.len() && #[trigger] butlast[i] == #[trigger] butlast[j];
                assert(s[i] == s[j]);
            }
        }
        lemma_filter_keeps_distinct(butlast, pred);
        let f = butlast.filter(pred);
        if pred(s.last()) {
            assert(s.filter(pred) == f.push(s.last()));
            assert(!f.contains(s.last())) by {
                if f.contains(s.last()) {
                    butlast.lemma_filter_contains_rev(pred, s.last());
                    let m = choose|m: int| 0 <= m < butlast.len() && butlast[m] == s.last();
                    assert(s[m] == s[s.len() - 1]);
                }
            }
            assert(!crate::hand::try_from::has_duplicate(f.push(s.last()))) by {
                if crate::hand::try_from::has_duplicate(f.push(s.last())) {
                    let g = f.push(s.last());
                    let (i, j) = choose|i: int, j: int|
                        0 <= i < j < g.len() && #[trigger] g[i] == #[trigger] g[j];
                    if j < g.len() - 1 {
                        assert(f[i] == f[j]);
                    } else {
                        assert(f[i] == s.last());
                        assert(f.contains(f[i]));
                    }
                }
            }
        }
    }
}

impl Default for Player {
    /// A player holding no cards yet.
    fn default() -> (p: Player)
        ensures
            p.cards@.len() == 0,
    {
        Player { cards: Vec::new() }
    }
}

impl Player {
    /// Whether the player holds every card of the hand.
    pub open spec fn spec_has_cards(self, hand: Hand) -> bool {
        holds_all(self.cards@, hand)
    }

    /// Decides whether every card of the hand is present in the player's
    /// cards. Read-only.
    pub fn has_cards(&self, hand: &Hand) -> (r: bool)
        ensures
            r == self.spec_has_cards(*hand),
    {
        let hcs = hand.cards();
        let mut i: usize = 0;
        while i < hcs.len()
            invariant
                hcs@ == hand.spec_cards(),
                i <= hcs@.len(),
                forall|k: int| 0 <= k < i ==> self.cards@.contains(#[trigger] hcs@[k]),
            decreases hcs@.len() - i,
        {
            if !contains_card(&self.cards, &hcs[i]) {
                return false;
            }
            i += 1;
        }
        true
    }

    /// Removes exactly the hand's cards from the player's set. The caller
    /// must already have checked that the player holds them.
    pub fn remove_hand_from_cards(&mut self, hand: &Hand)
        requires
            old(self).spec_has_cards(*hand),
        ensures
            final(self).cards@ == without_hand(old(self).cards@, *hand),
    {
        let hcs = hand.cards();
        let mut kept: Vec<Card> = Vec::new();
        let mut i: usize = 0;
        while i < self.cards.len()
            invariant
                self.cards@ == old(self).cards@,
                hcs@ == hand.spec_cards(),
                i <= self.cards@.len(),
                kept@ == without_hand(self.cards@.take(i as int), *hand),
            decreases self.cards@.len() - i,
        {
            let c = self.cards[i];
            if !contains_card(&hcs, &c) {
                kept.push(c);
            }
            proof {
                reveal(Seq::filter);
                assert(self.cards@.take(i + 1).drop_last() =~= self.cards@.take(i as int));
                assert(self.cards@.take(i + 1).last() == self.cards@[i as int]);
                assert(kept@ == without_hand(self.cards@.take(i + 1), *hand));
            }
            i += 1;
        }
        proof {
            assert(self.cards@.take(self.cards@.len() as int) =~= self.cards@);
        }
        self.cards = kept;
    }
}

/// Decides whether a card occurs in a card vector.
fn contains_card(cards: &Vec<Card>, c: &Card) -> (r: bool)
    ensures
        r == cards@.contains(*c),
{
    let mut i: usize = 0;
    while i < cards.len()
        invariant
            i <= cards@.len(),
            forall|k: int| 0 <= k < i ==> cards@[k] != *c,
        decreases cards@.len() - i,
    {
        if cards[i] == *c {
            proof {
                assert(cards@[i as int] == *c);
            }
            return true;
        }
        i += 1;
    }
    proof {
        assert(!cards@.contains(*c));
    }
    false
}

/// The banner text of a card run: each card's token between vertical bars.
pub open spec fn banner_text(cs: Seq<Card>) -> Seq<char>
    decreases cs.len(),
{
    if cs.len() == 0 {
        Seq::empty()
    } else {
        seq!['|'] + card_chars(cs[0]) + seq!['|'] + banner_text(cs.drop_first())
    }
}

/// Writes a card run for display: each card's token between vertical bars.
pub fn cards_to_string(cards: &[Card]) -> (out: String)
    ensures
        out@ == banner_text(cards@),
{
    proof {
        assert(cards@.skip(0) =~= cards@);
    }
    banner_from(cards, 0)
}

/// The banner text of the cards from position `i` on.
fn banner_from(cards: &[Card], i: usize) -> (out: String)
    requires
        i <= cards@.len(),
    ensures
        out@ == banner_text(cards@.skip(i as int)),
    decreases cards@.len() - i,
{
    let mut out = String::new();
    if i == cards.len() {
        proof {
            assert(cards@.skip(i as int) =~= Seq::<Card>::empty());
        }
        return out;
    }
    let c = cards[i];
    out.append("|");
    out.append(rank_str(c.rank));
    out.append(suit_str(c.suit));
    out.append("|");
    let rest = banner_from(cards, i + 1);
    out.append(rest.as_str());
    let ghost s = cards@.skip(i as int);
    proof {
        reveal_strlit("|");
        assert("|"@ =~= seq!['|']);
        assert(s[0] == cards@[i as int]);
        assert(s.drop_first() =~= cards@.skip(i + 1));
        assert(out@ =~= seq!['|'] + card_chars(s[0]) + seq!['|'] + banner_text(s.drop_first()));
    }
    out
}

} // verus!
