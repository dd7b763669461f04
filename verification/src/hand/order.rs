//! The hand comparator: decides which of two hands is higher, first by
//! category rank for five-card hands, then by highest card with the suit as
//! the tie-break. Hands of different sizes are incomparable.

use core::cmp::Ordering;
use vstd::prelude::*;

use crate::card::card_value;
use crate::hand::Hand;

verus! {

/// The rank of a five-card category: a hand of a higher category beats any
/// hand of a lower one, whatever the card values.
pub open spec fn category_value(h: Hand) -> int {
    match h {
        Hand::Straight(..) => 0,
        Hand::Flush(..) => 1,
        Hand::FullHouse(..) => 2,
        Hand::FourPlusKick(..) => 3,
        Hand::StraightFlush(..) => 4,
        _ => 0,
    }
}

/// The order of two integers, written as an `Ordering`.
pub open spec fn int_order(a: int, b: int) -> Ordering {
    if a > b {
        Ordering::Greater
    } else if a == b {
        Ordering::Equal
    } else {
        Ordering::Less
    }
}

/// What the comparator decides for two individually valid hands. Hands of
/// different cardinalities are incomparable. One-, two- and three-card hands
/// (whose category is implied by their size) compare by highest card.
/// Five-card hands compare by category first; only within one category do
/// the card values decide, again by highest card.
pub open spec fn order_spec(last: Hand, attempt: Hand) -> Option<Ordering> {
    let n1 = last.spec_cards().len();
    let n2 = attempt.spec_cards().len();
    if n1 != n2 {
        None
    } else if n1 == 0 {
        Some(Ordering::Equal)
    } else if n1 == 5 && category_value(last) != category_value(attempt) {
        Some(int_order(category_value(last), category_value(attempt)))
    } else {
        Some(int_order(card_value(last.spec_cards()[0]), card_value(attempt.spec_cards()[0])))
    }
}

impl Hand {
    /// The hand's category rank, as a machine integer.
    fn category_number(&self) -> (n: u8)
        ensures
            n as int == category_value(*self),
    {
        match self {
            Hand::Straight(..) => 0,
            Hand::Flush(..) => 1,
            Hand::FullHouse(..) => 2,
            Hand::FourPlusKick(..) => 3,
            Hand::StraightFlush(..) => 4,
            _ => 0,
        }
    }
}

/// Compares a machine integer pair into an `Ordering`.
fn number_order(a: u8, b: u8) -> (r: Ordering)
    ensures
        r == int_order(a as int, b as int),
{
    if a > b {
        Ordering::Greater
    } else if a == b {
        Ordering::Equal
    } else {
        Ordering::Less
    }
}

/// Decides which of two hands is higher: `Greater` when `last` outranks
/// `attempt`, `Less` when `attempt` outranks `last`, `None` when their
/// cardinalities differ and the hands are incomparable.
pub fn order(last: &Hand, attempt: &Hand) -> (r: Option<Ordering>)
    ensures
        r == order_spec(*last, *attempt),
{
    let n1 = last.count();
    let n2 = attempt.count();
    if n1 != n2 {
        None
    } else if n1 == 0 {
        Some(Ordering::Equal)
    } else if n1 == 5 {
        let c1 = last.category_number();
        let c2 = attempt.category_number();
        if c1 != c2 {
            Some(number_order(c1, c2))
        } else {
            Some(number_order(last.top_card().number(), attempt.top_card().number()))
        }
    } else {
        Some(number_order(last.top_card().number(), attempt.top_card().number()))
    }
}

/// Category dominance: between five-card hands of different categories the
/// comparator always ranks the one of the higher category above the other,
/// regardless of the numeric card values; so a straight flush beats a four
/// plus kicker, which beats a full house, which beats a flush, which beats a
/// straight.
pub proof fn lemma_category_dominance(higher: Hand, lower: Hand)
    requires
        higher.spec_cards().len() == 5,
        lower.spec_cards().len() == 5,
        category_value(higher) > category_value(lower),
    ensures
        order_spec(higher, lower) == Some(Ordering::Greater),
        order_spec(lower, higher) == Some(Ordering::Less),
{
}

} // verus!
