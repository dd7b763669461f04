//! The turn-legality check: whether a player may play an attempted hand,
//! given the hand to beat, whether a fresh trick is starting, and whether
//! the game has seen any play yet. Pure: it never changes state.

use core::cmp::Ordering;
use vstd::prelude::*;

use crate::card::{three_of_clubs, Card, Rank, Suit};
use crate::hand::order::{order, order_spec};
use crate::hand::Hand;
use crate::player::{holds_all, Player};

verus! {

/// The ways a player's attempted hand is not playable.
#[derive(Clone, Copy, Debug, PartialEq, Eq, Structural)]
pub enum PlayHandError {
    /// The very first played hand of a game must contain the Three of Clubs
    /// as its lowest card.
    NotThreeOfClubsToStartGame,
    /// The first play of a trick cannot be a pass.
    PassedOnTrickStart,
    /// The attempted hand must have as many cards as the hand to beat.
    NotMatching,
    /// The attempted hand does not rank above the hand to beat.
    TooLow,
    /// The attempted hand uses cards the player does not hold.
    StolenCards,
}

/// The hand behind an optional reference.
pub open spec fn last_view(o: Option<&Hand>) -> Option<Hand> {
    match o {
        Some(h) => Some(*h),
        None => None,
    }
}

/// What the legality check decides, in order: a pass is legal exactly when a
/// trick is underway; any other hand must be held in full; when a trick is
/// starting, anything held is playable unless nothing has been played in the
/// whole game yet, in which case the hand's lowest card must be the Three of
/// Clubs; when a trick is underway, the attempted hand must be comparable to
/// and rank above the hand to beat.
pub open spec fn spec_can_play(
    last: Option<Hand>,
    cards: Seq<Card>,
    attempt: Hand,
    is_start_trick: bool,
) -> Result<(), PlayHandError> {
    if attempt is Pass {
        if !is_start_trick {
            Ok(())
        } else {
            Err(PlayHandError::PassedOnTrickStart)
        }
    } else if !holds_all(cards, attempt) {
        Err(PlayHandError::StolenCards)
    } else {
        match last {
            Some(l) => if is_start_trick {
                Ok(())
            } else {
                match order_spec(l, attempt) {
                    Some(Ordering::Greater) => Err(PlayHandError::TooLow),
                    None => Err(PlayHandError::NotMatching),
                    _ => Ok(()),
                }
            },
            None => if attempt.spec_cards().last() == three_of_clubs() {
                Ok(())
            } else {
                Err(PlayHandError::NotThreeOfClubsToStartGame)
            },
        }
    }
}

/// Decides whether the player may play the attempted hand. Returns `Ok` when
/// the hand is playable and the specific refusal otherwise; reads state and
/// never changes it.
pub fn check_player_can_play_hand(
    last_played_hand: Option<&Hand>,
    player: &Player,
    attempt: &Hand,
    is_start_trick: bool,
) -> (r: Result<(), PlayHandError>)
    ensures
        r == spec_can_play(last_view(last_played_hand), player.cards@, *attempt, is_start_trick),
{
    if let Hand::Pass = attempt {
        if !is_start_trick {
            Ok(())
        } else {
            Err(PlayHandError::PassedOnTrickStart)
        }
    } else if !player.has_cards(attempt) {
        Err(PlayHandError::StolenCards)
    } else if let Some(last) = last_played_hand {
        if is_start_trick {
            Ok(())
        } else {
            match order(last, attempt) {
                Some(Ordering::Greater) => Err(PlayHandError::TooLow),
                None => Err(PlayHandError::NotMatching),
                _ => Ok(()),
            }
        }
    } else {
        let lowest = attempt.bottom_card();
        if lowest == (Card { rank: Rank::Three, suit: Suit::Clubs }) {
            Ok(())
        } else {
            Err(PlayHandError::NotThreeOfClubsToStartGame)
        }
    }
}

} // verus!
