//! The test suite carried by the engine since its early versions: parsing,
//! legality checking, player card bookkeeping, and the greedy move helpers.

use bigtwo::card::{Card, Rank, Suit};
use bigtwo::game::check_player_can_play_hand::{check_player_can_play_hand, PlayHandError};
use bigtwo::hand::try_from::{InvalidHandError, ParseHandError};
use bigtwo::hand::Hand;
use bigtwo::player::get_ai_input::{play_smallest_single_or_pass, play_three_of_clubs};
use bigtwo::player::Player;

fn vec_card_from_str(s: &str) -> Vec<Card> {
    s.split(' ')
        .map(|token| Card::from_text(token).unwrap())
        .collect()
}

fn three_of_clubs() -> Card {
    Card {
        rank: Rank::Three,
        suit: Suit::Clubs,
    }
}

#[test]
fn test_get_user_input() {
    let cards = vec_card_from_str("3C 3D 3S 4H 4D 4S");
    let mut player = Player::default();
    player.cards = cards;
    assert_eq!(player.cards.len(), 6);
}

#[test]
fn test_check_player_can_play_hand() {
    // start game w/ no hand to beat
    let player = Player {
        cards: vec_card_from_str("3C 3S"),
    };

    let hand = Hand::from_text("3S").unwrap();
    let res = check_player_can_play_hand(None, &player, &hand, true);
    assert!(matches!(
        res,
        Err(PlayHandError::NotThreeOfClubsToStartGame)
    ));

    let hand = Hand::from_text("3C").unwrap();
    let res = check_player_can_play_hand(None, &player, &hand, true);
    assert!(matches!(res, Ok(_)));

    // a new trick begins with a Three of Clubs
    let hand_to_beat = Hand::from_text("3C").unwrap();

    // the player has a few cards
    let cards = vec_card_from_str("3D 3S 4H 4D 4S");
    let mut player = Player::default();
    player.cards = cards;

    // plays a Three of Spades
    let hand = Hand::from_text("3S").unwrap();
    let res = check_player_can_play_hand(Some(&hand_to_beat), &player, &hand, false);
    assert!(matches!(res, Ok(())));

    // update the hand to beat
    let hand_to_beat = hand;

    // incorrectly plays a Three of Diamonds, reject
    let hand = Hand::from_text("3D").unwrap();
    let res = check_player_can_play_hand(Some(&hand_to_beat), &player, &hand, false);
    assert!(matches!(res, Err(PlayHandError::TooLow)));

    // incorrectly plays a Pair of Fours, reject
    let hand = Hand::from_text("4H 4D").unwrap();
    let res = check_player_can_play_hand(Some(&hand_to_beat), &player, &hand, false);
    assert!(matches!(res, Err(PlayHandError::NotMatching)));

    // incorrectly plays cards they don't have
    let hand = Hand::from_text("2S").unwrap();
    let res = check_player_can_play_hand(Some(&hand_to_beat), &player, &hand, false);
    assert!(matches!(res, Err(PlayHandError::StolenCards)));

    // passes
    let hand = Hand::from_text("").unwrap();
    let res = check_player_can_play_hand(Some(&hand_to_beat), &player, &hand, false);
    assert!(matches!(res, Ok(_)));

    // loses
    let hand_to_beat = Hand::from_text("7D 6H 5C 4H 3D").unwrap();
    let cards = vec_card_from_str("7C 6D 5H 4D 3S");
    let hand = Hand::try_from_cards(&cards[..]).unwrap();
    let mut player = Player::default();
    player.cards = cards;
    let res = check_player_can_play_hand(Some(&hand_to_beat), &player, &hand, false);
    assert!(matches!(res, Err(PlayHandError::TooLow)));

    // wins
    let cards = vec_card_from_str("7S 6D 5H 4D 3S");
    let hand = Hand::try_from_cards(&cards[..]).unwrap();
    player.cards = cards;
    let res = check_player_can_play_hand(Some(&hand_to_beat), &player, &hand, false);
    assert!(matches!(res, Ok(_)));

    // start new trick, can play anything
    let cards = vec_card_from_str("3H");
    let hand = Hand::try_from_cards(&cards[..]).unwrap();
    player.cards = cards;
    let res = check_player_can_play_hand(Some(&hand_to_beat), &player, &hand, true);
    assert!(matches!(res, Ok(_)));

    // start new trick, cannot pass
    let cards = vec![];
    let hand = Hand::try_from_cards(&cards[..]).unwrap();
    player.cards = cards;
    let res = check_player_can_play_hand(Some(&hand_to_beat), &player, &hand, true);
    assert!(matches!(res, Err(PlayHandError::PassedOnTrickStart)));
}

#[test]
fn test_bad_hand_to_from_string() {
    let hand = Hand::from_text("AJ");
    assert!(matches!(hand, Err(ParseHandError::BadCard(_))));

    let hand = Hand::from_text("7D 5C 4C 3");
    assert!(matches!(hand, Err(ParseHandError::BadCard(_))));

    let hand = Hand::from_text("7D 5C 4C 3C");
    assert!(matches!(
        hand,
        Err(ParseHandError::InvalidHand(InvalidHandError::WrongQuantity))
    ));

    let hand = Hand::from_text("3C 4D");
    assert!(matches!(hand, Err(ParseHandError::NotSortedDescending)));

    let hand = Hand::from_text("7D 3C 4C 5C 3C");
    assert!(matches!(hand, Err(ParseHandError::DuplicateCard)));

    let hand = Hand::from_text("2D 3S");
    assert!(matches!(
        hand,
        Err(ParseHandError::InvalidHand(InvalidHandError::UnmatchedPair))
    ));

    let hand = Hand::from_text("2S 2H 3S");
    assert!(matches!(
        hand,
        Err(ParseHandError::InvalidHand(
            InvalidHandError::UnmatchedTrips
        ))
    ));

    let hand = Hand::from_text("2S 2H 5S 4S 3D");
    assert!(matches!(
        hand,
        Err(ParseHandError::InvalidHand(
            InvalidHandError::NotAFiveCardHand
        ))
    ));
}

#[test]
fn test_good_hand_to_from_string() {
    let good_hands = [
        "",
        "2S",
        "3D 3C",
        "KS KH KC",
        "8S 7D 6S 5C 4C",
        "AD TD 5D 4D 3D",
        "2S 2D 7S 7D 7C",
        "7S 7D 7C 4H 4D",
        "2S 5S 5H 5D 5C",
        "AS AH AD AC TS",
    ];
    for expected_hand in good_hands {
        let hand = Hand::from_text(expected_hand);
        assert!(matches!(hand, Ok(_)));
        let result_hand = hand.unwrap();
        let result_string = result_hand.to_text();
        assert_eq!(expected_hand, result_string);
    }
}

#[test]
fn test_has_cards() {
    let cards = vec_card_from_str("3C 3S 4H 4D 4S");
    let mut player = Player::default();
    player.cards = cards;

    let hand = Hand::from_text("3C").unwrap();
    assert!(player.has_cards(&hand));

    let hand = Hand::from_text("3S 3C").unwrap();
    assert!(player.has_cards(&hand));

    let hand = Hand::from_text("4S 4H 4D").unwrap();
    assert!(player.has_cards(&hand));

    let hand = Hand::from_text("3D").unwrap();
    assert!(!player.has_cards(&hand));

    let hand = Hand::from_text("4S 4H 4C").unwrap();
    assert!(!player.has_cards(&hand));
}

#[test]
fn test_remove_cards_from_hand() {
    let mut player = Player::default();
    player.cards = vec_card_from_str("3D 3S 5S 6S");
    player.remove_hand_from_cards(&Hand::from_text("3S 3D").unwrap());
    assert!(!player.cards.contains(&Card::from_text("3S").unwrap()));
    assert!(!player.cards.contains(&Card::from_text("3D").unwrap()));
    assert!(player.cards.contains(&Card::from_text("5S").unwrap()));
    assert!(player.cards.contains(&Card::from_text("6S").unwrap()));
}

#[test]
fn test_play_smallest_single_or_pass() {
    let hand_to_beat = Hand::from_text("4H").unwrap();
    let player_cards = vec_card_from_str("4D 4S 5C");
    let hand = play_smallest_single_or_pass(&hand_to_beat, &player_cards);
    assert!(matches!(
        hand,
        Hand::Lone(Card {
            rank: Rank::Four,
            suit: Suit::Spades
        })
    ));

    let hand_to_beat = Hand::from_text("4H 4C").unwrap();
    let player_cards = vec_card_from_str("4D 4S 5C");
    let hand = play_smallest_single_or_pass(&hand_to_beat, &player_cards);
    assert!(matches!(hand, Hand::Pass));

    let hand_to_beat = Hand::from_text("6C").unwrap();
    let player_cards = vec_card_from_str("4D 4S 5C");
    let hand = play_smallest_single_or_pass(&hand_to_beat, &player_cards);
    assert!(matches!(hand, Hand::Pass));
}

#[test]
fn test_play_three_of_clubs() {
    let cards = vec_card_from_str("3C 4C 5D 2S");
    let hand = play_three_of_clubs(&cards);
    assert!(matches!(hand, Hand::Lone(a) if a == three_of_clubs()));

    let cards = vec_card_from_str("3C 3D 5D 2S");
    let hand = play_three_of_clubs(&cards);
    assert!(matches!(hand, Hand::Pair(_, a) if a == three_of_clubs()));

    let cards = vec_card_from_str("3C 3D 3S 2S");
    let hand = play_three_of_clubs(&cards);
    assert!(matches!(hand, Hand::Trips(_, _, a) if a == three_of_clubs()));
}
