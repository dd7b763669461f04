//! Tests of the comparator's category order, the classifier's variants, the
//! dealer, turn rotation, trick resets, and full steps of the state machine.

use std::cmp::Ordering;

use bigtwo::card::{Card, ParseCardError, Rank, Suit};
use bigtwo::game::next_player_id::next_player_id;
use bigtwo::game::{Game, GameStepError, NUM_PLAYERS};
use bigtwo::hand::order::order;
use bigtwo::hand::Hand;
use bigtwo::player::{cards_to_string, Player};

fn cards_of(s: &str) -> Vec<Card> {
    s.split(' ')
        .map(|token| Card::from_text(token).unwrap())
        .collect()
}

fn hand_of(s: &str) -> Hand {
    Hand::from_text(s).unwrap()
}

#[test]
fn test_classifier_variants() {
    assert!(matches!(hand_of(""), Hand::Pass));
    assert!(matches!(hand_of("2S"), Hand::Lone(..)));
    assert!(matches!(hand_of("3D 3C"), Hand::Pair(..)));
    assert!(matches!(hand_of("KS KH KC"), Hand::Trips(..)));
    assert!(matches!(hand_of("8S 7D 6S 5C 4C"), Hand::Straight(..)));
    assert!(matches!(hand_of("AD TD 5D 4D 3D"), Hand::Flush(..)));
    assert!(matches!(hand_of("2S 2D 7S 7D 7C"), Hand::FullHouse(..)));
    assert!(matches!(hand_of("7S 7D 7C 4H 4D"), Hand::FullHouse(..)));
    assert!(matches!(hand_of("2S 5S 5H 5D 5C"), Hand::FourPlusKick(..)));
    assert!(matches!(hand_of("AS AH AD AC TS"), Hand::FourPlusKick(..)));
    assert!(matches!(hand_of("7D 6D 5D 4D 3D"), Hand::StraightFlush(..)));
}

#[test]
fn test_card_token_errors() {
    assert!(matches!(
        Card::from_text("3"),
        Err(ParseCardError::NotTwoSymbols)
    ));
    assert!(matches!(
        Card::from_text("XD"),
        Err(ParseCardError::BadRank)
    ));
    assert!(matches!(
        Card::from_text("3X"),
        Err(ParseCardError::BadSuit)
    ));
    assert_eq!(
        Card::from_text("TS").unwrap(),
        Card {
            rank: Rank::Ten,
            suit: Suit::Spades
        }
    );
}

#[test]
fn test_parse_strips_decoration() {
    assert_eq!(hand_of("  (3D, 3C);  "), hand_of("3D 3C"));
}

#[test]
fn test_category_dominance_scenarios() {
    // A straight flush of low cards still beats a four plus kicker of the
    // highest cards, and so on down the category order.
    let straight_flush = hand_of("7D 6D 5D 4D 3D");
    let four_kick_high = hand_of("2S 2H 2D 2C AS");
    assert_eq!(
        order(&straight_flush, &four_kick_high),
        Some(Ordering::Greater)
    );
    assert_eq!(
        order(&four_kick_high, &straight_flush),
        Some(Ordering::Less)
    );

    let four_kick_low = hand_of("4H 3S 3H 3D 3C");
    let full_house_high = hand_of("2S 2D AS AH AD");
    assert_eq!(order(&four_kick_low, &full_house_high), Some(Ordering::Greater));
    assert_eq!(order(&full_house_high, &four_kick_low), Some(Ordering::Less));

    let full_house_low = hand_of("4S 4D 3S 3H 3D");
    let flush_high = hand_of("2S KS QS JS 3S");
    assert_eq!(order(&full_house_low, &flush_high), Some(Ordering::Greater));
    assert_eq!(order(&flush_high, &full_house_low), Some(Ordering::Less));

    let flush_low = hand_of("8D 7D 6D 5D 3D");
    let straight_high = hand_of("2S AS KH QD JC");
    assert_eq!(order(&flush_low, &straight_high), Some(Ordering::Greater));
    assert_eq!(order(&straight_high, &flush_low), Some(Ordering::Less));
}

#[test]
fn test_order_same_category_and_shapes() {
    // Within one category the highest card decides, suit breaking ties.
    let low = hand_of("8S 7D 6S 5C 4C");
    let high = hand_of("9D 8H 7C 6D 5H");
    assert_eq!(order(&low, &high), Some(Ordering::Less));

    // One-card hands compare by card; different sizes are incomparable.
    assert_eq!(order(&hand_of("3D"), &hand_of("3C")), Some(Ordering::Greater));
    assert_eq!(order(&hand_of("2S"), &hand_of("2D")), Some(Ordering::Greater));
    assert_eq!(order(&hand_of("3D 3C"), &hand_of("4D")), None);
}

#[test]
fn test_turn_rotation() {
    // With players 1 and 2 passed and player 0 acting, the turn skips to 3.
    let passed: Vec<usize> = vec![1, 2];
    assert_eq!(next_player_id(0, &passed, NUM_PLAYERS), 3);

    let no_passed: Vec<usize> = vec![];
    assert_eq!(next_player_id(0, &no_passed, NUM_PLAYERS), 1);
    assert_eq!(next_player_id(3, &no_passed, NUM_PLAYERS), 0);
}

fn small_game() -> Game {
    // Player 0 holds the Three of Clubs and acts first.
    Game {
        played_hands: vec![],
        players: vec![
            Player {
                cards: cards_of("3C 4D"),
            },
            Player {
                cards: cards_of("3H 5C"),
            },
            Player {
                cards: cards_of("3S 6C"),
            },
            Player {
                cards: cards_of("4C 7C"),
            },
        ],
        current_player_idx: 0,
        passed_player_idxs: vec![],
        is_start_trick: true,
    }
}

#[test]
fn test_step_errors_leave_state_unchanged() {
    let mut game = small_game();

    // Unparseable input.
    let res = game.step("junk");
    assert!(matches!(res, Err(GameStepError::ParseHandError(_))));
    assert_eq!(game.current_player_idx, 0);

    // The opening hand must contain the Three of Clubs.
    let res = game.step("4D");
    assert!(matches!(res, Err(GameStepError::PlayHandError(_))));
    assert_eq!(game.current_player_idx, 0);
    assert_eq!(game.players[0].cards.len(), 2);

    // Passing is illegal while a trick is starting.
    let res = game.step("");
    assert!(matches!(res, Err(GameStepError::PlayHandError(_))));
    assert_eq!(game.current_player_idx, 0);
}

#[test]
fn test_step_applies_legal_moves() {
    let mut game = small_game();

    // Player 0 opens on the Three of Clubs.
    assert!(game.step("3C").is_ok());
    assert_eq!(game.current_player_idx, 1);
    assert_eq!(game.players[0].cards.len(), 1);
    assert_eq!(game.played_hands.len(), 1);
    assert!(!game.is_start_trick);

    // Player 1 answers with the Three of Hearts.
    assert!(game.step("3H").is_ok());
    assert_eq!(game.current_player_idx, 2);

    // Player 2 tries a lower card and keeps the turn.
    let res = game.step("3C");
    assert!(matches!(res, Err(GameStepError::PlayHandError(_))));
    assert_eq!(game.current_player_idx, 2);

    // Player 2 beats it with the Three of Spades.
    assert!(game.step("3S").is_ok());
    assert_eq!(game.current_player_idx, 3);
}

#[test]
fn test_trick_reset() {
    // Players 1 and 2 have already passed on player 3's lone card; one more
    // pass clears the passed set and starts a fresh trick at player 3.
    let mut game = Game {
        played_hands: vec![hand_of("7C")],
        players: vec![
            Player {
                cards: cards_of("3C 4D"),
            },
            Player {
                cards: cards_of("3H 5C"),
            },
            Player {
                cards: cards_of("3S 6C"),
            },
            Player {
                cards: cards_of("4C"),
            },
        ],
        current_player_idx: 0,
        passed_player_idxs: vec![1, 2],
        is_start_trick: false,
    };
    assert!(game.step("").is_ok());
    assert!(game.is_start_trick);
    assert_eq!(game.passed_player_idxs.len(), 0);
    assert_eq!(game.current_player_idx, 3);
}

#[test]
fn test_default_deals_whole_deck() {
    let game = Game::default();
    assert!(game.is_on());
    assert_eq!(game.players.len(), NUM_PLAYERS);

    let mut seen: Vec<Card> = vec![];
    for player in &game.players {
        assert_eq!(player.cards.len(), 13);
        for card in &player.cards {
            assert!(!seen.contains(card));
            seen.push(*card);
        }
    }
    assert_eq!(seen.len(), 52);

    let three_of_clubs = Card {
        rank: Rank::Three,
        suit: Suit::Clubs,
    };
    assert!(game.players[game.current_player_idx]
        .cards
        .contains(&three_of_clubs));
}

#[test]
fn test_npc_turns_play_a_game_out() {
    // Let the greedy strategies play from a dealt game; the engine must
    // accept every move they propose until the game ends.
    let mut game = Game::default();
    let mut steps = 0;
    while game.is_on() && steps < 1000 {
        let hand = game.get_npc_turn();
        let text = hand.to_text();
        assert!(game.step(text.as_str()).is_ok());
        steps += 1;
    }
    assert!(!game.is_on());
}

#[test]
fn test_cards_to_string_banner() {
    let cards = cards_of("3C 4D");
    assert_eq!(cards_to_string(&cards), "|3C||4D|");
    let empty: Vec<Card> = vec![];
    assert_eq!(cards_to_string(&empty), "");
}
