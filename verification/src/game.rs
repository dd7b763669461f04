//! The game state machine: turn order around a four-player table, trick
//! boundaries tracked through the set of players who have passed, and the
//! single externally visible transition `step`, which parses a line of
//! input, checks its legality, applies it, and advances the turn.
//!
//! The engine treats the game as over the moment any player's card set
//! becomes empty: the player who emptied their hand is the winner, callers
//! consult `is_on` after every step, and no further step is meaningful once
//! it returns false.

pub mod check_player_can_play_hand;
pub mod next_player_id;

use rand::seq::SliceRandom;
use vstd::pervasive::unreached;
use vstd::prelude::*;

use crate::card::{sort_cards_ascending, sorted_ascending, three_of_clubs, Card, Rank, Suit};
use crate::deck::Deck;
use crate::game::check_player_can_play_hand::{
    check_player_can_play_hand, spec_can_play, PlayHandError,
};
use crate::game::next_player_id::{next_player_id, next_player_spec};
use crate::hand::text::parse_hand_chars;
use crate::hand::try_from::{has_duplicate, ParseHandError};
use crate::hand::Hand;
use crate::player::get_ai_input::{
    play_smallest_single_or_pass, play_three_of_clubs, single_reply, start_trick_with_lowest_single,
};
use crate::player::{lemma_without_hand_keeps_distinct, without_hand, Player};

verus! {

/// There are variations of this game for other table sizes; this engine
/// plays the base game of four.
pub const NUM_PLAYERS: usize = 4;

/// The current state of a game.
#[derive(Debug)]
pub struct Game {
    /// The history of all hands played by all players, in order; the last
    /// entry is the hand to beat, and the last hand played wins the game.
    pub played_hands: Vec<Hand>,
    /// The players and their remaining cards, indexed 0 through 3.
    pub players: Vec<Player>,
    /// The index of the player whose turn it is.
    pub current_player_idx: usize,
    /// The players who have passed during the current trick, each index at
    /// most once.
    pub passed_player_idxs: Vec<usize>,
    /// Whether the next legal move starts a fresh trick.
    pub is_start_trick: bool,
}

/// The ways a step of the game can be refused.
#[derive(Clone, Copy, Debug, PartialEq, Eq, Structural)]
pub enum GameStepError {
    /// The input did not parse into a valid hand.
    ParseHandError(ParseHandError),
    /// The hand is not legal for the acting player right now.
    PlayHandError(PlayHandError),
}

/// The mathematical state of a game: the play history, each player's
/// remaining cards, whose turn it is, who has passed this trick, and
/// whether a fresh trick is starting.
#[verifier::ext_equal]
pub ghost struct GameModel {
    pub played_hands: Seq<Hand>,
    pub hands: Seq<Seq<Card>>,
    pub current_player_idx: usize,
    pub passed_player_idxs: Seq<usize>,
    pub is_start_trick: bool,
}

impl View for Game {
    type V = GameModel;

    open spec fn view(&self) -> GameModel {
        GameModel {
            played_hands: self.played_hands@,
            hands: self.players@.map_values(|p: Player| p.cards@),
            current_player_idx: self.current_player_idx,
            passed_player_idxs: self.passed_player_idxs@,
            is_start_trick: self.is_start_trick,
        }
    }
}

/// The hand to beat: the most recent entry of the play history.
pub open spec fn last_of(played: Seq<Hand>) -> Option<Hand> {
    if played.len() == 0 {
        None
    } else {
        Some(played.last())
    }
}

/// A legal move applied to the model: a pass adds the acting player to the
/// passed set, any other hand leaves the player's cards and enters the
/// history; then the turn advances past every passed player, and when all
/// but one player have passed, the passed set clears and the next move
/// starts a fresh trick.
pub open spec fn apply_move(g: GameModel, hand: Hand) -> GameModel {
    let cur = g.current_player_idx;
    let played1 = if hand is Pass {
        g.played_hands
    } else {
        g.played_hands.push(hand)
    };
    let hands1 = if hand is Pass {
        g.hands
    } else {
        g.hands.update(cur as int, without_hand(g.hands[cur as int], hand))
    };
    let passed1 = if hand is Pass {
        g.passed_player_idxs.push(cur)
    } else {
        g.passed_player_idxs
    };
    let next = next_player_spec(cur as int, passed1, NUM_PLAYERS as int);
    if passed1.len() == NUM_PLAYERS - 1 {
        GameModel {
            played_hands: played1,
            hands: hands1,
            current_player_idx: next as usize,
            passed_player_idxs: Seq::empty(),
            is_start_trick: true,
        }
    } else {
        GameModel {
            played_hands: played1,
            hands: hands1,
            current_player_idx: next as usize,
            passed_player_idxs: passed1,
            is_start_trick: false,
        }
    }
}

/// What one step decides and does: the input is parsed into a hand, the
/// hand is checked against the acting player and the hand to beat, and on
/// success the move is applied and the turn advances; on any failure the
/// state is unchanged and the specific error is reported.
pub open spec fn step_spec(g: GameModel, input: Seq<char>) -> (GameModel, Result<
    (),
    GameStepError,
>) {
    match parse_hand_chars(input) {
        Err(e) => (g, Err(GameStepError::ParseHandError(e))),
        Ok(hand) => match spec_can_play(
            last_of(g.played_hands),
            g.hands[g.current_player_idx as int],
            hand,
            g.is_start_trick,
        ) {
            Err(e) => (g, Err(GameStepError::PlayHandError(e))),
            Ok(u) => (apply_move(g, hand), Ok(())),
        },
    }
}

impl Game {
    /// Well-formedness: four players; a current index in range and not among
    /// the passed; a passed set of in-range indices, each at most once,
    /// never reaching all players but one at rest; a cleared passed set
    /// whenever a fresh trick starts; a history of well-formed non-pass
    /// hands; and duplicate-free cards at every player.
    pub open spec fn wf(self) -> bool {
        &&& self.players@.len() == NUM_PLAYERS
        &&& self.current_player_idx < NUM_PLAYERS
        &&& forall|i: int|
            0 <= i < self.passed_player_idxs@.len() ==> (#[trigger] self.passed_player_idxs@[i])
                < NUM_PLAYERS
        &&& forall|i: int, j: int|
            0 <= i < j < self.passed_player_idxs@.len() ==> #[trigger] self.passed_player_idxs@[i]
                != #[trigger] self.passed_player_idxs@[j]
        &&& self.passed_player_idxs@.len() < NUM_PLAYERS - 1
        &&& !self.passed_player_idxs@.contains(self.current_player_idx)
        &&& (self.is_start_trick ==> self.passed_player_idxs@.len() == 0)
        &&& forall|i: int|
            0 <= i < self.played_hands@.len() ==> (#[trigger] self.played_hands@[i]).wf() && !(
            self.played_hands@[i] is Pass)
        &&& forall|p: int|
            0 <= p < self.players@.len() ==> !has_duplicate((#[trigger] self.players@[p]).cards@)
    }

    /// True while the game is not yet finished: no player has emptied their
    /// hand.
    pub fn is_on(&self) -> (r: bool)
        ensures
            r == (forall|i: int|
                0 <= i < self.players@.len() ==> (#[trigger] self.players@[i]).cards@.len() > 0),
    {
        let mut i: usize = 0;
        while i < self.players.len()
            invariant
                i <= self.players@.len(),
                forall|k: int| 0 <= k < i ==> (#[trigger] self.players@[k]).cards@.len() > 0,
            decreases self.players@.len() - i,
        {
            if self.players[i].cards.len() == 0 {
                return false;
            }
            i += 1;
        }
        true
    }

    /// Steps the game on one line of input: parse, check legality, apply,
    /// advance the turn, and reset the trick when all but one player have
    /// passed. On any failure the state is unchanged, the acting player
    /// keeps the turn, and the error says what was wrong.
    pub fn step(&mut self, input: &str) -> (r: Result<(), GameStepError>)
        requires
            old(self).wf(),
        ensures
            final(self).wf(),
            r == step_spec(old(self)@, input@).1,
            final(self)@ == step_spec(old(self)@, input@).0,
    {
        let ghost g0 = self@;
        let hand = match Hand::from_text(input) {
            Err(e) => {
                return Err(GameStepError::ParseHandError(e));
            },
            Ok(h) => h,
        };
        proof {
            assert(g0.hands[g0.current_player_idx as int] == self.players@[
                self.current_player_idx as int].cards@);
        }
        let n_played = self.played_hands.len();
        let check_res = if n_played == 0 {
            check_player_can_play_hand(
                None,
                &self.players[self.current_player_idx],
                &hand,
                self.is_start_trick,
            )
        } else {
            check_player_can_play_hand(
                Some(&self.played_hands[n_played - 1]),
                &self.players[self.current_player_idx],
                &hand,
                self.is_start_trick,
            )
        };
        proof {
            assert(check_res == spec_can_play(
                last_of(g0.played_hands),
                g0.hands[g0.current_player_idx as int],
                hand,
                g0.is_start_trick,
            ));
        }
        match check_res {
            Err(e) => {
                return Err(GameStepError::PlayHandError(e));
            },
            Ok(u) => {},
        }
        if let Hand::Pass = hand {
            self.passed_player_idxs.push(self.current_player_idx);
        } else {
            let idx = self.current_player_idx;
            let p = vstd::std_specs::vec::vec_index_mut(&mut self.players, idx);
            p.remove_hand_from_cards(&hand);
            self.played_hands.push(hand);
            proof {
                assert(self.players@.map_values(|q: Player| q.cards@) =~= g0.hands.update(
                    idx as int,
                    without_hand(g0.hands[idx as int], hand),
                ));
                lemma_without_hand_keeps_distinct(g0.hands[idx as int], hand);
            }
        }
        let ghost passed1 = self.passed_player_idxs@;
        proof {
            assert(exists|x: usize| x < NUM_PLAYERS && !passed1.contains(x)) by {
                if passed1.contains(0usize) && passed1.contains(1usize) && passed1.contains(2usize)
                    && passed1.contains(3usize) {
                    let i0 = choose|i: int| 0 <= i < passed1.len() && passed1[i] == 0usize;
                    let i1 = choose|i: int| 0 <= i < passed1.len() && passed1[i] == 1usize;
                    let i2 = choose|i: int| 0 <= i < passed1.len() && passed1[i] == 2usize;
                    let i3 = choose|i: int| 0 <= i < passed1.len() && passed1[i] == 3usize;
                    assert(passed1.len() >= 4);
                } else if !passed1.contains(0usize) {
                    assert(0usize < NUM_PLAYERS && !passed1.contains(0usize));
                } else if !passed1.contains(1usize) {
                    assert(1usize < NUM_PLAYERS && !passed1.contains(1usize));
                } else if !passed1.contains(2usize) {
                    assert(2usize < NUM_PLAYERS && !passed1.contains(2usize));
                } else {
                    assert(3usize < NUM_PLAYERS && !passed1.contains(3usize));
                }
            }
        }
        let next = next_player_id(self.current_player_idx, &self.passed_player_idxs, NUM_PLAYERS);
        self.current_player_idx = next;
        if self.passed_player_idxs.len() == NUM_PLAYERS - 1 {
            self.passed_player_idxs.clear();
            self.is_start_trick = true;
        } else {
            self.is_start_trick = false;
        }
        proof {
            assert(self@ =~= apply_move(g0, hand));
        }
        Ok(())
    }

    /// Chooses the computer player's move for the current state: open the
    /// game on the Three of Clubs, lead a fresh trick with the lowest held
    /// card, and otherwise answer the hand to beat with the first held card
    /// above it, or pass.
    pub fn get_npc_turn(&self) -> (h: Hand)
        requires
            self.wf(),
            self.players@[self.current_player_idx as int].cards@.len() > 0,
            self.played_hands@.len() == 0 ==> self.players@[self.current_player_idx as int].cards@[0]
                == three_of_clubs(),
        ensures
            h.wf(),
            ({
                let cards = self.players@[self.current_player_idx as int].cards@;
                if self.played_hands@.len() == 0 {
                    &&& h.spec_cards().contains(three_of_clubs())
                    &&& if cards.len() >= 3 && cards[1].rank == Rank::Three && cards[2].rank
                        == Rank::Three {
                        h is Trips && h.spec_cards().contains(cards[0]) && h.spec_cards().contains(
                            cards[1],
                        ) && h.spec_cards().contains(cards[2])
                    } else if cards.len() >= 2 && cards[1].rank == Rank::Three {
                        h is Pair && h.spec_cards().contains(cards[0]) && h.spec_cards().contains(
                            cards[1],
                        )
                    } else {
                        h == Hand::Lone(three_of_clubs())
                    }
                } else if self.is_start_trick {
                    h == Hand::Lone(cards[0])
                } else {
                    h == single_reply(self.played_hands@.last(), cards)
                }
            }),
    {
        let player = &self.players[self.current_player_idx];
        if self.played_hands.len() > 0 {
            if self.is_start_trick {
                start_trick_with_lowest_single(&player.cards)
            } else {
                let n = self.played_hands.len();
                play_smallest_single_or_pass(&self.played_hands[n - 1], &player.cards)
            }
        } else {
            play_three_of_clubs(&player.cards)
        }
    }
}

/// Relies on rand's `SliceRandom::shuffle` driven by `thread_rng`: a
/// Fisher-Yates shuffle that permutes the slice in place, so exactly the
/// same cards remain, in a uniformly random order.
#[verifier::external_body]
fn shuffle_cards(cards: &mut Vec<Card>)
    ensures
        final(cards)@.to_multiset() == old(cards)@.to_multiset(),
        final(cards)@.len() == old(cards)@.len(),
{
    cards.as_mut_slice().shuffle(&mut rand::thread_rng());
}

/// Shuffles the deck and deals all of it out, like a human dealer: thirteen
/// cards to each of the four players, each player's cards kept in ascending
/// order, the four sets together being exactly the deck.
pub fn shuffle_and_deal_cards(players: &mut Vec<Player>, deck: Deck)
    requires
        deck.cards@.len() == 52,
    ensures
        final(players)@.len() == NUM_PLAYERS,
        forall|p: int| 0 <= p < NUM_PLAYERS ==> (#[trigger] final(players)@[p]).cards@.len() == 13,
        forall|p: int|
            0 <= p < NUM_PLAYERS ==> sorted_ascending((#[trigger] final(players)@[p]).cards@),
        final(players)@[0].cards@.to_multiset().add(final(players)@[1].cards@.to_multiset()).add(
            final(players)@[2].cards@.to_multiset(),
        ).add(final(players)@[3].cards@.to_multiset()) == deck.cards@.to_multiset(),
        !has_duplicate(deck.cards@) ==> forall|p: int|
            0 <= p < NUM_PLAYERS ==> !has_duplicate((#[trigger] final(players)@[p]).cards@),
        deck.cards@.contains(three_of_clubs()) ==> exists|p: int|
            0 <= p < NUM_PLAYERS && (#[trigger] final(players)@[p]).cards@.contains(
                three_of_clubs(),
            ),
{
    broadcast use vstd::seq_lib::group_to_multiset_ensures;
    broadcast use vstd::multiset::group_multiset_axioms;

    let ghost deck0 = deck.cards@;
    let mut cards = deck.cards;
    shuffle_cards(&mut cards);
    let mut dealt: Vec<Player> = Vec::new();
    let mut p: usize = 0;
    while p < 4
        invariant
            cards@.len() == 52,
            cards@.to_multiset() == deck0.to_multiset(),
            p <= 4,
            dealt@.len() == p,
            forall|q: int| 0 <= q < p ==> (#[trigger] dealt@[q]).cards@.len() == 13,
            forall|q: int| 0 <= q < p ==> sorted_ascending((#[trigger] dealt@[q]).cards@),
            forall|q: int|
                0 <= q < p ==> (#[trigger] dealt@[q]).cards@.to_multiset() == cards@.subrange(
                    13 * q,
                    13 * q + 13,
                ).to_multiset(),
        decreases 4 - p,
    {
        let mut hand_cards: Vec<Card> = Vec::new();
        let mut i: usize = 0;
        while i < 13
            invariant
                p < 4,
                i <= 13,
                cards@.len() == 52,
                hand_cards@ == cards@.subrange(13 * p as int, 13 * p + i),
            decreases 13 - i,
        {
            hand_cards.push(cards[13 * p + i]);
            proof {
                assert(cards@.subrange(13 * p as int, 13 * p + i + 1) =~= cards@.subrange(
                    13 * p as int,
                    13 * p + i,
                ).push(cards@[13 * p + i]));
            }
            i += 1;
        }
        sort_cards_ascending(&mut hand_cards);
        dealt.push(Player { cards: hand_cards });
        p += 1;
    }
    *players = dealt;
    proof {
        let s = cards@;
        let b0 = s.subrange(0, 13);
        let b1 = s.subrange(13, 26);
        let b2 = s.subrange(26, 39);
        let b3 = s.subrange(39, 52);
        assert(s =~= b0 + b1 + b2 + b3);
        vstd::seq_lib::lemma_multiset_commutative(b0 + b1 + b2, b3);
        vstd::seq_lib::lemma_multiset_commutative(b0 + b1, b2);
        vstd::seq_lib::lemma_multiset_commutative(b0, b1);
        assert(s.to_multiset() == b0.to_multiset().add(b1.to_multiset()).add(
            b2.to_multiset(),
        ).add(b3.to_multiset()));
        assert(players@[0].cards@.to_multiset() == b0.to_multiset());
        assert(players@[1].cards@.to_multiset() == b1.to_multiset());
        assert(players@[2].cards@.to_multiset() == b2.to_multiset());
        assert(players@[3].cards@.to_multiset() == b3.to_multiset());
        if !has_duplicate(deck0) {
            assert(deck0.no_duplicates());
            deck0.lemma_multiset_has_no_duplicates();
            assert forall|q: int| 0 <= q < NUM_PLAYERS implies !has_duplicate(
                (#[trigger] players@[q]).cards@,
            ) by {
                let pc = players@[q].cards@;
                assert forall|x: Card| pc.to_multiset().contains(x) implies pc.to_multiset().count(
                    x,
                ) == 1 by {
                    assert(s.to_multiset().count(x) == deck0.to_multiset().count(x));
                    assert(s.to_multiset().count(x) == b0.to_multiset().count(x)
                        + b1.to_multiset().count(x) + b2.to_multiset().count(x)
                        + b3.to_multiset().count(x));
                    if deck0.to_multiset().count(x) > 0 {
                        assert(deck0.contains(x));
                        assert(deck0.to_multiset().count(x) == 1);
                    }
                }
                pc.lemma_multiset_has_no_duplicates_conv();
            }
        }
        if deck0.contains(three_of_clubs()) {
            let tc = three_of_clubs();
            assert(deck0.to_multiset().count(tc) > 0);
            assert(s.to_multiset().count(tc) == b0.to_multiset().count(tc) + b1.to_multiset().count(
                tc,
            ) + b2.to_multiset().count(tc) + b3.to_multiset().count(tc));
            if b0.to_multiset().count(tc) > 0 {
                assert(players@[0].cards@.to_multiset().count(tc) > 0);
                assert(players@[0].cards@.contains(tc));
            } else if b1.to_multiset().count(tc) > 0 {
                assert(players@[1].cards@.to_multiset().count(tc) > 0);
                assert(players@[1].cards@.contains(tc));
            } else if b2.to_multiset().count(tc) > 0 {
                assert(players@[2].cards@.to_multiset().count(tc) > 0);
                assert(players@[2].cards@.contains(tc));
            } else {
                assert(players@[3].cards@.to_multiset().count(tc) > 0);
                assert(players@[3].cards@.contains(tc));
            }
        }
    }
}

/// Finds the first player who holds the Three of Clubs: the game can only
/// begin with them.
pub fn find_player_with_three_of_clubs(players: &Vec<Player>) -> (r: usize)
    requires
        exists|p: int|
            0 <= p < players@.len() && (#[trigger] players@[p]).cards@.contains(three_of_clubs()),
    ensures
        r < players@.len(),
        players@[r as int].cards@.contains(three_of_clubs()),
        forall|q: int| 0 <= q < r ==> !(#[trigger] players@[q]).cards@.contains(three_of_clubs()),
{
    let tc = Card { rank: Rank::Three, suit: Suit::Clubs };
    let lone = Hand::Lone(tc);
    proof {
        assert(lone.spec_cards()[0] == three_of_clubs());
    }
    let mut i: usize = 0;
    while i < players.len()
        invariant
            lone == Hand::Lone(three_of_clubs()),
            i <= players@.len(),
            exists|p: int|
                0 <= p < players@.len() && (#[trigger] players@[p]).cards@.contains(
                    three_of_clubs(),
                ),
            forall|q: int|
                0 <= q < i ==> !(#[trigger] players@[q]).cards@.contains(three_of_clubs()),
        decreases players@.len() - i,
    {
        if players[i].has_cards(&lone) {
            proof {
                assert(players@[i as int].cards@.contains(lone.spec_cards()[0]));
            }
            return i;
        }
        proof {
            if players@[i as int].cards@.contains(three_of_clubs()) {
                assert(forall|k: int|
                    0 <= k < lone.spec_cards().len() ==> players@[i as int].cards@.contains(
                        #[trigger] lone.spec_cards()[k],
                    ));
            }
        }
        i += 1;
    }
    proof {
        let p = choose|p: int|
            0 <= p < players@.len() && (#[trigger] players@[p]).cards@.contains(three_of_clubs());
        assert(false);
    }
    unreached()
}

impl Default for Game {
    /// A fresh game: a shuffled deck dealt out thirteen cards to each
    /// player, the four hands together partitioning the full 52-card deck,
    /// an empty history, and the holder of the Three of Clubs to move first
    /// on a fresh trick.
    fn default() -> (g: Game)
        ensures
            g.wf(),
            g.played_hands@.len() == 0,
            g.passed_player_idxs@.len() == 0,
            g.is_start_trick,
            forall|p: int| 0 <= p < NUM_PLAYERS ==> (#[trigger] g.players@[p]).cards@.len() == 13,
            forall|p: int|
                0 <= p < NUM_PLAYERS ==> sorted_ascending((#[trigger] g.players@[p]).cards@),
            g.players@[0].cards@.to_multiset().add(g.players@[1].cards@.to_multiset()).add(
                g.players@[2].cards@.to_multiset(),
            ).add(g.players@[3].cards@.to_multiset()) == crate::deck::full_deck().to_multiset(),
            g.players@[g.current_player_idx as int].cards@.contains(three_of_clubs()),
            forall|q: int|
                0 <= q < g.current_player_idx ==> !(#[trigger] g.players@[q]).cards@.contains(
                    three_of_clubs(),
                ),
    {
        let deck = Deck::new();
        let mut players: Vec<Player> = Vec::new();
        shuffle_and_deal_cards(&mut players, deck);
        let starting_player = find_player_with_three_of_clubs(&players);
        Game {
            played_hands: Vec::new(),
            players,
            current_player_idx: starting_player,
            passed_player_idxs: Vec::new(),
            is_start_trick: true,
        }
    }
}

/// Trick reset: when the acting player's pass brings the passed set up to
/// all players but one, the set clears and the very next move starts a
/// fresh trick.
pub proof fn lemma_trick_reset(g: GameModel, input: Seq<char>)
    requires
        parse_hand_chars(input) == Ok::<Hand, ParseHandError>(Hand::Pass),
        step_spec(g, input).1 is Ok,
        g.passed_player_idxs.len() == NUM_PLAYERS - 2,
    ensures
        step_spec(g, input).0.is_start_trick,
        step_spec(g, input).0.passed_player_idxs.len() == 0,
{
}

} // verus!
