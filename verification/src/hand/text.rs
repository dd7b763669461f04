//! The hand text syntax: whitespace-separated two-symbol card tokens, with
//! decorative punctuation stripped before tokenizing. An empty string (after
//! stripping) is a pass. Tokens must already be in strictly descending card
//! order. Formatting a valid hand and re-parsing it yields the same hand.

use vstd::prelude::*;
use vstd::string::{StrSliceExecFns, StringExecFns};

use crate::card::{
    lemma_rank_char_inverse, lemma_suit_char_inverse, parse_card_chars, rank_char, rank_str,
    suit_char, suit_str, Card, ParseCardError,
};
use crate::hand::try_from::{classify, has_duplicate, lemma_classify_wf, sanitize_spec, ParseHandError};
use crate::hand::{lemma_sorted_no_duplicate, lemma_wf_sorted, Hand};

verus! {

/// A whitespace character: trimmed from both ends of the input.
pub open spec fn is_blank(c: char) -> bool {
    c == ' ' || c == '\t' || c == '\n' || c == '\r'
}

/// Decorative punctuation: stripped from the input before tokenizing.
pub open spec fn is_decorative(c: char) -> bool {
    c == '(' || c == ')' || c == ',' || c == '"' || c == '.' || c == ';' || c == ':' || c == '\''
        || c == '|'
}

/// The input without its leading whitespace.
pub open spec fn trim_front(s: Seq<char>) -> Seq<char>
    decreases s.len(),
{
    if s.len() > 0 && is_blank(s[0]) {
        trim_front(s.drop_first())
    } else {
        s
    }
}

/// The input without its trailing whitespace.
pub open spec fn trim_back(s: Seq<char>) -> Seq<char>
    decreases s.len(),
{
    if s.len() > 0 && is_blank(s[s.len() - 1]) {
        trim_back(s.drop_last())
    } else {
        s
    }
}

/// The input without leading and trailing whitespace.
pub open spec fn trim_spec(s: Seq<char>) -> Seq<char> {
    trim_back(trim_front(s))
}

/// The input with every decorative character removed.
pub open spec fn strip_spec(s: Seq<char>) -> Seq<char> {
    s.filter(|c: char| !is_decorative(c))
}

/// The input split on single spaces, as Rust's splitter does it: an empty
/// input yields one empty token, and every space ends the token before it.
pub open spec fn split_spaces(s: Seq<char>) -> Seq<Seq<char>>
    decreases s.len(),
{
    if s.len() == 0 {
        seq![Seq::<char>::empty()]
    } else {
        let rest = split_spaces(s.drop_first());
        if s[0] == ' ' {
            seq![Seq::<char>::empty()] + rest
        } else {
            seq![seq![s[0]] + rest[0]] + rest.drop_first()
        }
    }
}

/// The tokens read as cards, in order; the first bad token decides the error.
pub open spec fn parse_tokens(ts: Seq<Seq<char>>) -> Result<Seq<Card>, ParseCardError>
    decreases ts.len(),
{
    if ts.len() == 0 {
        Ok(Seq::empty())
    } else {
        match parse_card_chars(ts[0]) {
            Err(e) => Err(e),
            Ok(c) => match parse_tokens(ts.drop_first()) {
                Err(e) => Err(e),
                Ok(rest) => Ok(seq![c] + rest),
            },
        }
    }
}

/// What parsing decides for a raw input: trim whitespace, strip decoration,
/// read an empty rest as a pass, otherwise tokenize on spaces, read every
/// token as a card, sanitize the cards, and classify them into a hand.
pub open spec fn parse_hand_chars(s: Seq<char>) -> Result<Hand, ParseHandError> {
    let t = strip_spec(trim_spec(s));
    if t.len() == 0 {
        Ok(Hand::Pass)
    } else {
        match parse_tokens(split_spaces(t)) {
            Err(e) => Err(ParseHandError::BadCard(e)),
            Ok(cards) => match sanitize_spec(cards) {
                Err(e) => Err(e),
                Ok(u) => classify(cards),
            },
        }
    }
}

/// Decides whether a character is whitespace.
fn blank_char(c: char) -> (r: bool)
    ensures
        r == is_blank(c),
{
    c == ' ' || c == '\t' || c == '\n' || c == '\r'
}

/// Decides whether a character is decorative punctuation.
fn decorative_char(c: char) -> (r: bool)
    ensures
        r == is_decorative(c),
{
    c == '(' || c == ')' || c == ',' || c == '"' || c == '.' || c == ';' || c == ':' || c == '\''
        || c == '|'
}

/// The characters of a string, in order.
fn collect_chars(s: &str) -> (v: Vec<char>)
    ensures
        v@ == s@,
{
    let n = s.unicode_len();
    let mut v: Vec<char> = Vec::new();
    let mut i: usize = 0;
    while i < n
        invariant
            n == s@.len(),
            i <= n,
            v@ =~= s@.subrange(0, i as int),
        decreases n - i,
    {
        v.push(s.get_char(i));
        i += 1;
    }
    proof {
        assert(v@ =~= s@);
    }
    v
}

/// Dropping `k` leading blanks, up to the first non-blank, is what
/// `trim_front` does.
proof fn lemma_trim_front_skip(s: Seq<char>, k: int)
    requires
        0 <= k <= s.len(),
        forall|i: int| 0 <= i < k ==> is_blank(#[trigger] s[i]),
        k < s.len() ==> !is_blank(s[k]),
    ensures
        trim_front(s) == s.skip(k),
    decreases k,
{
    if k == 0 {
        assert(s.skip(0) =~= s);
    } else {
        lemma_trim_front_skip(s.drop_first(), k - 1);
        assert(s.drop_first().skip(k - 1) =~= s.skip(k));
    }
}

/// Keeping the first `h` characters, back to the last non-blank, is what
/// `trim_back` does.
proof fn lemma_trim_back_take(s: Seq<char>, h: int)
    requires
        0 <= h <= s.len(),
        forall|i: int| h <= i < s.len() ==> is_blank(#[trigger] s[i]),
        h > 0 ==> !is_blank(s[h - 1]),
    ensures
        trim_back(s) == s.take(h),
    decreases s.len() - h,
{
    if h == s.len() {
        assert(s.take(h) =~= s);
    } else {
        lemma_trim_back_take(s.drop_last(), h);
        assert(s.drop_last().take(h) =~= s.take(h));
    }
}

/// The input without leading and trailing whitespace.
fn trim_chars(v: &Vec<char>) -> (t: Vec<char>)
    ensures
        t@ == trim_spec(v@),
{
    let n = v.len();
    let mut lo: usize = 0;
    while lo < n && blank_char(v[lo])
        invariant
            n == v@.len(),
            lo <= n,
            forall|i: int| 0 <= i < lo ==> is_blank(#[trigger] v@[i]),
        decreases n - lo,
    {
        lo += 1;
    }
    let mut hi: usize = n;
    while hi > lo && blank_char(v[hi - 1])
        invariant
            n == v@.len(),
            lo <= hi <= n,
            forall|i: int| hi <= i < n ==> is_blank(#[trigger] v@[i]),
        decreases hi,
    {
        hi -= 1;
    }
    proof {
        lemma_trim_front_skip(v@, lo as int);
        lemma_trim_back_take(v@.skip(lo as int), hi - lo);
        assert(v@.skip(lo as int).take(hi - lo) =~= v@.subrange(lo as int, hi as int));
    }
    let mut t: Vec<char> = Vec::new();
    let mut k: usize = lo;
    while k < hi
        invariant
            n == v@.len(),
            lo <= k <= hi <= n,
            t@ =~= v@.subrange(lo as int, k as int),
        decreases hi - k,
    {
        t.push(v[k]);
        k += 1;
    }
    proof {
        assert(t@ =~= v@.subrange(lo as int, hi as int));
    }
    t
}

/// The input with every decorative character removed.
fn strip_chars(v: &Vec<char>) -> (t: Vec<char>)
    ensures
        t@ == strip_spec(v@),
{
    let mut t: Vec<char> = Vec::new();
    let mut i: usize = 0;
    while i < v.len()
        invariant
            i <= v@.len(),
            t@ == strip_spec(v@.take(i as int)),
        decreases v@.len() - i,
    {
        let c = v[i];
        if !decorative_char(c) {
            t.push(c);
        }
        proof {
            reveal(Seq::filter);
            assert(v@.take(i + 1).drop_last() =~= v@.take(i as int));
            assert(v@.take(i + 1).last() == v@[i as int]);
            assert(t@ == strip_spec(v@.take(i + 1)));
        }
        i += 1;
    }
    proof {
        assert(v@.take(v@.len() as int) =~= v@);
    }
    t
}

/// The token views of a vector of token vectors.
pub open spec fn tokens_view(ts: Seq<Vec<char>>) -> Seq<Seq<char>> {
    ts.map_values(|t: Vec<char>| t@)
}

/// The input from position `i` on, split on single spaces.
fn split_from(v: &Vec<char>, i: usize) -> (r: Vec<Vec<char>>)
    requires
        i <= v@.len(),
    ensures
        tokens_view(r@) == split_spaces(v@.skip(i as int)),
        r@.len() >= 1,
    decreases v@.len() - i,
{
    if i == v.len() {
        let mut r: Vec<Vec<char>> = Vec::new();
        r.push(Vec::new());
        proof {
            assert(v@.skip(i as int) =~= Seq::<char>::empty());
            assert(tokens_view(r@) =~= split_spaces(v@.skip(i as int)));
        }
        r
    } else {
        let c = v[i];
        let ghost tail = v@.skip(i + 1);
        let mut rest = split_from(v, i + 1);
        proof {
            assert(v@.skip(i as int).drop_first() =~= tail);
            assert(v@.skip(i as int)[0] == v@[i as int]);
        }
        if c == ' ' {
            rest.insert(0, Vec::new());
            proof {
                assert(tokens_view(rest@) =~~= seq![Seq::<char>::empty()] + split_spaces(tail));
            }
            rest
        } else {
            let mut first = rest.remove(0);
            first.insert(0, c);
            rest.insert(0, first);
            proof {
                assert(tokens_view(rest@) =~~= seq![seq![v@[i as int]] + split_spaces(tail)[0]]
                    + split_spaces(tail).drop_first());
            }
            rest
        }
    }
}

/// Reads one token as a card.
fn parse_card_token(t: &Vec<char>) -> (r: Result<Card, ParseCardError>)
    ensures
        r == parse_card_chars(t@),
{
    if t.len() != 2 {
        return Err(ParseCardError::NotTwoSymbols);
    }
    let rank = match crate::card::parse_rank(t[0]) {
        Some(r) => r,
        None => {
            return Err(ParseCardError::BadRank);
        },
    };
    let suit = match crate::card::parse_suit(t[1]) {
        Some(su) => su,
        None => {
            return Err(ParseCardError::BadSuit);
        },
    };
    Ok(Card { rank, suit })
}

/// Reads the tokens from position `i` on as cards; the first bad token
/// decides the error.
fn parse_tokens_from(tokens: &Vec<Vec<char>>, i: usize) -> (r: Result<Vec<Card>, ParseCardError>)
    requires
        i <= tokens@.len(),
    ensures
        match r {
            Ok(cs) => parse_tokens(tokens_view(tokens@).skip(i as int)) == Ok::<
                Seq<Card>,
                ParseCardError,
            >(cs@),
            Err(e) => parse_tokens(tokens_view(tokens@).skip(i as int)) == Err::<
                Seq<Card>,
                ParseCardError,
            >(e),
        },
    decreases tokens@.len() - i,
{
    if i == tokens.len() {
        proof {
            assert(tokens_view(tokens@).skip(i as int) =~= Seq::<Seq<char>>::empty());
        }
        Ok(Vec::new())
    } else {
        let ghost ts = tokens_view(tokens@).skip(i as int);
        proof {
            assert(ts[0] == tokens@[i as int]@);
            assert(ts.drop_first() =~~= tokens_view(tokens@).skip(i + 1));
        }
        match parse_card_token(&tokens[i]) {
            Err(e) => Err(e),
            Ok(c) => match parse_tokens_from(tokens, i + 1) {
                Err(e) => Err(e),
                Ok(mut cs) => {
                    let ghost prev = cs@;
                    cs.insert(0, c);
                    proof {
                        assert(cs@ =~= seq![c] + prev);
                    }
                    Ok(cs)
                },
            },
        }
    }
}

impl Hand {
    /// Parses a line of text into a hand: whitespace-separated card tokens,
    /// already in strictly descending order; an empty line is a pass.
    pub fn from_text(s: &str) -> (r: Result<Hand, ParseHandError>)
        ensures
            r == parse_hand_chars(s@),
            r matches Ok(h) ==> h.wf(),
    {
        let chars = collect_chars(s);
        let trimmed = trim_chars(&chars);
        let stripped = strip_chars(&trimmed);
        if stripped.len() == 0 {
            return Ok(Hand::Pass);
        }
        let tokens = split_from(&stripped, 0);
        proof {
            assert(stripped@.skip(0) =~= stripped@);
            assert(tokens_view(tokens@).skip(0) =~= tokens_view(tokens@));
        }
        let cards = match parse_tokens_from(&tokens, 0) {
            Err(e) => {
                return Err(ParseHandError::BadCard(e));
            },
            Ok(cs) => cs,
        };
        match Hand::sanitize_cards(cards.as_slice()) {
            Err(e) => {
                return Err(e);
            },
            Ok(u) => {},
        }
        Hand::try_from_cards(cards.as_slice())
    }

    /// Writes the hand back as text: its card tokens, highest first,
    /// separated by single spaces; a pass is the empty string.
    pub fn to_text(&self) -> (out: String)
        ensures
            out@ == hand_text(*self),
    {
        let cards = self.cards();
        proof {
            assert(cards@.skip(0) =~= cards@);
        }
        text_from(&cards, 0)
    }
}

/// The two-character token of a card: its rank symbol, then its suit symbol.
pub open spec fn card_chars(c: Card) -> Seq<char> {
    seq![rank_char(c.rank), suit_char(c.suit)]
}

/// The tokens of a card sequence, in order.
pub open spec fn card_tokens(cs: Seq<Card>) -> Seq<Seq<char>> {
    cs.map_values(|c: Card| card_chars(c))
}

/// The text of a card sequence: the cards' tokens joined by single spaces.
pub open spec fn cards_text(cs: Seq<Card>) -> Seq<char>
    decreases cs.len(),
{
    if cs.len() == 0 {
        Seq::empty()
    } else if cs.len() == 1 {
        card_chars(cs[0])
    } else {
        card_chars(cs[0]) + seq![' '] + cards_text(cs.drop_first())
    }
}

/// The text of a hand: the text of its cards, highest first.
pub open spec fn hand_text(h: Hand) -> Seq<char> {
    cards_text(h.spec_cards())
}

/// The text of the cards from position `i` on.
fn text_from(cards: &Vec<Card>, i: usize) -> (out: String)
    requires
        i <= cards@.len(),
    ensures
        out@ == cards_text(cards@.skip(i as int)),
    decreases cards@.len() - i,
{
    let mut out = String::new();
    if i == cards.len() {
        proof {
            assert(cards@.skip(i as int) =~= Seq::<Card>::empty());
        }
        return out;
    }
    let c = cards[i];
    out.append(rank_str(c.rank));
    out.append(suit_str(c.suit));
    let ghost s = cards@.skip(i as int);
    proof {
        assert(s[0] == cards@[i as int]);
        assert(s.drop_first() =~= cards@.skip(i + 1));
    }
    if i + 1 < cards.len() {
        out.append(" ");
        let rest = text_from(cards, i + 1);
        out.append(rest.as_str());
        proof {
            reveal_strlit(" ");
            assert(" "@ =~= seq![' ']);
            assert(out@ =~= card_chars(s[0]) + seq![' '] + cards_text(s.drop_first()));
        }
    } else {
        proof {
            assert(s.len() == 1);
            assert(out@ =~= card_chars(s[0]));
        }
    }
    out
}

/// Rank and suit symbols are never whitespace and never decorative.
proof fn lemma_card_char_class(c: Card)
    ensures
        !is_blank(rank_char(c.rank)),
        !is_decorative(rank_char(c.rank)),
        rank_char(c.rank) != ' ',
        !is_blank(suit_char(c.suit)),
        !is_decorative(suit_char(c.suit)),
        suit_char(c.suit) != ' ',
{
    match c.rank {
        crate::card::Rank::Three => {},
        crate::card::Rank::Four => {},
        crate::card::Rank::Five => {},
        crate::card::Rank::Six => {},
        crate::card::Rank::Seven => {},
        crate::card::Rank::Eight => {},
        crate::card::Rank::Nine => {},
        crate::card::Rank::Ten => {},
        crate::card::Rank::Jack => {},
        crate::card::Rank::Queen => {},
        crate::card::Rank::King => {},
        crate::card::Rank::Ace => {},
        crate::card::Rank::Two => {},
    }
    match c.suit {
        crate::card::Suit::Diamonds => {},
        crate::card::Suit::Clubs => {},
        crate::card::Suit::Hearts => {},
        crate::card::Suit::Spades => {},
    }
}

/// The shape of a nonempty card run's text: three characters per card less
/// the final space, a rank symbol first, a suit symbol last, and nothing
/// decorative anywhere.
proof fn lemma_cards_text_shape(cs: Seq<Card>)
    requires
        cs.len() > 0,
    ensures
        cards_text(cs).len() == 3 * cs.len() - 1,
        cards_text(cs)[0] == rank_char(cs[0].rank),
        !is_blank(cards_text(cs)[0]),
        cards_text(cs).last() == suit_char(cs.last().suit),
        !is_blank(cards_text(cs).last()),
        forall|i: int|
            0 <= i < cards_text(cs).len() ==> !is_decorative(#[trigger] cards_text(cs)[i]),
    decreases cs.len(),
{
    lemma_card_char_class(cs[0]);
    let t = cards_text(cs);
    if cs.len() == 1 {
        assert forall|i: int| 0 <= i < t.len() implies !is_decorative(#[trigger] t[i]) by {
            assert(i == 0 || i == 1);
        }
    } else {
        let rest = cs.drop_first();
        lemma_cards_text_shape(rest);
        let rt = cards_text(rest);
        assert(t =~= card_chars(cs[0]) + seq![' '] + rt);
        assert(t.last() == rt.last());
        assert(rest.last() == cs.last());
        assert forall|i: int| 0 <= i < t.len() implies !is_decorative(#[trigger] t[i]) by {
            if i == 0 || i == 1 {
            } else if i == 2 {
                assert(t[i] == ' ');
            } else {
                assert(t[i] == rt[i - 3]);
            }
        }
    }
}

/// Text that neither starts nor ends in whitespace is its own trim.
proof fn lemma_trim_id(s: Seq<char>)
    requires
        s.len() > 0,
        !is_blank(s[0]),
        !is_blank(s[s.len() - 1]),
    ensures
        trim_spec(s) == s,
{
}

/// Text with nothing decorative in it is its own strip.
proof fn lemma_strip_id(s: Seq<char>)
    requires
        forall|i: int| 0 <= i < s.len() ==> !is_decorative(#[trigger] s[i]),
    ensures
        strip_spec(s) == s,
    decreases s.len(),
{
    reveal(Seq::filter);
    if s.len() == 0 {
    } else {
        lemma_strip_id(s.drop_last());
        assert(s.drop_last().push(s.last()) =~= s);
    }
}

/// A single card token splits into itself.
proof fn lemma_split_single(c: Card)
    ensures
        split_spaces(card_chars(c)) == seq![card_chars(c)],
{
    lemma_card_char_class(c);
    let s = card_chars(c);
    let sc = seq![suit_char(c.suit)];
    assert(split_spaces(Seq::<char>::empty()) =~~= seq![Seq::<char>::empty()]);
    assert(sc.drop_first() =~= Seq::<char>::empty());
    assert(seq![Seq::<char>::empty()].drop_first() =~~= Seq::<Seq<char>>::empty());
    assert(seq![sc[0]] + Seq::<char>::empty() =~= sc);
    assert(split_spaces(sc) =~~= seq![sc]);
    assert(s.drop_first() =~= sc);
    assert(seq![s[0]] + sc =~= s);
    assert(split_spaces(s) =~~= seq![s]);
}

/// A card token, a space, and a rest split into the token and the rest's
/// split.
proof fn lemma_split_cons(c: Card, rest: Seq<char>)
    ensures
        split_spaces(card_chars(c) + seq![' '] + rest) == seq![card_chars(c)] + split_spaces(rest),
{
    lemma_card_char_class(c);
    let s = card_chars(c) + seq![' '] + rest;
    let s2 = seq![suit_char(c.suit)] + seq![' '] + rest;
    let s3 = seq![' '] + rest;
    assert(s3.drop_first() =~= rest);
    assert(split_spaces(s3) =~~= seq![Seq::<char>::empty()] + split_spaces(rest));
    assert(s2.drop_first() =~= s3);
    assert((seq![Seq::<char>::empty()] + split_spaces(rest)).drop_first() =~~= split_spaces(rest));
    assert(seq![s2[0]] + split_spaces(s3)[0] =~= seq![suit_char(c.suit)]);
    assert(split_spaces(s2) =~~= seq![seq![suit_char(c.suit)]] + split_spaces(rest));
    assert(s.drop_first() =~= s2);
    assert((seq![seq![suit_char(c.suit)]] + split_spaces(rest)).drop_first() =~~= split_spaces(
        rest,
    ));
    assert(seq![s[0]] + split_spaces(s2)[0] =~= card_chars(c));
    assert(split_spaces(s) =~~= seq![card_chars(c)] + split_spaces(rest));
}

/// The text of a nonempty card run splits back into exactly the cards'
/// tokens.
proof fn lemma_split_cards(cs: Seq<Card>)
    requires
        cs.len() > 0,
    ensures
        split_spaces(cards_text(cs)) == card_tokens(cs),
    decreases cs.len(),
{
    if cs.len() == 1 {
        lemma_split_single(cs[0]);
        assert(card_tokens(cs) =~~= seq![card_chars(cs[0])]);
    } else {
        lemma_split_cards(cs.drop_first());
        lemma_split_cons(cs[0], cards_text(cs.drop_first()));
        assert(card_tokens(cs) =~~= seq![card_chars(cs[0])] + card_tokens(cs.drop_first()));
    }
}

/// A card's token parses back to the card it was written for.
proof fn lemma_parse_card_token(c: Card)
    ensures
        parse_card_chars(card_chars(c)) == Ok::<Card, ParseCardError>(c),
{
    lemma_rank_char_inverse(c.rank);
    lemma_suit_char_inverse(c.suit);
}

/// The tokens of a card run parse back to exactly those cards.
proof fn lemma_parse_tokens_cards(cs: Seq<Card>)
    ensures
        parse_tokens(card_tokens(cs)) == Ok::<Seq<Card>, ParseCardError>(cs),
    decreases cs.len(),
{
    let ts = card_tokens(cs);
    if cs.len() == 0 {
        assert(ts =~~= Seq::<Seq<char>>::empty());
        assert(cs =~= Seq::<Card>::empty());
    } else {
        lemma_parse_card_token(cs[0]);
        lemma_parse_tokens_cards(cs.drop_first());
        assert(ts.len() == cs.len());
        assert(ts[0] == card_chars(cs[0]));
        assert(ts.drop_first() =~~= card_tokens(cs.drop_first()));
        assert(parse_tokens(ts) == Ok::<Seq<Card>, ParseCardError>(seq![cs[0]] + cs.drop_first()));
        assert(seq![cs[0]] + cs.drop_first() =~= cs);
    }
}

/// The round trip of the text syntax: writing any well-formed hand back to
/// text and re-parsing that text reproduces the identical hand.
pub proof fn lemma_text_round_trip(h: Hand)
    requires
        h.wf(),
    ensures
        parse_hand_chars(hand_text(h)) == Ok::<Hand, ParseHandError>(h),
{
    let cs = h.spec_cards();
    if cs.len() == 0 {
        reveal(Seq::filter);
        assert(hand_text(h) =~= Seq::<char>::empty());
        assert(h == Hand::Pass);
    } else {
        let t = cards_text(cs);
        lemma_cards_text_shape(cs);
        lemma_trim_id(t);
        lemma_strip_id(t);
        lemma_split_cards(cs);
        lemma_parse_tokens_cards(cs);
        lemma_wf_sorted(h);
        assert(!has_duplicate(cs)) by {
            if has_duplicate(cs) {
                let (i, j) = choose|i: int, j: int| 0 <= i < j < cs.len() && #[trigger] cs[i] == #[trigger] cs[j];
                lemma_sorted_no_duplicate(cs, i, j);
            }
        }
        lemma_classify_wf(h);
        assert(strip_spec(trim_spec(t)) == t);
        assert(parse_hand_chars(hand_text(h)) == Ok::<Hand, ParseHandError>(h));
    }
}

} // verus!
