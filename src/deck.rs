//! Building decks: the canonical deck, decks completed from a chosen prefix
//! of "leader" cards, the named scenarios, and random shuffles.
use vstd::prelude::*;

use rand::seq::SliceRandom;

use crate::card::{
    canonical_deck, card_at, index_of, lemma_card_at_index, lemma_index_of_card, parse_card, Card,
    Rank, Suit,
};
use crate::text::{lemma_split_on_start, lemma_split_on_step, split_on};

verus! {

/// What can go wrong when building a deck.
#[derive(Debug, Clone, Copy, PartialEq, Eq, Structural)]
pub enum DeckError {
    /// The leader prefix names the same card twice.
    DuplicateLeader,
}

/// A request for a custom deck: the leader cards as comma-separated tokens.
pub struct BlackjackQuery {
    pub cards: String,
}

/// The test that keeps a card out of the rest of the deck: it is not a leader.
pub open spec fn not_leader(leaders: Seq<Card>) -> spec_fn(Card) -> bool {
    |c: Card| !leaders.contains(c)
}

/// The cards that follow the leaders: every other card, in canonical order.
pub open spec fn remaining_cards(leaders: Seq<Card>) -> Seq<Card> {
    canonical_deck().filter(not_leader(leaders))
}

/// The deck that starts with `leaders`, in their order, and goes on with
/// every other card in canonical order.
pub open spec fn completed_deck(leaders: Seq<Card>) -> Seq<Card> {
    leaders + remaining_cards(leaders)
}

/// Some leader before position `k` has standard index `x`.
spec fn indexed_by_leader(leaders: Seq<Card>, k: int, x: usize) -> bool {
    exists|t: int| 0 <= t < k && index_of(#[trigger] leaders[t]) == x
}

/// Each element smaller than every later one.
pub open spec fn strictly_increasing(s: Seq<usize>) -> bool {
    forall|i: int, j: int| 0 <= i < j < s.len() ==> s[i] < s[j]
}

/// No card appears twice in the canonical deck, and every card appears in it.
pub proof fn lemma_canonical_deck_is_full()
    ensures
        canonical_deck().len() == 52,
        canonical_deck().no_duplicates(),
        forall|c: Card| canonical_deck().contains(c),
{
    assert forall|i: int, j: int|
        0 <= i < canonical_deck().len() && 0 <= j < canonical_deck().len() && i != j implies
        canonical_deck()[i] != canonical_deck()[j] by {
        lemma_card_at_index(i);
        lemma_card_at_index(j);
    }
    assert forall|c: Card| canonical_deck().contains(c) by {
        lemma_index_of_card(c);
        assert(canonical_deck()[index_of(c)] == c);
    }
}

/// Filtering a sequence without duplicates leaves no duplicates.
proof fn lemma_filter_no_duplicates(s: Seq<Card>, pred: spec_fn(Card) -> bool)
    requires
        s.no_duplicates(),
    ensures
        s.filter(pred).no_duplicates(),
    decreases s.len(),
{
    reveal(Seq::filter);
    if s.len() > 0 {
        let rest = s.drop_last();
        assert(rest.no_duplicates());
        lemma_filter_no_duplicates(rest, pred);
        if pred(s.last()) {
            if rest.filter(pred).contains(s.last()) {
                rest.lemma_filter_contains_rev(pred, s.last());
            }
        }
    }
}

/// Filtering with a test that every element passes changes nothing.
proof fn lemma_filter_keeps_all(s: Seq<Card>, pred: spec_fn(Card) -> bool)
    requires
        forall|i: int| 0 <= i < s.len() ==> pred(s[i]),
    ensures
        s.filter(pred) == s,
    decreases s.len(),
{
    reveal(Seq::filter);
    if s.len() > 0 {
        lemma_filter_keeps_all(s.drop_last(), pred);
        assert(s.drop_last().push(s.last()) =~= s);
    }
}

/// For distinct leaders, the completed deck holds all 52 cards, none twice,
/// and its first cards are the leaders in their own order. Leaders that are
/// already a full deck come back unchanged.
pub proof fn lemma_completed_deck_is_full(leaders: Seq<Card>)
    requires
        leaders.no_duplicates(),
    ensures
        completed_deck(leaders).len() == 52,
        completed_deck(leaders).no_duplicates(),
        completed_deck(leaders).take(leaders.len() as int) == leaders,
        forall|c: Card| completed_deck(leaders).contains(c),
        leaders.len() == 52 ==> completed_deck(leaders) == leaders,
{
    let rest = remaining_cards(leaders);
    let deck = completed_deck(leaders);
    lemma_canonical_deck_is_full();
    lemma_filter_no_duplicates(canonical_deck(), not_leader(leaders));
    assert forall|i: int, j: int| 0 <= i < leaders.len() && 0 <= j < rest.len() implies leaders[i]
        != rest[j] by {
        canonical_deck().lemma_filter_pred(not_leader(leaders), j);
    }
    vstd::seq_lib::lemma_no_dup_in_concat(leaders, rest);
    assert forall|c: Card| deck.contains(c) by {
        if leaders.contains(c) {
            let i = choose|i: int| 0 <= i < leaders.len() && leaders[i] == c;
            assert(deck[i] == c);
        } else {
            lemma_index_of_card(c);
            canonical_deck().lemma_filter_contains(not_leader(leaders), index_of(c));
            let j = choose|j: int| 0 <= j < rest.len() && rest[j] == c;
            assert(deck[leaders.len() + j] == c);
        }
    }
    assert(deck.to_set() =~= canonical_deck().to_set());
    deck.unique_seq_to_set();
    canonical_deck().unique_seq_to_set();
    assert(deck.take(leaders.len() as int) =~= leaders);
    if leaders.len() == 52 {
        assert(deck =~= leaders);
    }
}

/// Completing an empty prefix gives the canonical deck.
pub proof fn lemma_complete_empty_is_canonical()
    ensures
        completed_deck(Seq::empty()) == canonical_deck(),
{
    let none: Seq<Card> = Seq::empty();
    lemma_filter_keeps_all(canonical_deck(), not_leader(none));
    assert(none + canonical_deck() =~= canonical_deck());
}

/// The 52 cards in canonical order: Spades, Hearts, Clubs, Diamonds, each
/// from Two up to Ace.
pub fn standard_deck() -> (r: Vec<Card>)
    ensures
        r@ == canonical_deck(),
{
    let mut deck: Vec<Card> = Vec::new();
    for i in 0..52usize
        invariant
            deck@ == canonical_deck().take(i as int),
    {
        deck.push(Card::from_index(i));
        assert(deck@ =~= canonical_deck().take(i + 1));
    }
    assert(deck@ =~= canonical_deck());
    deck
}

/// The standard indices of the leaders, sorted ascending; `None` when two
/// leaders are the same card.
fn sorted_leader_indices(leaders: &Vec<Card>) -> (r: Option<Vec<usize>>)
    ensures
        r is None <==> !leaders@.no_duplicates(),
        r matches Some(ks) ==> {
            &&& strictly_increasing(ks@)
            &&& forall|i: int| 0 <= i < ks@.len() ==> ks@[i] < 52
            &&& forall|x: usize| x < 52 ==> (ks@.contains(x) <==> leaders@.contains(card_at(x as int)))
        },
{
    let mut ks: Vec<usize> = Vec::new();
    let mut k: usize = 0;
    while k < leaders.len()
        invariant
            k <= leaders@.len(),
            leaders@.take(k as int).no_duplicates(),
            strictly_increasing(ks@),
            forall|i: int| 0 <= i < ks@.len() ==> ks@[i] < 52,
            forall|t: int| 0 <= t < k ==> ks@.contains(index_of(#[trigger] leaders@[t]) as usize),
            forall|i: int| 0 <= i < ks@.len() ==> indexed_by_leader(leaders@, k as int, #[trigger] ks@[i]),
        decreases leaders@.len() - k,
    {
        let x = leaders[k].standard_index();
        let mut p: usize = 0;
        while p < ks.len() && ks[p] < x
            invariant
                p <= ks@.len(),
                forall|i: int| 0 <= i < p ==> ks@[i] < x,
            decreases ks@.len() - p,
        {
            p = p + 1;
        }
        if p < ks.len() && ks[p] == x {
            proof {
                let t = choose|t: int| 0 <= t < k && index_of(#[trigger] leaders@[t]) == ks@[p as int];
                lemma_index_of_card(leaders@[t]);
                lemma_index_of_card(leaders@[k as int]);
                assert(leaders@[t] == leaders@[k as int]);
            }
            return None;
        }
        proof {
            assert forall|i: int| p <= i < ks@.len() implies ks@[i] > x by {
                assert(ks@[p as int] > x);
            }
            assert forall|t: int| 0 <= t < k implies leaders@[t] != leaders@[k as int] by {
                if leaders@[t] == leaders@[k as int] {
                    let y = index_of(leaders@[t]) as usize;
                    assert(ks@.contains(y));
                    let i = choose|i: int| 0 <= i < ks@.len() && ks@[i] == y;
                    assert(i < p || i >= p);
                }
            }
            assert(leaders@.take(k + 1) =~= leaders@.take(k as int).push(leaders@[k as int]));
        }
        let ghost old_ks = ks@;
        ks.insert(p, x);
        proof {
            assert forall|i: int, j: int| 0 <= i < j < ks@.len() implies ks@[i] < ks@[j] by {
                if j < p {
                } else if j == p {
                } else if i < p {
                } else if i == p {
                    assert(old_ks[j - 1] > x);
                } else {
                    assert(old_ks[i - 1] < old_ks[j - 1]);
                }
            }
            assert forall|t: int| 0 <= t < k + 1 implies ks@.contains(
                index_of(#[trigger] leaders@[t]) as usize,
            ) by {
                if t == k {
                    assert(ks@[p as int] == x);
                } else {
                    let y = index_of(leaders@[t]) as usize;
                    assert(old_ks.contains(y));
                    let i = choose|i: int| 0 <= i < old_ks.len() && old_ks[i] == y;
                    if i < p {
                        assert(ks@[i] == y);
                    } else {
                        assert(ks@[i + 1] == y);
                    }
                }
            }
            assert forall|i: int| 0 <= i < ks@.len() implies indexed_by_leader(
                leaders@,
                k + 1,
                #[trigger] ks@[i],
            ) by {
                if i < p {
                    assert(ks@[i] == old_ks[i]);
                } else if i == p {
                    assert(index_of(leaders@[k as int]) == ks@[i]);
                } else {
                    assert(ks@[i] == old_ks[i - 1]);
                }
            }
        }
        k = k + 1;
    }
    proof {
        assert(leaders@.take(k as int) =~= leaders@);
        assert forall|x: usize| x < 52 implies (ks@.contains(x) <==> leaders@.contains(
            card_at(x as int),
        )) by {
            lemma_card_at_index(x as int);
            if ks@.contains(x) {
                let i = choose|i: int| 0 <= i < ks@.len() && ks@[i] == x;
                let t = choose|t: int| 0 <= t < k && index_of(#[trigger] leaders@[t]) == ks@[i];
                lemma_index_of_card(leaders@[t]);
            }
            if leaders@.contains(card_at(x as int)) {
                let t = choose|t: int| 0 <= t < leaders@.len() && leaders@[t] == card_at(x as int);
                assert(ks@.contains(index_of(leaders@[t]) as usize));
            }
        }
    }
    Some(ks)
}

/// Completes a leader prefix into a full deck: the leaders first, in the
/// caller's order, then every other card in canonical order. Fails when a
/// card appears twice among the leaders.
pub fn try_complete_deck(front_of_deck: Vec<Card>) -> (r: Result<Vec<Card>, DeckError>)
    ensures
        match r {
            Ok(deck) => front_of_deck@.no_duplicates() && deck@ == completed_deck(front_of_deck@),
            Err(e) => !front_of_deck@.no_duplicates() && e == DeckError::DuplicateLeader,
        },
{
    let ks = match sorted_leader_indices(&front_of_deck) {
        Some(ks) => ks,
        None => {
            return Err(DeckError::DuplicateLeader);
        },
    };
    let ghost leaders = front_of_deck@;
    let mut deck = front_of_deck;
    let mut j: usize = 0;
    for i in 0..52usize
        invariant
            j <= ks@.len(),
            strictly_increasing(ks@),
            forall|x: usize| x < 52 ==> (ks@.contains(x) <==> leaders.contains(card_at(x as int))),
            forall|t: int| 0 <= t < j ==> ks@[t] < i,
            forall|t: int| j <= t < ks@.len() ==> ks@[t] >= i,
            deck@ == leaders + canonical_deck().take(i as int).filter(not_leader(leaders)),
    {
        let ghost before = canonical_deck().take(i as int);
        assert(canonical_deck().take(i + 1) =~= before.push(card_at(i as int)));
        proof {
            before.lemma_filter_push(card_at(i as int), not_leader(leaders));
        }
        if j < ks.len() && ks[j] == i {
            assert(ks@.contains(i));
            j = j + 1;
        } else {
            assert(!ks@.contains(i)) by {
                if ks@.contains(i) {
                    let t = choose|t: int| 0 <= t < ks@.len() && ks@[t] == i;
                    if t > j {
                        assert(ks@[j as int] < ks@[t]);
                    }
                }
            }
            let card = Card::from_index(i);
            deck.push(card);
            assert(deck@ =~= leaders + canonical_deck().take(i + 1).filter(not_leader(leaders)));
        }
    }
    assert(canonical_deck().take(52) =~= canonical_deck());
    Ok(deck)
}

/// Completes a prefix of distinct leader cards into a full deck: the leaders
/// first, in the caller's order, then every other card in canonical order.
pub fn complete_deck(front_of_deck: Vec<Card>) -> (r: Vec<Card>)
    requires
        front_of_deck@.no_duplicates(),
    ensures
        r@ == completed_deck(front_of_deck@),
{
    match try_complete_deck(front_of_deck) {
        Ok(deck) => deck,
        // Distinct leaders are never refused.
        Err(_) => Vec::new(),
    }
}

/// The leaders of the `four_aces` deck.
pub open spec fn four_aces_leaders() -> Seq<Card> {
    seq![
        Card { suit: Suit::Spades, value: Rank::Ace },
        Card { suit: Suit::Hearts, value: Rank::Ace },
        Card { suit: Suit::Clubs, value: Rank::Ace },
        Card { suit: Suit::Diamonds, value: Rank::Ace },
    ]
}

/// The four aces, Spades first, so that they are the first four cards.
pub fn four_aces() -> (r: Vec<Card>)
    ensures
        r@ == completed_deck(four_aces_leaders()),
{
    let mut leaders: Vec<Card> = Vec::new();
    leaders.push(Card { suit: Suit::Spades, value: Rank::Ace });
    leaders.push(Card { suit: Suit::Hearts, value: Rank::Ace });
    leaders.push(Card { suit: Suit::Clubs, value: Rank::Ace });
    leaders.push(Card { suit: Suit::Diamonds, value: Rank::Ace });
    assert(leaders@ =~= four_aces_leaders());
    complete_deck(leaders)
}

/// The leaders of the `player_blackjack` deck.
pub open spec fn player_blackjack_leaders() -> Seq<Card> {
    seq![
        Card { suit: Suit::Spades, value: Rank::Ace },
        Card { suit: Suit::Spades, value: Rank::Jack },
    ]
}

/// Ace and Jack of Spades on top: the player is dealt a blackjack.
pub fn player_blackjack() -> (r: Vec<Card>)
    ensures
        r@ == completed_deck(player_blackjack_leaders()),
{
    let mut leaders: Vec<Card> = Vec::new();
    leaders.push(Card { suit: Suit::Spades, value: Rank::Ace });
    leaders.push(Card { suit: Suit::Spades, value: Rank::Jack });
    assert(leaders@ =~= player_blackjack_leaders());
    complete_deck(leaders)
}

/// The leaders of the `dealer_blackjack` deck.
pub open spec fn dealer_blackjack_leaders() -> Seq<Card> {
    seq![
        Card { suit: Suit::Spades, value: Rank::Five },
        Card { suit: Suit::Spades, value: Rank::Nine },
        Card { suit: Suit::Spades, value: Rank::Ace },
        Card { suit: Suit::Spades, value: Rank::Jack },
    ]
}

/// Five and Nine of Spades for the player, then Ace and Jack of Spades: the
/// dealer is dealt a blackjack.
pub fn dealer_blackjack() -> (r: Vec<Card>)
    ensures
        r@ == completed_deck(dealer_blackjack_leaders()),
{
    let mut leaders: Vec<Card> = Vec::new();
    leaders.push(Card { suit: Suit::Spades, value: Rank::Five });
    leaders.push(Card { suit: Suit::Spades, value: Rank::Nine });
    leaders.push(Card { suit: Suit::Spades, value: Rank::Ace });
    leaders.push(Card { suit: Suit::Spades, value: Rank::Jack });
    assert(leaders@ =~= dealer_blackjack_leaders());
    complete_deck(leaders)
}

/// The leaders of the `player_bust` deck.
pub open spec fn player_bust_leaders() -> Seq<Card> {
    seq![
        Card { suit: Suit::Spades, value: Rank::Five },
        Card { suit: Suit::Hearts, value: Rank::Two },
        Card { suit: Suit::Diamonds, value: Rank::Five },
        Card { suit: Suit::Clubs, value: Rank::Nine },
        Card { suit: Suit::Spades, value: Rank::Six },
        Card { suit: Suit::Diamonds, value: Rank::King },
    ]
}

/// The player holds 7 against the dealer's 14, draws a Six, then a King, and busts.
pub fn player_bust() -> (r: Vec<Card>)
    ensures
        r@ == completed_deck(player_bust_leaders()),
{
    let mut leaders: Vec<Card> = Vec::new();
    leaders.push(Card { suit: Suit::Spades, value: Rank::Five });
    leaders.push(Card { suit: Suit::Hearts, value: Rank::Two });
    leaders.push(Card { suit: Suit::Diamonds, value: Rank::Five });
    leaders.push(Card { suit: Suit::Clubs, value: Rank::Nine });
    leaders.push(Card { suit: Suit::Spades, value: Rank::Six });
    leaders.push(Card { suit: Suit::Diamonds, value: Rank::King });
    assert(leaders@ =~= player_bust_leaders());
    complete_deck(leaders)
}

/// The leaders of the `dealer_bust` deck.
pub open spec fn dealer_bust_leaders() -> Seq<Card> {
    seq![
        Card { suit: Suit::Spades, value: Rank::Five },
        Card { suit: Suit::Hearts, value: Rank::Two },
        Card { suit: Suit::Diamonds, value: Rank::Five },
        Card { suit: Suit::Clubs, value: Rank::Nine },
        Card { suit: Suit::Spades, value: Rank::Six },
        Card { suit: Suit::Diamonds, value: Rank::Four },
        Card { suit: Suit::Spades, value: Rank::Eight },
        Card { suit: Suit::Spades, value: Rank::King },
    ]
}

/// The player draws a Six and a Four to stand on 17; the dealer, on 14,
/// draws an Eight and busts.
pub fn dealer_bust() -> (r: Vec<Card>)
    ensures
        r@ == completed_deck(dealer_bust_leaders()),
{
    let mut leaders: Vec<Card> = Vec::new();
    leaders.push(Card { suit: Suit::Spades, value: Rank::Five });
    leaders.push(Card { suit: Suit::Hearts, value: Rank::Two });
    leaders.push(Card { suit: Suit::Diamonds, value: Rank::Five });
    leaders.push(Card { suit: Suit::Clubs, value: Rank::Nine });
    leaders.push(Card { suit: Suit::Spades, value: Rank::Six });
    leaders.push(Card { suit: Suit::Diamonds, value: Rank::Four });
    leaders.push(Card { suit: Suit::Spades, value: Rank::Eight });
    leaders.push(Card { suit: Suit::Spades, value: Rank::King });
    assert(leaders@ =~= dealer_bust_leaders());
    complete_deck(leaders)
}

/// The leaders of the `both_blackjack` deck.
pub open spec fn both_blackjack_leaders() -> Seq<Card> {
    seq![
        Card { suit: Suit::Spades, value: Rank::King },
        Card { suit: Suit::Hearts, value: Rank::Ace },
        Card { suit: Suit::Clubs, value: Rank::King },
        Card { suit: Suit::Clubs, value: Rank::Ace },
    ]
}

/// King of Spades, Ace of Hearts, King of Clubs, Ace of Clubs: the player and
/// the dealer are both dealt a blackjack, and the dealer's wins.
pub fn both_blackjack() -> (r: Vec<Card>)
    ensures
        r@ == completed_deck(both_blackjack_leaders()),
{
    let mut leaders: Vec<Card> = Vec::new();
    leaders.push(Card { suit: Suit::Spades, value: Rank::King });
    leaders.push(Card { suit: Suit::Hearts, value: Rank::Ace });
    leaders.push(Card { suit: Suit::Clubs, value: Rank::King });
    leaders.push(Card { suit: Suit::Clubs, value: Rank::Ace });
    assert(leaders@ =~= both_blackjack_leaders());
    complete_deck(leaders)
}

/// The leaders of the `tie21` deck.
pub open spec fn tie21_leaders() -> Seq<Card> {
    seq![
        Card { suit: Suit::Spades, value: Rank::King },
        Card { suit: Suit::Hearts, value: Rank::Five },
        Card { suit: Suit::Clubs, value: Rank::King },
        Card { suit: Suit::Clubs, value: Rank::Nine },
        Card { suit: Suit::Spades, value: Rank::Six },
        Card { suit: Suit::Diamonds, value: Rank::Two },
        Card { suit: Suit::Spades, value: Rank::Nine },
    ]
}

/// The player on 15 draws a Six to 21; the dealer on 19 draws a Two to 21,
/// draws again since it is not ahead, and busts on a Nine.
pub fn tie21() -> (r: Vec<Card>)
    ensures
        r@ == completed_deck(tie21_leaders()),
{
    let mut leaders: Vec<Card> = Vec::new();
    leaders.push(Card { suit: Suit::Spades, value: Rank::King });
    leaders.push(Card { suit: Suit::Hearts, value: Rank::Five });
    leaders.push(Card { suit: Suit::Clubs, value: Rank::King });
    leaders.push(Card { suit: Suit::Clubs, value: Rank::Nine });
    leaders.push(Card { suit: Suit::Spades, value: Rank::Six });
    leaders.push(Card { suit: Suit::Diamonds, value: Rank::Two });
    leaders.push(Card { suit: Suit::Spades, value: Rank::Nine });
    assert(leaders@ =~= tie21_leaders());
    complete_deck(leaders)
}

/// The card that a token names, if any.
pub open spec fn token_card() -> spec_fn(Seq<char>) -> Option<Card> {
    |t: Seq<char>| parse_card(t)
}

/// The cards named by the comma-separated tokens of `s`, in order; tokens
/// that name no card are left out.
pub open spec fn listed_cards(s: Seq<char>) -> Seq<Card> {
    split_on(s, ',').filter_map(token_card())
}

/// Builds a deck from a comma-separated list of card tokens, such as
/// "SA,HK,D10": the cards they name lead, in order, and every other card
/// follows in canonical order. Tokens that name no card are skipped; a card
/// named twice is an error.
pub fn custom_deck(cards: &str) -> (r: Result<Vec<Card>, DeckError>)
    ensures
        match r {
            Ok(deck) => listed_cards(cards@).no_duplicates() && deck@ == completed_deck(
                listed_cards(cards@),
            ),
            Err(e) => !listed_cards(cards@).no_duplicates() && e == DeckError::DuplicateLeader,
        },
{
    let n = cards.unicode_len();
    let mut leaders: Vec<Card> = Vec::new();
    let ghost mut done: Seq<Seq<char>> = Seq::empty();
    let mut start: usize = 0;
    proof {
        lemma_split_on_start(cards@, ',');
    }
    for i in 0..n
        invariant
            n == cards@.len(),
            start <= i,
            split_on(cards@.take(i as int), ',') == done.push(cards@.subrange(start as int, i as int)),
            leaders@ == done.filter_map(token_card()),
    {
        proof {
            lemma_split_on_step(cards@, ',', i as int, done, start as int);
        }
        if cards.get_char(i) == ',' {
            let token = cards.substring_char(start, i);
            if let Ok(card) = Card::from_answer(token) {
                leaders.push(card);
            }
            proof {
                assert(done.push(token@).drop_last() =~= done);
                assert(leaders@ =~= done.push(token@).filter_map(token_card()));
                done = done.push(token@);
            }
            start = i + 1;
        }
    }
    let token = cards.substring_char(start, n);
    if let Ok(card) = Card::from_answer(token) {
        leaders.push(card);
    }
    proof {
        assert(cards@.take(n as int) =~= cards@);
        assert(done.push(token@).drop_last() =~= done);
        assert(leaders@ =~= done.push(token@).filter_map(token_card()));
    }
    try_complete_deck(leaders)
}

/// Relies on rand's `rng`, the thread-local generator, and on
/// `SliceRandom::shuffle`, which only swaps elements of the slice: the cards
/// stay the same, in an order chosen at random.
#[verifier::external_body]
fn shuffle_cards(cards: &mut Vec<Card>)
    ensures
        final(cards)@.to_multiset() == old(cards)@.to_multiset(),
{
    cards.shuffle(&mut rand::rng());
}

/// The 52 cards in a uniformly random order.
pub fn shuffle() -> (r: Vec<Card>)
    ensures
        r@.to_multiset() == canonical_deck().to_multiset(),
        r@.len() == 52,
        r@.no_duplicates(),
        forall|c: Card| r@.contains(c),
{
    let mut deck = standard_deck();
    shuffle_cards(&mut deck);
    proof {
        broadcast use vstd::seq_lib::group_to_multiset_ensures;

        lemma_canonical_deck_is_full();
        vstd::seq_lib::to_multiset_len(deck@);
        vstd::seq_lib::to_multiset_len(canonical_deck());
        canonical_deck().lemma_multiset_has_no_duplicates();
        deck@.lemma_multiset_has_no_duplicates_conv();
        assert forall|c: Card| deck@.contains(c) by {
            assert(canonical_deck().to_multiset().count(c) > 0);
        }
    }
    deck
}

} // verus!
