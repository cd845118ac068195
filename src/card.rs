//! Suits, ranks and cards, their canonical order and their text encoding.
use std::cmp::Ordering;

use vstd::prelude::*;

verus! {

/// The four suits, listed in canonical order.
#[derive(Debug, Clone, Copy, PartialEq, Eq, Structural, Hash, PartialOrd, Ord)]
pub enum Suit {
    Spades,
    Hearts,
    Clubs,
    Diamonds,
}

/// The thirteen ranks, listed in canonical order (Two lowest, Ace highest).
#[derive(Debug, Clone, Copy, PartialEq, Eq, Structural, Hash, PartialOrd, Ord)]
pub enum Rank {
    Two,
    Three,
    Four,
    Five,
    Six,
    Seven,
    Eight,
    Nine,
    Ten,
    Jack,
    Queen,
    King,
    Ace,
}

/// A playing card: a suit and a rank. Cards are ordered by standard index,
/// which is suit first, then rank.
#[derive(Debug, Clone, Copy, PartialEq, Eq, Structural, Hash, Ord)]
pub struct Card {
    pub suit: Suit,
    pub value: Rank,
}

/// A card token that does not start with a suit character and a rank character.
#[derive(Debug, Clone, Copy, PartialEq, Eq, Structural)]
pub struct ParseError;

/// Position of a suit in canonical order.
pub open spec fn suit_ordinal(s: Suit) -> int {
    match s {
        Suit::Spades => 0,
        Suit::Hearts => 1,
        Suit::Clubs => 2,
        Suit::Diamonds => 3,
    }
}

/// Position of a rank in canonical order.
pub open spec fn rank_ordinal(r: Rank) -> int {
    match r {
        Rank::Two => 0,
        Rank::Three => 1,
        Rank::Four => 2,
        Rank::Five => 3,
        Rank::Six => 4,
        Rank::Seven => 5,
        Rank::Eight => 6,
        Rank::Nine => 7,
        Rank::Ten => 8,
        Rank::Jack => 9,
        Rank::Queen => 10,
        Rank::King => 11,
        Rank::Ace => 12,
    }
}

/// The suit at position `i` of canonical order.
pub open spec fn suit_at(i: int) -> Suit {
    if i <= 0 {
        Suit::Spades
    } else if i == 1 {
        Suit::Hearts
    } else if i == 2 {
        Suit::Clubs
    } else {
        Suit::Diamonds
    }
}

/// The rank at position `i` of canonical order.
pub open spec fn rank_at(i: int) -> Rank {
    if i <= 0 {
        Rank::Two
    } else if i == 1 {
        Rank::Three
    } else if i == 2 {
        Rank::Four
    } else if i == 3 {
        Rank::Five
    } else if i == 4 {
        Rank::Six
    } else if i == 5 {
        Rank::Seven
    } else if i == 6 {
        Rank::Eight
    } else if i == 7 {
        Rank::Nine
    } else if i == 8 {
        Rank::Ten
    } else if i == 9 {
        Rank::Jack
    } else if i == 10 {
        Rank::Queen
    } else if i == 11 {
        Rank::King
    } else {
        Rank::Ace
    }
}

/// The standard index of a card: suit position times 13 plus rank position.
pub open spec fn index_of(c: Card) -> int {
    suit_ordinal(c.suit) * 13 + rank_ordinal(c.value)
}

/// The card whose standard index is `i`.
pub open spec fn card_at(i: int) -> Card {
    Card { suit: suit_at(i / 13), value: rank_at(i % 13) }
}

/// The 52 cards in canonical order: suits outer, ranks inner.
pub open spec fn canonical_deck() -> Seq<Card> {
    Seq::new(52, |i: int| card_at(i))
}

/// The suit written by a character of the text encoding.
pub open spec fn suit_of_char(c: char) -> Option<Suit> {
    if c == 'S' {
        Some(Suit::Spades)
    } else if c == 'H' {
        Some(Suit::Hearts)
    } else if c == 'C' {
        Some(Suit::Clubs)
    } else if c == 'D' {
        Some(Suit::Diamonds)
    } else {
        None
    }
}

/// The rank written by a character of the text encoding; `'1'` opens "10".
pub open spec fn rank_of_char(c: char) -> Option<Rank> {
    if c == '2' {
        Some(Rank::Two)
    } else if c == '3' {
        Some(Rank::Three)
    } else if c == '4' {
        Some(Rank::Four)
    } else if c == '5' {
        Some(Rank::Five)
    } else if c == '6' {
        Some(Rank::Six)
    } else if c == '7' {
        Some(Rank::Seven)
    } else if c == '8' {
        Some(Rank::Eight)
    } else if c == '9' {
        Some(Rank::Nine)
    } else if c == '1' {
        Some(Rank::Ten)
    } else if c == 'J' {
        Some(Rank::Jack)
    } else if c == 'Q' {
        Some(Rank::Queen)
    } else if c == 'K' {
        Some(Rank::King)
    } else if c == 'A' {
        Some(Rank::Ace)
    } else {
        None
    }
}

/// The card that a text token names: a suit character then a rank character.
/// Characters after the second are not read, so "D10" names the ten of diamonds.
pub open spec fn parse_card(s: Seq<char>) -> Option<Card> {
    if s.len() >= 2 && suit_of_char(s[0]) is Some && rank_of_char(s[1]) is Some {
        Some(Card { suit: suit_of_char(s[0])->0, value: rank_of_char(s[1])->0 })
    } else {
        None
    }
}

/// The character that encodes a suit.
pub open spec fn suit_char(s: Suit) -> char {
    match s {
        Suit::Spades => 'S',
        Suit::Hearts => 'H',
        Suit::Clubs => 'C',
        Suit::Diamonds => 'D',
    }
}

/// The token that encodes a rank: its numeral, or J, Q, K, A.
pub open spec fn rank_text(r: Rank) -> Seq<char> {
    match r {
        Rank::Two => seq!['2'],
        Rank::Three => seq!['3'],
        Rank::Four => seq!['4'],
        Rank::Five => seq!['5'],
        Rank::Six => seq!['6'],
        Rank::Seven => seq!['7'],
        Rank::Eight => seq!['8'],
        Rank::Nine => seq!['9'],
        Rank::Ten => seq!['1', '0'],
        Rank::Jack => seq!['J'],
        Rank::Queen => seq!['Q'],
        Rank::King => seq!['K'],
        Rank::Ace => seq!['A'],
    }
}

/// The text encoding of a card, such as "SA", "C5" or "D10".
pub open spec fn card_text(c: Card) -> Seq<char> {
    seq![suit_char(c.suit)] + rank_text(c.value)
}

/// Decoding the text encoding of any card gives back that card.
pub proof fn lemma_text_round_trip(c: Card)
    ensures
        parse_card(card_text(c)) == Some(c),
{
}

/// Every card has a standard index in `[0, 52)`, and the card at that index is the card.
pub proof fn lemma_index_of_card(c: Card)
    ensures
        0 <= index_of(c) < 52,
        card_at(index_of(c)) == c,
{
    let s = suit_ordinal(c.suit);
    let r = rank_ordinal(c.value);
    assert((s * 13 + r) / 13 == s && (s * 13 + r) % 13 == r) by (nonlinear_arith)
        requires
            0 <= s < 4,
            0 <= r < 13,
    ;
}

/// Every index in `[0, 52)` names a card whose standard index is that index.
pub proof fn lemma_card_at_index(i: int)
    requires
        0 <= i < 52,
    ensures
        index_of(card_at(i)) == i,
{
    assert(0 <= i / 13 < 4 && 0 <= i % 13 < 13 && (i / 13) * 13 + i % 13 == i) by (nonlinear_arith)
        requires
            0 <= i < 52,
    ;
}

/// The standard index is a bijection between cards and `[0, 52)`, and the
/// canonical deck lists each card at its own index.
pub proof fn lemma_standard_index_bijection()
    ensures
        forall|c: Card| 0 <= #[trigger] index_of(c) < 52 && card_at(index_of(c)) == c,
        forall|i: int| 0 <= i < 52 ==> index_of(#[trigger] card_at(i)) == i,
        forall|i: int| 0 <= i < 52 ==> index_of(#[trigger] canonical_deck()[i]) == i,
        forall|c1: Card, c2: Card| #[trigger] index_of(c1) == #[trigger] index_of(c2) ==> c1 == c2,
{
    assert forall|c: Card| 0 <= #[trigger] index_of(c) < 52 && card_at(index_of(c)) == c by {
        lemma_index_of_card(c);
    }
    assert forall|i: int| 0 <= i < 52 implies index_of(#[trigger] card_at(i)) == i by {
        lemma_card_at_index(i);
    }
    assert forall|i: int| 0 <= i < 52 implies index_of(#[trigger] canonical_deck()[i]) == i by {
        lemma_card_at_index(i);
    }
}

impl Suit {
    /// The suit at position `n` of canonical order.
    pub fn from_ordinal(n: usize) -> (r: Suit)
        requires
            n < 4,
        ensures
            r == suit_at(n as int),
    {
        if n == 0 {
            Suit::Spades
        } else if n == 1 {
            Suit::Hearts
        } else if n == 2 {
            Suit::Clubs
        } else {
            Suit::Diamonds
        }
    }

    /// The character that encodes this suit.
    pub fn letter(&self) -> (r: &'static str)
        ensures
            r@ == seq![suit_char(*self)],
    {
        match self {
            Suit::Spades => {
                proof {
                    reveal_strlit("S");
                }
                "S"
            },
            Suit::Hearts => {
                proof {
                    reveal_strlit("H");
                }
                "H"
            },
            Suit::Clubs => {
                proof {
                    reveal_strlit("C");
                }
                "C"
            },
            Suit::Diamonds => {
                proof {
                    reveal_strlit("D");
                }
                "D"
            },
        }
    }

    /// The suit that a character encodes, if any.
    pub fn from_letter(c: char) -> (r: Option<Suit>)
        ensures
            r == suit_of_char(c),
    {
        if c == 'S' {
            Some(Suit::Spades)
        } else if c == 'H' {
            Some(Suit::Hearts)
        } else if c == 'C' {
            Some(Suit::Clubs)
        } else if c == 'D' {
            Some(Suit::Diamonds)
        } else {
            None
        }
    }
    /// Position of the suit in canonical order.
    pub fn ordinal(&self) -> (r: u8)
        ensures
            r == suit_ordinal(*self),
    {
        match self {
            Suit::Spades => 0,
            Suit::Hearts => 1,
            Suit::Clubs => 2,
            Suit::Diamonds => 3,
        }
    }
}

impl Rank {
    /// The rank at position `n` of canonical order.
    pub fn from_ordinal(n: usize) -> (r: Rank)
        requires
            n < 13,
        ensures
            r == rank_at(n as int),
    {
        if n == 0 {
            Rank::Two
        } else if n == 1 {
            Rank::Three
        } else if n == 2 {
            Rank::Four
        } else if n == 3 {
            Rank::Five
        } else if n == 4 {
            Rank::Six
        } else if n == 5 {
            Rank::Seven
        } else if n == 6 {
            Rank::Eight
        } else if n == 7 {
            Rank::Nine
        } else if n == 8 {
            Rank::Ten
        } else if n == 9 {
            Rank::Jack
        } else if n == 10 {
            Rank::Queen
        } else if n == 11 {
            Rank::King
        } else {
            Rank::Ace
        }
    }

    /// The token that encodes this rank.
    pub fn token(&self) -> (r: &'static str)
        ensures
            r@ == rank_text(*self),
    {
        match self {
            Rank::Two => {
                proof {
                    reveal_strlit("2");
                }
                "2"
            },
            Rank::Three => {
                proof {
                    reveal_strlit("3");
                }
                "3"
            },
            Rank::Four => {
                proof {
                    reveal_strlit("4");
                }
                "4"
            },
            Rank::Five => {
                proof {
                    reveal_strlit("5");
                }
                "5"
            },
            Rank::Six => {
                proof {
                    reveal_strlit("6");
                }
                "6"
            },
            Rank::Seven => {
                proof {
                    reveal_strlit("7");
                }
                "7"
            },
            Rank::Eight => {
                proof {
                    reveal_strlit("8");
                }
                "8"
            },
            Rank::Nine => {
                proof {
                    reveal_strlit("9");
                }
                "9"
            },
            Rank::Ten => {
                proof {
                    reveal_strlit("10");
                }
                "10"
            },
            Rank::Jack => {
                proof {
                    reveal_strlit("J");
                }
                "J"
            },
            Rank::Queen => {
                proof {
                    reveal_strlit("Q");
                }
                "Q"
            },
            Rank::King => {
                proof {
                    reveal_strlit("K");
                }
                "K"
            },
            Rank::Ace => {
                proof {
                    reveal_strlit("A");
                }
                "A"
            },
        }
    }

    /// The rank that a character encodes, if any; `'1'` stands for ten.
    pub fn from_letter(c: char) -> (r: Option<Rank>)
        ensures
            r == rank_of_char(c),
    {
        if c == '2' {
            Some(Rank::Two)
        } else if c == '3' {
            Some(Rank::Three)
        } else if c == '4' {
            Some(Rank::Four)
        } else if c == '5' {
            Some(Rank::Five)
        } else if c == '6' {
            Some(Rank::Six)
        } else if c == '7' {
            Some(Rank::Seven)
        } else if c == '8' {
            Some(Rank::Eight)
        } else if c == '9' {
            Some(Rank::Nine)
        } else if c == '1' {
            Some(Rank::Ten)
        } else if c == 'J' {
            Some(Rank::Jack)
        } else if c == 'Q' {
            Some(Rank::Queen)
        } else if c == 'K' {
            Some(Rank::King)
        } else if c == 'A' {
            Some(Rank::Ace)
        } else {
            None
        }
    }
    /// Position of the rank in canonical order.
    pub fn ordinal(&self) -> (r: u8)
        ensures
            r == rank_ordinal(*self),
    {
        match self {
            Rank::Two => 0,
            Rank::Three => 1,
            Rank::Four => 2,
            Rank::Five => 3,
            Rank::Six => 4,
            Rank::Seven => 5,
            Rank::Eight => 6,
            Rank::Nine => 7,
            Rank::Ten => 8,
            Rank::Jack => 9,
            Rank::Queen => 10,
            Rank::King => 11,
            Rank::Ace => 12,
        }
    }
}

impl Card {
    /// The card's slot in the canonical deck, in `[0, 52)`.
    pub fn standard_index(&self) -> (r: usize)
        ensures
            r == index_of(*self),
            r < 52,
    {
        (self.suit.ordinal() * 13 + self.value.ordinal()) as usize
    }

    /// The card whose standard index is `i`.
    pub fn from_index(i: usize) -> (r: Card)
        requires
            i < 52,
        ensures
            r == card_at(i as int),
            index_of(r) == i,
    {
        proof {
            lemma_card_at_index(i as int);
        }
        Card { suit: Suit::from_ordinal(i / 13), value: Rank::from_ordinal(i % 13) }
    }

    /// Reads a card from its text encoding: a suit character (S, H, C, D)
    /// followed by a rank character (2-9, 1 for ten, J, Q, K, A).
    pub fn from_answer(s: &str) -> (r: Result<Card, ParseError>)
        ensures
            match r {
                Ok(c) => parse_card(s@) == Some(c),
                Err(_) => parse_card(s@) is None,
            },
    {
        let n = s.unicode_len();
        if n < 2 {
            return Err(ParseError);
        }
        match (Suit::from_letter(s.get_char(0)), Rank::from_letter(s.get_char(1))) {
            (Some(suit), Some(value)) => Ok(Card { suit, value }),
            _ => Err(ParseError),
        }
    }

    /// Writes the card's text encoding, such as "SA", "C5" or "D10".
    pub fn to_answer(&self) -> (r: String)
        ensures
            r@ == card_text(*self),
    {
        let mut text = String::from_str(self.suit.letter());
        text.append(self.value.token());
        text
    }
}

/// How two cards compare: by standard index.
pub open spec fn card_order(a: Card, b: Card) -> Ordering {
    if index_of(a) < index_of(b) {
        Ordering::Less
    } else if index_of(a) == index_of(b) {
        Ordering::Equal
    } else {
        Ordering::Greater
    }
}

impl PartialOrd for Card {
    fn partial_cmp(&self, other: &Card) -> (r: Option<Ordering>) {
        let a = self.standard_index();
        let b = other.standard_index();
        if a < b {
            Some(Ordering::Less)
        } else if a == b {
            Some(Ordering::Equal)
        } else {
            Some(Ordering::Greater)
        }
    }
}

impl vstd::std_specs::cmp::PartialOrdSpecImpl for Card {
    open spec fn obeys_partial_cmp_spec() -> bool {
        true
    }

    open spec fn partial_cmp_spec(&self, other: &Card) -> Option<Ordering> {
        Some(card_order(*self, *other))
    }
}

impl std::str::FromStr for Card {
    type Err = ParseError;

    fn from_str(s: &str) -> Result<Card, ParseError> {
        Card::from_answer(s)
    }
}

} // verus!
