use std::str::FromStr;

use blackjack::card::{Card, ParseError, Rank, Suit};
use blackjack::deck::standard_deck;
use blackjack::error::ErrorMessage;
use blackjack::game::ToInt;

#[test]
fn card_indexes_on_standard_deck() {
    let card = Card {
        suit: Suit::Clubs,
        value: Rank::Five,
    };

    let dummy = Card {
        suit: Suit::Clubs,
        value: Rank::Six,
    };

    let drawn_card = standard_deck()[card.standard_index()].clone();
    assert_eq!(drawn_card, card);
    assert_ne!(drawn_card, dummy);
}

#[test]
fn standard_index_values() {
    let c5 = Card { suit: Suit::Clubs, value: Rank::Five };
    assert_eq!(c5.standard_index(), 29);
    let s2 = Card { suit: Suit::Spades, value: Rank::Two };
    assert_eq!(s2.standard_index(), 0);
    let da = Card { suit: Suit::Diamonds, value: Rank::Ace };
    assert_eq!(da.standard_index(), 51);
    let hk = Card { suit: Suit::Hearts, value: Rank::King };
    assert_eq!(hk.standard_index(), 24);
}

#[test]
fn standard_index_round_trips_over_all_indices() {
    let deck = standard_deck();
    let mut seen = std::collections::HashSet::new();
    for i in 0..52usize {
        assert_eq!(deck[i].standard_index(), i);
        assert_eq!(Card::from_index(i), deck[i]);
        assert!(seen.insert(deck[i]));
    }
    assert_eq!(seen.len(), 52);
}

#[test]
fn text_encoding_round_trips_for_all_cards() {
    for card in standard_deck() {
        let text = card.to_answer();
        assert_eq!(Card::from_answer(&text), Ok(card));
    }
}

#[test]
fn text_encoding_examples() {
    let sa = Card { suit: Suit::Spades, value: Rank::Ace };
    let c5 = Card { suit: Suit::Clubs, value: Rank::Five };
    let d10 = Card { suit: Suit::Diamonds, value: Rank::Ten };
    assert_eq!(Card::from_answer("SA"), Ok(sa));
    assert_eq!(Card::from_answer("C5"), Ok(c5));
    assert_eq!(Card::from_answer("D10"), Ok(d10));
    assert_eq!(sa.to_answer(), "SA");
    assert_eq!(c5.to_answer(), "C5");
    assert_eq!(d10.to_answer(), "D10");
    assert_eq!(Card { suit: Suit::Hearts, value: Rank::Queen }.to_answer(), "HQ");
}

#[test]
fn text_decoding_rejects_malformed_tokens() {
    assert_eq!(Card::from_answer(""), Err(ParseError));
    assert_eq!(Card::from_answer("S"), Err(ParseError));
    assert_eq!(Card::from_answer("XA"), Err(ParseError));
    assert_eq!(Card::from_answer("SX"), Err(ParseError));
    assert_eq!(Card::from_answer("sa"), Err(ParseError));
    assert_eq!(Card::from_answer("A"), Err(ParseError));
}

#[test]
fn from_str_matches_from_answer() {
    assert_eq!(
        Card::from_str("HJ"),
        Ok(Card { suit: Suit::Hearts, value: Rank::Jack })
    );
    assert_eq!(Card::from_str("Z9"), Err(ParseError));
}

#[test]
fn cards_order_by_standard_index() {
    let sa = Card { suit: Suit::Spades, value: Rank::Ace };
    let h2 = Card { suit: Suit::Hearts, value: Rank::Two };
    let d3 = Card { suit: Suit::Diamonds, value: Rank::Three };
    assert!(sa < h2);
    assert!(h2 < d3);
    assert!(d3 > sa);
    let mut cards = vec![d3, sa, h2];
    cards.sort();
    assert_eq!(cards, vec![sa, h2, d3]);
    assert_eq!(sa.partial_cmp(&h2), Some(std::cmp::Ordering::Less));
    assert_eq!(h2.partial_cmp(&h2), Some(std::cmp::Ordering::Equal));
}

#[test]
fn points_of_ranks_and_cards() {
    assert_eq!(Rank::Two.to_int(), 2);
    assert_eq!(Rank::Nine.to_int(), 9);
    assert_eq!(Rank::Ten.to_int(), 10);
    assert_eq!(Rank::Jack.to_int(), 10);
    assert_eq!(Rank::Queen.to_int(), 10);
    assert_eq!(Rank::King.to_int(), 10);
    assert_eq!(Rank::Ace.to_int(), 11);
    assert_eq!(Card { suit: Suit::Hearts, value: Rank::Seven }.to_int(), 7);
}

#[test]
fn error_message_description() {
    let e = ErrorMessage { code: 400, message: String::from("bad deck") };
    assert_eq!(e.description(), "bad deck");
    assert_eq!(e.code, 400);
}
