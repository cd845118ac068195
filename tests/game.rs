use std::collections::HashSet;

use blackjack::card::{Card, Rank, Suit};
use blackjack::deck::{
    both_blackjack, dealer_blackjack, dealer_bust, four_aces, player_blackjack, player_bust,
    shuffle, tie21,
};
use blackjack::game::{
    dealer_wins, play_game, player_wins, GameError, GameResult, Player, Strategy,
};

fn card(suit: Suit, value: Rank) -> Card {
    Card { suit, value }
}

fn play(deck: Vec<Card>) -> GameResult {
    play_game(deck, String::from("Sam")).unwrap()
}

fn assert_no_card_drawn_twice(g: &GameResult) {
    let p = &g.players[0].hand;
    let d = &g.players[1].hand;
    let mut seen = HashSet::new();
    for c in p.iter().chain(d.iter()) {
        assert!(seen.insert(*c));
    }
    assert!(p.len() + d.len() <= 52);
    // Player: first two cards, then from the fifth on; dealer: third and fourth, then the next ones.
    let m = p.len() + 2;
    assert_eq!(&p[..2], &g.deck[..2]);
    assert_eq!(&p[2..], &g.deck[4..m]);
    assert_eq!(&d[..2], &g.deck[2..4]);
    assert_eq!(&d[2..], &g.deck[m..m + d.len() - 2]);
}

#[test]
fn player_blackjack_wins_at_once() {
    let g = play(player_blackjack());
    assert_eq!(g.winner, "Sam");
    assert_eq!(g.players[0].name, "Sam");
    assert_eq!(
        g.players[0].hand,
        vec![card(Suit::Spades, Rank::Ace), card(Suit::Spades, Rank::Jack)]
    );
    assert_eq!(g.players[0].score, 21);
    assert_eq!(g.players[1].name, "Dealer");
    assert_eq!(g.players[1].hand.len(), 2);
    assert_eq!(g.deck, player_blackjack());
    assert_no_card_drawn_twice(&g);
}

#[test]
fn dealer_blackjack_wins_at_once() {
    let g = play(dealer_blackjack());
    assert_eq!(g.winner, "Dealer");
    assert_eq!(
        g.players[1].hand,
        vec![card(Suit::Spades, Rank::Ace), card(Suit::Spades, Rank::Jack)]
    );
    assert_eq!(g.players[1].score, 21);
    assert_eq!(g.players[0].score, 14);
    assert_eq!(g.players[0].hand.len(), 2);
    assert_no_card_drawn_twice(&g);
}

#[test]
fn dealer_bust_lets_player_win() {
    let g = play(dealer_bust());
    assert_eq!(g.winner, "Sam");
    assert_eq!(g.players[0].score, 17);
    assert_eq!(g.players[0].hand.len(), 4);
    assert_eq!(g.players[1].score, 22);
    assert!(g.players[1].score > 21);
    assert_eq!(g.players[1].hand[2], card(Suit::Spades, Rank::Eight));
    assert_no_card_drawn_twice(&g);
}

#[test]
fn player_bust_lets_dealer_win_without_drawing() {
    let g = play(player_bust());
    assert_eq!(g.winner, "Dealer");
    assert_eq!(g.players[0].score, 23);
    assert_eq!(g.players[1].score, 14);
    assert_eq!(g.players[1].hand.len(), 2);
    assert_no_card_drawn_twice(&g);
}

#[test]
fn both_blackjack_deck_follows_deal_order() {
    let g = play(both_blackjack());
    // Dealt Player, Player, Dealer, Dealer: both hands are King and Ace.
    assert_eq!(
        g.players[0].hand,
        vec![card(Suit::Spades, Rank::King), card(Suit::Hearts, Rank::Ace)]
    );
    assert_eq!(g.players[0].score, 21);
    assert_eq!(
        g.players[1].hand,
        vec![card(Suit::Clubs, Rank::King), card(Suit::Clubs, Rank::Ace)]
    );
    assert_eq!(g.players[1].score, 21);
    // A dealer blackjack is checked first and wins; there is no push.
    assert_eq!(g.winner, "Dealer");
    assert_no_card_drawn_twice(&g);
}

#[test]
fn tie21_dealer_draws_on_equal_score_and_busts() {
    let g = play(tie21());
    assert_eq!(g.players[0].score, 21);
    assert_eq!(g.players[1].score, 30);
    assert_eq!(g.players[1].hand.len(), 4);
    assert_eq!(g.winner, "Sam");
    assert_no_card_drawn_twice(&g);
}

#[test]
fn four_aces_player_bust_on_deal() {
    let g = play(four_aces());
    assert_eq!(g.players[0].score, 22);
    assert_eq!(g.players[1].score, 22);
    assert_eq!(g.winner, "Dealer");
    assert_no_card_drawn_twice(&g);
}

#[test]
fn dealer_wins_a_tie() {
    // Player 10+9 = 19 stands; dealer 10+9 = 19 draws a Two (21) and stands above 19.
    let deck = vec![
        card(Suit::Spades, Rank::Ten),
        card(Suit::Hearts, Rank::Nine),
        card(Suit::Clubs, Rank::Ten),
        card(Suit::Diamonds, Rank::Nine),
        card(Suit::Spades, Rank::Two),
    ];
    let g = play(deck);
    assert_eq!(g.players[0].score, 19);
    assert_eq!(g.players[1].score, 21);
    assert_eq!(g.winner, "Dealer");
}

#[test]
fn short_deck_is_exhausted() {
    let three = vec![
        card(Suit::Spades, Rank::Ten),
        card(Suit::Hearts, Rank::Nine),
        card(Suit::Clubs, Rank::Ten),
    ];
    assert!(matches!(
        play_game(three, String::from("Sam")),
        Err(GameError::DeckExhausted)
    ));
    // The player must draw on 4 and the deck has nothing left.
    let four = vec![
        card(Suit::Spades, Rank::Two),
        card(Suit::Hearts, Rank::Two),
        card(Suit::Clubs, Rank::Ten),
        card(Suit::Diamonds, Rank::Nine),
    ];
    assert!(matches!(
        play_game(four, String::from("Sam")),
        Err(GameError::DeckExhausted)
    ));
}

#[test]
fn shuffled_hands_never_reuse_a_card() {
    for _ in 0..500 {
        let g = play(shuffle());
        assert!(g.winner == "Sam" || g.winner == "Dealer");
        assert_eq!(g.players[0].score as usize, g.players[0].hand.iter().map(|c| points(c)).sum::<usize>());
        assert_no_card_drawn_twice(&g);
    }
}

fn points(c: &Card) -> usize {
    match c.value {
        Rank::Ace => 11,
        Rank::Ten | Rank::Jack | Rank::Queen | Rank::King => 10,
        r => r.ordinal() as usize + 2,
    }
}

#[test]
fn player_methods_follow_the_rules() {
    let p = Player {
        name: String::from("Ann"),
        hand: vec![card(Suit::Spades, Rank::Ace), card(Suit::Hearts, Rank::King)],
        strategy: Strategy::Threshold(17),
    };
    assert_eq!(p.score(), 21);
    assert!(p.has_blackjack());
    assert!(!p.is_bust());
    assert!(!p.hit_me(30));
    let d = Player {
        name: String::from("Dealer"),
        hand: vec![
            card(Suit::Spades, Rank::Nine),
            card(Suit::Hearts, Rank::Five),
            card(Suit::Clubs, Rank::Nine),
        ],
        strategy: Strategy::MatchOpponent,
    };
    assert_eq!(d.score(), 23);
    assert!(!d.has_blackjack());
    assert!(d.is_bust());
    assert!(d.hit_me(23));
    assert!(!d.hit_me(22));
    let r = d.to_result();
    assert_eq!(r.name, "Dealer");
    assert_eq!(r.score, 23);
    assert_eq!(r.hand.len(), 3);

    let deck = vec![card(Suit::Clubs, Rank::Two)];
    let w = player_wins(deck.clone(), p, d);
    assert_eq!(w.winner, "Ann");
    assert_eq!(w.players.len(), 2);
    assert_eq!(w.deck, deck);
    let p2 = Player {
        name: String::from("Bo"),
        hand: vec![],
        strategy: Strategy::Threshold(17),
    };
    let d2 = Player {
        name: String::from("Dealer"),
        hand: vec![],
        strategy: Strategy::MatchOpponent,
    };
    assert_eq!(p2.score(), 0);
    let l = dealer_wins(Vec::new(), p2, d2);
    assert_eq!(l.winner, "Dealer");
    assert_eq!(l.players[0].name, "Bo");
}
