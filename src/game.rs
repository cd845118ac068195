//! Playing one hand of blackjack: dealing, the player's and the dealer's
//! turns under fixed drawing rules, and the winner.
use vstd::prelude::*;

use crate::card::{Card, Rank};

verus! {

/// Blackjack points of a rank: numerals count their value, faces ten, an Ace eleven.
pub open spec fn rank_points(r: Rank) -> nat {
    match r {
        Rank::Two => 2,
        Rank::Three => 3,
        Rank::Four => 4,
        Rank::Five => 5,
        Rank::Six => 6,
        Rank::Seven => 7,
        Rank::Eight => 8,
        Rank::Nine => 9,
        Rank::Ace => 11,
        _ => 10,
    }
}

/// Things worth a number of blackjack points.
pub trait ToInt {
    /// The points, as a number.
    spec fn points(&self) -> nat;

    /// The points.
    fn to_int(&self) -> (r: u8)
        ensures
            r as nat == self.points(),
    ;
}

impl ToInt for Rank {
    open spec fn points(&self) -> nat {
        rank_points(*self)
    }

    fn to_int(&self) -> (r: u8) {
        match self {
            Rank::Two => 2,
            Rank::Three => 3,
            Rank::Four => 4,
            Rank::Five => 5,
            Rank::Six => 6,
            Rank::Seven => 7,
            Rank::Eight => 8,
            Rank::Nine => 9,
            Rank::Ace => 11,
            _ => 10,
        }
    }
}

impl ToInt for Card {
    open spec fn points(&self) -> nat {
        rank_points(self.value)
    }

    fn to_int(&self) -> (r: u8) {
        self.value.to_int()
    }
}

/// The score of a hand: the sum of its cards' points.
pub open spec fn hand_score(hand: Seq<Card>) -> nat
    decreases hand.len(),
{
    if hand.len() == 0 {
        0
    } else {
        hand_score(hand.drop_last()) + rank_points(hand.last().value)
    }
}

/// Two cards worth exactly 21.
pub open spec fn is_blackjack(hand: Seq<Card>) -> bool {
    hand.len() == 2 && hand_score(hand) == 21
}

/// A score over 21.
pub open spec fn is_bust(hand: Seq<Card>) -> bool {
    hand_score(hand) > 21
}

/// Every card is worth at least two points, and at most eleven.
pub proof fn lemma_score_bounds(hand: Seq<Card>)
    ensures
        2 * hand.len() <= hand_score(hand) <= 11 * hand.len(),
    decreases hand.len(),
{
    if hand.len() > 0 {
        lemma_score_bounds(hand.drop_last());
    }
}

/// When a player asks for another card.
#[derive(Debug, Clone, Copy, PartialEq, Eq, Structural)]
pub enum Strategy {
    /// Draws while the own score is below the threshold, whatever the opponent holds.
    Threshold(u32),
    /// Draws while the own score is not above the opponent's.
    MatchOpponent,
}

/// Whether a player with `strategy` and score `own` draws against an opponent's score `other`.
pub open spec fn wants_card(strategy: Strategy, own: int, other: int) -> bool {
    match strategy {
        Strategy::Threshold(t) => own < t,
        Strategy::MatchOpponent => own <= other,
    }
}

/// What can go wrong while playing a hand.
#[derive(Debug, Clone, Copy, PartialEq, Eq, Structural)]
pub enum GameError {
    /// A card had to be drawn and the deck had none left.
    DeckExhausted,
}

/// The threshold below which the player draws.
pub const PLAYER_STANDS_AT: u32 = 17;

/// The dealer's name.
pub open spec fn dealer_name() -> Seq<char> {
    "Dealer"@
}

/// One turn of drawing: starting with `hand` and the deck's card at `pos`
/// next, cards are drawn in deck order while the strategy asks for one.
/// Gives the final hand and the position of the next undrawn card, or `None`
/// when a card was wanted and the deck had run out.
pub open spec fn draw_phase(
    deck: Seq<Card>,
    pos: int,
    hand: Seq<Card>,
    strategy: Strategy,
    other: int,
) -> Option<(Seq<Card>, int)>
    decreases deck.len() - pos,
{
    if !wants_card(strategy, hand_score(hand) as int, other) {
        Some((hand, pos))
    } else if pos < 0 || pos >= deck.len() {
        None
    } else {
        draw_phase(deck, pos + 1, hand.push(deck[pos]), strategy, other)
    }
}

/// The outcome of a hand dealt from `deck`: the player's and the dealer's
/// final hands, and whether the player wins; `None` when the deck runs out.
///
/// The player takes the first two cards and the dealer the next two. A dealer
/// blackjack wins at once, then a player blackjack. Otherwise the player draws
/// below 17; a bust player loses. Then the dealer draws while not above the
/// player's score, and wins unless bust.
pub open spec fn game_outcome(deck: Seq<Card>) -> Option<(Seq<Card>, Seq<Card>, bool)> {
    if deck.len() < 4 {
        None
    } else {
        let p = deck.subrange(0, 2);
        let d = deck.subrange(2, 4);
        if is_blackjack(d) {
            Some((p, d, false))
        } else if is_blackjack(p) {
            Some((p, d, true))
        } else {
            match draw_phase(deck, 4, p, Strategy::Threshold(PLAYER_STANDS_AT), hand_score(d) as int) {
                None => None,
                Some((p2, pos)) => if is_bust(p2) {
                    Some((p2, d, false))
                } else {
                    match draw_phase(deck, pos, d, Strategy::MatchOpponent, hand_score(p2) as int) {
                        None => None,
                        Some((d2, _)) => Some((p2, d2, is_bust(d2))),
                    }
                },
            }
        }
    }
}

/// A turn draws the deck's next cards in order: the final hand is the
/// starting hand followed by the cards from `pos` up to the new position.
pub proof fn lemma_draw_phase_takes_next(
    deck: Seq<Card>,
    pos: int,
    hand: Seq<Card>,
    strategy: Strategy,
    other: int,
)
    requires
        0 <= pos <= deck.len(),
        draw_phase(deck, pos, hand, strategy, other) is Some,
    ensures
        ({
            let (h2, pos2) = draw_phase(deck, pos, hand, strategy, other)->0;
            pos <= pos2 <= deck.len() && h2 == hand + deck.subrange(pos, pos2)
        }),
    decreases deck.len() - pos,
{
    if !wants_card(strategy, hand_score(hand) as int, other) {
        assert(hand + deck.subrange(pos, pos) =~= hand);
    } else {
        lemma_draw_phase_takes_next(deck, pos + 1, hand.push(deck[pos]), strategy, other);
        let (_, pos2) = draw_phase(deck, pos, hand, strategy, other)->0;
        assert(hand.push(deck[pos]) + deck.subrange(pos + 1, pos2) =~= hand + deck.subrange(
            pos,
            pos2,
        ));
    }
}

/// No card is drawn twice in a hand. The player holds the deck's first two
/// cards and then those from the fifth on; the dealer holds the third and
/// fourth and then those right after the player's. So both hands together
/// take no more cards than the deck holds, and from a deck without repeated
/// cards no card is in both hands or twice in one.
pub proof fn lemma_no_card_drawn_twice(deck: Seq<Card>)
    requires
        game_outcome(deck) is Some,
    ensures
        ({
            let (p, d, _) = game_outcome(deck)->0;
            &&& exists|m: int, n: int|
                4 <= m <= n <= deck.len() && p == deck.subrange(0, 2) + deck.subrange(4, m) && d
                    == deck.subrange(2, 4) + deck.subrange(m, n)
            &&& p.len() + d.len() <= deck.len()
            &&& deck.no_duplicates() ==> (p + d).no_duplicates()
        }),
{
    let (p, d, _) = game_outcome(deck)->0;
    let p0 = deck.subrange(0, 2);
    let d0 = deck.subrange(2, 4);
    let mut m: int = 4;
    let mut n: int = 4;
    if !is_blackjack(d0) && !is_blackjack(p0) {
        let other = hand_score(d0) as int;
        lemma_draw_phase_takes_next(deck, 4, p0, Strategy::Threshold(PLAYER_STANDS_AT), other);
        let (p2, pos) = draw_phase(deck, 4, p0, Strategy::Threshold(PLAYER_STANDS_AT), other)->0;
        m = pos;
        n = pos;
        if !is_bust(p2) {
            lemma_draw_phase_takes_next(deck, pos, d0, Strategy::MatchOpponent, hand_score(p2) as int);
            let (_, pos2) = draw_phase(deck, pos, d0, Strategy::MatchOpponent, hand_score(p2) as int)->0;
            n = pos2;
        }
    }
    assert(p == deck.subrange(0, 2) + deck.subrange(4, m));
    assert(d =~= deck.subrange(2, 4) + deck.subrange(m, n));
    let q = p + d;
    assert forall|i: int| 0 <= i < q.len() implies q[i] == deck[drawn_from(i, m)] by {
        if i < 2 {
        } else if i < m - 2 {
        } else if i < m {
        } else {
        }
    }
    if deck.no_duplicates() {
        assert forall|i: int, j: int| 0 <= i < q.len() && 0 <= j < q.len() && i != j implies q[i]
            != q[j] by {
            assert(drawn_from(i, m) != drawn_from(j, m));
        }
    }
}

/// Where in the deck the card at position `i` of the player's hand followed
/// by the dealer's comes from, when the player's hand holds `m - 2` cards.
spec fn drawn_from(i: int, m: int) -> int {
    if i < 2 {
        i
    } else if i < m - 2 {
        i + 2
    } else if i < m {
        i - m + 4
    } else {
        i
    }
}

/// `g` records a hand dealt from `deck` to a player called `name`, with the
/// given final hands and winner.
pub open spec fn records(
    g: GameResult,
    deck: Seq<Card>,
    name: Seq<char>,
    player_hand: Seq<Card>,
    dealer_hand: Seq<Card>,
    player_wins: bool,
) -> bool {
    &&& g.deck@ == deck
    &&& g.players@.len() == 2
    &&& g.players@[0].name@ == name
    &&& g.players@[0].hand@ == player_hand
    &&& g.players@[0].score == hand_score(player_hand)
    &&& g.players@[1].name@ == dealer_name()
    &&& g.players@[1].hand@ == dealer_hand
    &&& g.players@[1].score == hand_score(dealer_hand)
    &&& g.winner@ == if player_wins {
        name
    } else {
        dealer_name()
    }
}

/// A player's name, cards, and drawing rule.
pub struct Player {
    pub name: String,
    pub hand: Vec<Card>,
    pub strategy: Strategy,
}

/// A player's name, final hand and score.
#[derive(Debug)]
pub struct PlayerResult {
    pub name: String,
    pub hand: Vec<Card>,
    pub score: u32,
}

/// The outcome of one hand: the deck it was dealt from, the player and the
/// dealer (in that order), and the winner's name.
#[derive(Debug)]
pub struct GameResult {
    pub deck: Vec<Card>,
    pub players: Vec<PlayerResult>,
    pub winner: String,
}

impl Player {
    /// The sum of the points of the cards in hand.
    pub fn score(&self) -> (r: u32)
        requires
            self.hand@.len() <= 52,
        ensures
            r == hand_score(self.hand@),
    {
        let mut sum: u32 = 0;
        for i in 0..self.hand.len()
            invariant
                self.hand@.len() <= 52,
                sum == hand_score(self.hand@.take(i as int)),
        {
            proof {
                lemma_score_bounds(self.hand@.take(i as int));
                assert(self.hand@.take(i + 1).drop_last() =~= self.hand@.take(i as int));
            }
            sum = sum + self.hand[i].to_int() as u32;
        }
        assert(self.hand@.take(self.hand@.len() as int) =~= self.hand@);
        sum
    }

    /// Two cards worth exactly 21.
    pub fn has_blackjack(&self) -> (r: bool)
        requires
            self.hand@.len() <= 52,
        ensures
            r == is_blackjack(self.hand@),
    {
        self.hand.len() == 2 && self.score() == 21
    }

    /// A score over 21.
    pub fn is_bust(&self) -> (r: bool)
        requires
            self.hand@.len() <= 52,
        ensures
            r == is_bust(self.hand@),
    {
        self.score() > 21
    }

    /// Whether the player's strategy asks for another card against `other_score`.
    pub fn hit_me(&self, other_score: u32) -> (r: bool)
        requires
            self.hand@.len() <= 52,
        ensures
            r == wants_card(self.strategy, hand_score(self.hand@) as int, other_score as int),
    {
        let own = self.score();
        match self.strategy {
            Strategy::Threshold(t) => own < t,
            Strategy::MatchOpponent => own <= other_score,
        }
    }

    /// The player's name, hand and score.
    pub fn to_result(&self) -> (r: PlayerResult)
        requires
            self.hand@.len() <= 52,
        ensures
            r.name@ == self.name@,
            r.hand@ == self.hand@,
            r.score == hand_score(self.hand@),
    {
        let hand = self.hand.clone();
        assert(hand@ =~= self.hand@);
        PlayerResult { name: self.name.clone(), hand, score: self.score() }
    }
}

/// Draws the next card from the front of the working deck.
fn draw(working: &mut Vec<Card>) -> (r: Result<Card, GameError>)
    ensures
        old(working)@.len() > 0 ==> (r == Ok::<Card, GameError>(old(working)@[0])
            && final(working)@ == old(working)@.drop_first()),
        old(working)@.len() == 0 ==> (r == Err::<Card, GameError>(GameError::DeckExhausted)
            && final(working)@ == old(working)@),
{
    if working.len() == 0 {
        Err(GameError::DeckExhausted)
    } else {
        let c = working.remove(0);
        assert(working@ =~= old(working)@.drop_first());
        Ok(c)
    }
}

/// One player's turn: draws from the working deck, the rest of `deck` from
/// position `deck.len() - working.len()`, while the player's strategy asks
/// for a card against `other_score`.
fn take_turn(
    who: &mut Player,
    working: &mut Vec<Card>,
    other_score: u32,
    Ghost(deck): Ghost<Seq<Card>>,
) -> (r: Result<(), GameError>)
    requires
        old(working)@.len() <= deck.len(),
        old(working)@ == deck.skip(deck.len() - old(working)@.len()),
        old(who).hand@.len() <= 52,
        forall|x: int| wants_card(old(who).strategy, x, other_score as int) ==> x < 100,
    ensures
        final(who).name == old(who).name,
        final(who).strategy == old(who).strategy,
        final(who).hand@.len() <= 52,
        final(working)@.len() <= deck.len(),
        final(working)@ == deck.skip(deck.len() - final(working)@.len()),
        r is Ok ==> draw_phase(
            deck,
            deck.len() - old(working)@.len(),
            old(who).hand@,
            old(who).strategy,
            other_score as int,
        ) == Some((final(who).hand@, deck.len() - final(working)@.len())),
        r is Err ==> r == Err::<(), GameError>(GameError::DeckExhausted) && draw_phase(
            deck,
            deck.len() - old(working)@.len(),
            old(who).hand@,
            old(who).strategy,
            other_score as int,
        ) is None,
{
    let ghost start = draw_phase(
        deck,
        deck.len() - working@.len(),
        who.hand@,
        who.strategy,
        other_score as int,
    );
    while who.hit_me(other_score)
        invariant
            who.name == old(who).name,
            who.strategy == old(who).strategy,
            who.hand@.len() <= 52,
            working@.len() <= deck.len(),
            working@ == deck.skip(deck.len() - working@.len()),
            forall|x: int| wants_card(who.strategy, x, other_score as int) ==> x < 100,
            draw_phase(deck, deck.len() - working@.len(), who.hand@, who.strategy, other_score as int)
                == start,
            start == draw_phase(
                deck,
                deck.len() - old(working)@.len(),
                old(who).hand@,
                old(who).strategy,
                other_score as int,
            ),
        decreases working@.len(),
    {
        let ghost pos = deck.len() - working@.len();
        let c = match draw(working) {
            Ok(c) => c,
            Err(e) => {
                return Err(e);
            },
        };
        proof {
            lemma_score_bounds(who.hand@);
            assert(working@ =~= deck.skip(pos + 1));
        }
        who.hand.push(c);
    }
    Ok(())
}

/// The result of a hand that the player won.
pub fn player_wins(original: Vec<Card>, player: Player, dealer: Player) -> (r: GameResult)
    requires
        player.hand@.len() <= 52,
        dealer.hand@.len() <= 52,
    ensures
        r.deck@ == original@,
        r.players@.len() == 2,
        r.players@[0].name@ == player.name@,
        r.players@[0].hand@ == player.hand@,
        r.players@[0].score == hand_score(player.hand@),
        r.players@[1].name@ == dealer.name@,
        r.players@[1].hand@ == dealer.hand@,
        r.players@[1].score == hand_score(dealer.hand@),
        r.winner@ == player.name@,
{
    let mut players: Vec<PlayerResult> = Vec::new();
    players.push(player.to_result());
    players.push(dealer.to_result());
    GameResult { winner: player.name, players, deck: original }
}

/// The result of a hand that the dealer won.
pub fn dealer_wins(original: Vec<Card>, player: Player, dealer: Player) -> (r: GameResult)
    requires
        player.hand@.len() <= 52,
        dealer.hand@.len() <= 52,
    ensures
        r.deck@ == original@,
        r.players@.len() == 2,
        r.players@[0].name@ == player.name@,
        r.players@[0].hand@ == player.hand@,
        r.players@[0].score == hand_score(player.hand@),
        r.players@[1].name@ == dealer.name@,
        r.players@[1].hand@ == dealer.hand@,
        r.players@[1].score == hand_score(dealer.hand@),
        r.winner@ == dealer.name@,
{
    let mut players: Vec<PlayerResult> = Vec::new();
    players.push(player.to_result());
    players.push(dealer.to_result());
    GameResult { winner: dealer.name, players, deck: original }
}

/// Plays one hand from `deck` for a player called `player_name` against the
/// dealer, and reports both hands and the winner. Fails when a card must be
/// drawn and the deck has none left.
pub fn play_game(deck: Vec<Card>, player_name: String) -> (r: Result<GameResult, GameError>)
    ensures
        match r {
            Ok(g) => game_outcome(deck@) matches Some((p, d, pw)) && records(
                g,
                deck@,
                player_name@,
                p,
                d,
                pw,
            ),
            Err(e) => e == GameError::DeckExhausted && game_outcome(deck@) is None,
        },
{
    let original = deck.clone();
    assert(original@ =~= deck@);
    let ghost full = deck@;
    if deck.len() < 4 {
        return Err(GameError::DeckExhausted);
    }
    let mut working = deck;
    let mut player_hand: Vec<Card> = Vec::new();
    player_hand.push(working.remove(0));
    player_hand.push(working.remove(0));
    let mut dealer_hand: Vec<Card> = Vec::new();
    dealer_hand.push(working.remove(0));
    dealer_hand.push(working.remove(0));
    assert(player_hand@ =~= full.subrange(0, 2));
    assert(dealer_hand@ =~= full.subrange(2, 4));
    assert(working@ =~= full.skip(4));
    let mut player = Player {
        name: player_name,
        hand: player_hand,
        strategy: Strategy::Threshold(PLAYER_STANDS_AT),
    };
    let mut dealer = Player {
        name: String::from_str("Dealer"),
        hand: dealer_hand,
        strategy: Strategy::MatchOpponent,
    };
    if dealer.has_blackjack() {
        return Ok(dealer_wins(original, player, dealer));
    } else if player.has_blackjack() {
        return Ok(player_wins(original, player, dealer));
    }
    let d_score = dealer.score();
    match take_turn(&mut player, &mut working, d_score, Ghost(full)) {
        Ok(_) => {},
        Err(e) => {
            return Err(e);
        },
    }
    if player.is_bust() {
        return Ok(dealer_wins(original, player, dealer));
    }
    let p_score = player.score();
    match take_turn(&mut dealer, &mut working, p_score, Ghost(full)) {
        Ok(_) => {},
        Err(e) => {
            return Err(e);
        },
    }
    if dealer.is_bust() {
        Ok(player_wins(original, player, dealer))
    } else {
        Ok(dealer_wins(original, player, dealer))
    }
}

} // verus!
