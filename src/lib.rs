//! Dealing and scoring hands of blackjack from a standard 52-card deck.
//!
//! The library builds decks (canonical, completed from a chosen prefix of
//! cards, or shuffled) and plays one hand to its end under fixed drawing
//! rules for the player and the dealer.
pub mod card;
pub mod deck;
pub mod error;
pub mod game;
pub mod metrics;
pub mod text;
