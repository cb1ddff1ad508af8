//! A single-player blackjack game against a scripted dealer: the card model,
//! the deck, hand valuation, the dealer's policy and the round state machine.
pub mod card;
pub mod deck;
pub mod hand;
pub mod game;
