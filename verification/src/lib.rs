//! A five-card-draw video-poker round engine.
//!
//! The crate holds the card, deck and hand data model, the hand
//! classification rules, and the state machine that sequences a round:
//! betting, hand selection, payout, and the next round or game over.
//! Every operation keeps the fifty-two cards split over the deck, the hand
//! and the discard pile without losing or duplicating one.

pub mod audit;
pub mod card;
pub mod deck;
pub mod game;
pub mod hand;
pub mod input;
pub mod laws;
pub mod prize;
pub mod ranks;
pub mod table;

pub use card::Card;
pub use deck::Deck;
pub use game::JokeriPokeri;
pub use hand::{Hand, HandError};
pub use input::{Intent, Key, Outcome, Rejection};
pub use prize::Prize;
pub use table::{GameState, Table};
