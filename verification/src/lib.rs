//! Monte-Carlo estimation of 5-card poker hand category frequencies.
//!
//! The library models a standard 52-card deck, classifies 5-card hands
//! into nine mutually exclusive categories, and aggregates per-category
//! trial counts produced by independent sampling workers.

pub mod card;
pub mod classify;
pub mod sampling;
pub mod tally;

pub use card::Card;
pub use card::Deck;
pub use card::Suit;
pub use card::Value;
pub use classify::HandCategory;
pub use classify::Sort;
pub use classify::classify;
pub use sampling::chunk_counts;
pub use sampling::run_trials;
pub use tally::Tally;
pub use tally::category_slot;
