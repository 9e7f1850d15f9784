//! A command-line vocabulary drill library.
//!
//! The library parses `word,translation` records from delimited text into
//! [`card::Card`] values, assembles them into a deck, and drives a round-based
//! drill: each round the deck is shuffled, every card is prompted once, and
//! cards answered correctly are removed until the deck is empty.

pub mod card;
pub mod deck;
pub mod drill;
pub mod laws;
