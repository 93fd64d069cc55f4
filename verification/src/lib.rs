//! Parsing and classification of five-card poker hands.
//!
//! Card text such as `"Ah"` or `"10d"` is parsed into [`card::Card`] values,
//! a whitespace-separated string of five such tokens into a
//! [`holdem::HoldemHand`], and every hand carries its [`holdem::Rank`]: a
//! totally ordered classification (high card up to royal straight flush)
//! holding exactly the tie-break data needed to compare two hands.

pub mod card;
pub mod error;
pub mod holdem;
pub mod pack;
pub mod text;
