//! A full pack of cards: every value, every suit, and the two jokers.

use vstd::prelude::*;

use crate::card::Joker;
use crate::card::Suit;
use crate::card::Value;

verus! {

/// The composition of a pack: which values and suits occur, and which
/// jokers, if any.
pub struct Pack {
    pub values: Vec<Value>,
    pub suits: Vec<Suit>,
    pub jokers: Option<Vec<Joker>>,
}

impl Pack {
    /// The standard pack: all thirteen values, all four suits, both jokers.
    pub fn default() -> (r: Pack)
        ensures
            r.values@ =~= seq![
                Value::Ace,
                Value::Two,
                Value::Three,
                Value::Four,
                Value::Five,
                Value::Six,
                Value::Seven,
                Value::Eight,
                Value::Nine,
                Value::Ten,
                Value::Jack,
                Value::Queen,
                Value::King,
            ],
            r.suits@ =~= seq![Suit::Heart, Suit::Diamond, Suit::Club, Suit::Spade],
            r.jokers matches Some(j) && j@ =~= seq![Joker::Big, Joker::Small],
    {
        Pack {
            values: vec![
                Value::Ace,
                Value::Two,
                Value::Three,
                Value::Four,
                Value::Five,
                Value::Six,
                Value::Seven,
                Value::Eight,
                Value::Nine,
                Value::Ten,
                Value::Jack,
                Value::Queen,
                Value::King,
            ],
            suits: vec![Suit::Heart, Suit::Diamond, Suit::Club, Suit::Spade],
            jokers: Some(vec![Joker::Big, Joker::Small]),
        }
    }
}

} // verus!
