//! Suits, values and cards, with their text notation.
//!
//! A card is written `<value><suit>`: a value token (`A`, `2`..`9`, `10`,
//! `J`, `Q`, `K`, case-insensitive) followed by a suit letter
//! (`h`, `d`, `c`, `s`, case-insensitive), e.g. `"Ah"` or `"10d"`.

use vstd::prelude::*;
use vstd::string::StrSliceExecFns;
use vstd::string::StringExecFns;

use crate::error::Error;

verus! {

/// One of the four French suits. Suits never affect the rank of a hand
/// beyond the all-same-suit (flush) test.
#[derive(Debug, Hash, Clone, Copy, PartialEq, Eq, PartialOrd, Ord, Structural)]
pub enum Suit {
    Heart,
    Diamond,
    Club,
    Spade,
}

/// The lowercase letter that renders a suit.
pub open spec fn suit_char(s: Suit) -> char {
    match s {
        Suit::Heart => 'h',
        Suit::Diamond => 'd',
        Suit::Club => 'c',
        Suit::Spade => 's',
    }
}

/// The suit denoted by a token, if any: a single suit letter of either case.
pub open spec fn spec_parse_suit(t: Seq<char>) -> Option<Suit> {
    if t.len() == 1 {
        if t[0] == 'h' || t[0] == 'H' {
            Some(Suit::Heart)
        } else if t[0] == 'd' || t[0] == 'D' {
            Some(Suit::Diamond)
        } else if t[0] == 'c' || t[0] == 'C' {
            Some(Suit::Club)
        } else if t[0] == 's' || t[0] == 'S' {
            Some(Suit::Spade)
        } else {
            None
        }
    } else {
        None
    }
}

impl Suit {
    /// All four suits, in a fixed order.
    pub fn values() -> (r: [Suit; 4])
        ensures
            r@ =~= seq![Suit::Heart, Suit::Diamond, Suit::Club, Suit::Spade],
    {
        [Suit::Heart, Suit::Diamond, Suit::Club, Suit::Spade]
    }

    /// Parses a suit token; any other text yields `BadSuit` carrying it.
    pub fn parse(s: &str) -> (r: Result<Suit, Error>)
        ensures
            match spec_parse_suit(s@) {
                Some(x) => r == Ok::<Suit, Error>(x),
                None => r matches Err(e) && e matches Error::BadSuit(t) && t@ == s@,
            },
    {
        if s.unicode_len() == 1 {
            match s.get_char(0) {
                'h' | 'H' => return Ok(Suit::Heart),
                'd' | 'D' => return Ok(Suit::Diamond),
                'c' | 'C' => return Ok(Suit::Club),
                's' | 'S' => return Ok(Suit::Spade),
                _ => {},
            }
        }
        Err(Error::BadSuit(String::from_str(s)))
    }

    /// Renders the suit as its lowercase letter.
    pub fn to_text(self) -> (r: String)
        ensures
            r@ =~= seq![suit_char(self)],
    {
        proof {
            reveal_strlit("h");
            reveal_strlit("d");
            reveal_strlit("c");
            reveal_strlit("s");
        }
        match self {
            Suit::Heart => String::from_str("h"),
            Suit::Diamond => String::from_str("d"),
            Suit::Club => String::from_str("c"),
            Suit::Spade => String::from_str("s"),
        }
    }
}

/// One of the thirteen card values, Two lowest and Ace highest.
#[derive(Debug, Clone, Copy, PartialEq, Eq, PartialOrd, Ord, Structural)]
pub enum Value {
    Two,
    Three,
    Four,
    Five,
    Six,
    Seven,
    Eight,
    Nine,
    Ten,
    Jack,
    Queen,
    King,
    Ace,
}

/// The canonical integer of a value: 2 for Two up to 14 for Ace.
/// Equality and ordering of values are equality and ordering of this
/// integer; it is the sole numeric meaning a value has.
pub open spec fn value_int(v: Value) -> int {
    match v {
        Value::Two => 2,
        Value::Three => 3,
        Value::Four => 4,
        Value::Five => 5,
        Value::Six => 6,
        Value::Seven => 7,
        Value::Eight => 8,
        Value::Nine => 9,
        Value::Ten => 10,
        Value::Jack => 11,
        Value::Queen => 12,
        Value::King => 13,
        Value::Ace => 14,
    }
}

/// Distinct values carry distinct integers, and every integer lies
/// between 2 and 14.
pub proof fn lemma_value_int_injective(a: Value, b: Value)
    ensures
        2 <= value_int(a) <= 14,
        value_int(a) == value_int(b) ==> a == b,
{
}

/// The value denoted by a token, if any: `a`, `j`, `q`, `k` in either
/// case, a single digit `2`..`9`, or `10`. Nothing else — in particular
/// neither `1` nor `11`..`14` — denotes a value.
pub open spec fn spec_parse_value(t: Seq<char>) -> Option<Value> {
    if t.len() == 1 {
        if t[0] == 'a' || t[0] == 'A' {
            Some(Value::Ace)
        } else if t[0] == '2' {
            Some(Value::Two)
        } else if t[0] == '3' {
            Some(Value::Three)
        } else if t[0] == '4' {
            Some(Value::Four)
        } else if t[0] == '5' {
            Some(Value::Five)
        } else if t[0] == '6' {
            Some(Value::Six)
        } else if t[0] == '7' {
            Some(Value::Seven)
        } else if t[0] == '8' {
            Some(Value::Eight)
        } else if t[0] == '9' {
            Some(Value::Nine)
        } else if t[0] == 'j' || t[0] == 'J' {
            Some(Value::Jack)
        } else if t[0] == 'q' || t[0] == 'Q' {
            Some(Value::Queen)
        } else if t[0] == 'k' || t[0] == 'K' {
            Some(Value::King)
        } else {
            None
        }
    } else if t.len() == 2 && t[0] == '1' && t[1] == '0' {
        Some(Value::Ten)
    } else {
        None
    }
}

/// The canonical text of a value: `A`, `K`, `Q`, `J`, or its digits.
pub open spec fn value_text(v: Value) -> Seq<char> {
    match v {
        Value::Two => seq!['2'],
        Value::Three => seq!['3'],
        Value::Four => seq!['4'],
        Value::Five => seq!['5'],
        Value::Six => seq!['6'],
        Value::Seven => seq!['7'],
        Value::Eight => seq!['8'],
        Value::Nine => seq!['9'],
        Value::Ten => seq!['1', '0'],
        Value::Jack => seq!['J'],
        Value::Queen => seq!['Q'],
        Value::King => seq!['K'],
        Value::Ace => seq!['A'],
    }
}

impl Value {
    /// The canonical integer of this value, 2 (Two) up to 14 (Ace).
    pub fn value(self) -> (r: u8)
        ensures
            r as int == value_int(self),
    {
        match self {
            Value::Two => 2,
            Value::Three => 3,
            Value::Four => 4,
            Value::Five => 5,
            Value::Six => 6,
            Value::Seven => 7,
            Value::Eight => 8,
            Value::Nine => 9,
            Value::Ten => 10,
            Value::Jack => 11,
            Value::Queen => 12,
            Value::King => 13,
            Value::Ace => 14,
        }
    }

    /// All thirteen values, Ace first.
    pub fn values() -> (r: [Value; 13])
        ensures
            r@ =~= seq![
                Value::Ace,
                Value::Two,
                Value::Three,
                Value::Four,
                Value::Five,
                Value::Six,
                Value::Seven,
                Value::Eight,
                Value::Nine,
                Value::Ten,
                Value::Jack,
                Value::Queen,
                Value::King,
            ],
    {
        [
            Value::Ace,
            Value::Two,
            Value::Three,
            Value::Four,
            Value::Five,
            Value::Six,
            Value::Seven,
            Value::Eight,
            Value::Nine,
            Value::Ten,
            Value::Jack,
            Value::Queen,
            Value::King,
        ]
    }

    /// Adds an offset to the canonical integer of this value.
    pub fn plus(self, rhs: u8) -> (r: u8)
        requires
            value_int(self) + rhs <= u8::MAX,
        ensures
            r as int == value_int(self) + rhs,
    {
        self.value() + rhs
    }

    /// Parses a value token; any other text yields `BadValue` carrying it.
    pub fn parse(s: &str) -> (r: Result<Value, Error>)
        ensures
            match spec_parse_value(s@) {
                Some(x) => r == Ok::<Value, Error>(x),
                None => r matches Err(e) && e matches Error::BadValue(t) && t@ == s@,
            },
    {
        let n = s.unicode_len();
        if n == 1 {
            match s.get_char(0) {
                'a' | 'A' => return Ok(Value::Ace),
                '2' => return Ok(Value::Two),
                '3' => return Ok(Value::Three),
                '4' => return Ok(Value::Four),
                '5' => return Ok(Value::Five),
                '6' => return Ok(Value::Six),
                '7' => return Ok(Value::Seven),
                '8' => return Ok(Value::Eight),
                '9' => return Ok(Value::Nine),
                'j' | 'J' => return Ok(Value::Jack),
                'q' | 'Q' => return Ok(Value::Queen),
                'k' | 'K' => return Ok(Value::King),
                _ => {},
            }
        } else if n == 2 {
            if s.get_char(0) == '1' && s.get_char(1) == '0' {
                return Ok(Value::Ten);
            }
        }
        Err(Error::BadValue(String::from_str(s)))
    }

    /// Renders the value as its canonical text.
    pub fn to_text(self) -> (r: String)
        ensures
            r@ =~= value_text(self),
    {
        proof {
            reveal_strlit("2");
            reveal_strlit("3");
            reveal_strlit("4");
            reveal_strlit("5");
            reveal_strlit("6");
            reveal_strlit("7");
            reveal_strlit("8");
            reveal_strlit("9");
            reveal_strlit("10");
            reveal_strlit("J");
            reveal_strlit("Q");
            reveal_strlit("K");
            reveal_strlit("A");
        }
        match self {
            Value::Two => String::from_str("2"),
            Value::Three => String::from_str("3"),
            Value::Four => String::from_str("4"),
            Value::Five => String::from_str("5"),
            Value::Six => String::from_str("6"),
            Value::Seven => String::from_str("7"),
            Value::Eight => String::from_str("8"),
            Value::Nine => String::from_str("9"),
            Value::Ten => String::from_str("10"),
            Value::Jack => String::from_str("J"),
            Value::Queen => String::from_str("Q"),
            Value::King => String::from_str("K"),
            Value::Ace => String::from_str("A"),
        }
    }
}

impl PartialEq<u8> for Value {
    /// A value equals an integer when the integer is its canonical one.
    fn eq(&self, other: &u8) -> (r: bool) {
        self.value() == *other
    }
}

impl vstd::std_specs::cmp::PartialEqSpecImpl<u8> for Value {
    open spec fn obeys_eq_spec() -> bool {
        true
    }

    open spec fn eq_spec(&self, other: &u8) -> bool {
        value_int(*self) == *other as int
    }
}

impl PartialEq<Value> for u8 {
    /// An integer equals a value when it is the value's canonical one.
    fn eq(&self, other: &Value) -> (r: bool) {
        *self == other.value()
    }
}

impl vstd::std_specs::cmp::PartialEqSpecImpl<Value> for u8 {
    open spec fn obeys_eq_spec() -> bool {
        true
    }

    open spec fn eq_spec(&self, other: &Value) -> bool {
        *self as int == value_int(*other)
    }
}

/// The two jokers. They take no part in hand ranking.
#[derive(Debug, Clone, Copy, PartialEq, Eq, PartialOrd, Ord, Structural)]
pub enum Joker {
    Small,
    Big,
}

/// A playing card: a suit and a value. Every combination is a valid card.
#[derive(Debug, Clone, Copy, PartialEq, Eq, PartialOrd, Ord, Structural)]
pub struct Card {
    pub suit: Suit,
    pub value: Value,
}

/// The canonical text of a card: its value's text followed by its suit's
/// letter.
pub open spec fn card_text(c: Card) -> Seq<char> {
    value_text(c.value) + seq![suit_char(c.suit)]
}

/// The card denoted by a token, if any: two or three characters whose
/// last character denotes a suit and whose prefix denotes a value.
pub open spec fn spec_parse_card(t: Seq<char>) -> Option<Card> {
    if t.len() == 2 || t.len() == 3 {
        match spec_parse_suit(t.subrange(t.len() - 1, t.len() as int)) {
            Some(suit) => match spec_parse_value(t.subrange(0, t.len() - 1)) {
                Some(value) => Some(Card { suit, value }),
                None => None,
            },
            None => None,
        }
    } else {
        None
    }
}

/// The error `Card::parse` reports for a token that denotes no card:
/// `BadCard("invalid length")` unless the token has two or three
/// characters; else `BadSuit` carrying the last character if that denotes
/// no suit; else `BadValue` carrying the prefix. The suit is examined
/// before the value, so a token bad on both counts surfaces the suit.
pub open spec fn spec_card_error(t: Seq<char>, e: Error) -> bool {
    if t.len() < 2 || t.len() > 3 {
        e matches Error::BadCard(m) && m@ == "invalid length"@
    } else if spec_parse_suit(t.subrange(t.len() - 1, t.len() as int)) is None {
        e matches Error::BadSuit(x) && x@ == t.subrange(t.len() - 1, t.len() as int)
    } else {
        e matches Error::BadValue(x) && x@ == t.subrange(0, t.len() - 1)
    }
}

impl Card {
    /// Builds the card of the given suit and value.
    pub fn new(suit: Suit, value: Value) -> (r: Card)
        ensures
            r == (Card { suit, value }),
    {
        Card { suit, value }
    }

    /// The card's suit.
    pub fn suit(&self) -> (r: Suit)
        ensures
            r == self.suit,
    {
        self.suit
    }

    /// The card's value.
    pub fn value(&self) -> (r: Value)
        ensures
            r == self.value,
    {
        self.value
    }

    /// Parses a card token; text that denotes no card yields the error
    /// `spec_card_error` describes.
    pub fn parse(s: &str) -> (r: Result<Card, Error>)
        ensures
            match spec_parse_card(s@) {
                Some(c) => r == Ok::<Card, Error>(c),
                None => r matches Err(e) && spec_card_error(s@, e),
            },
    {
        let n = s.unicode_len();
        if n != 2 && n != 3 {
            return Err(Error::BadCard(String::from_str("invalid length")));
        }
        let suit_part = s.substring_char(n - 1, n);
        let suit = match Suit::parse(suit_part) {
            Ok(suit) => suit,
            Err(se) => {
                return Err(se);
            },
        };
        let value_part = s.substring_char(0, n - 1);
        match Value::parse(value_part) {
            Ok(value) => Ok(Card { suit, value }),
            Err(ve) => Err(ve),
        }
    }

    /// Renders the card as its canonical text.
    pub fn to_text(&self) -> (r: String)
        ensures
            r@ =~= card_text(*self),
    {
        let v = self.value.to_text();
        let s = self.suit.to_text();
        v.concat(s.as_str())
    }
}

/// A value's text has one or two characters and parses back to the value.
pub proof fn lemma_value_text_round_trip(v: Value)
    ensures
        1 <= value_text(v).len() <= 2,
        spec_parse_value(value_text(v)) == Some(v),
{
}

/// Round trip: parsing a card's canonical text yields the card back.
pub proof fn lemma_card_text_round_trip(c: Card)
    ensures
        spec_parse_card(card_text(c)) == Some(c),
{
    let t = card_text(c);
    lemma_value_text_round_trip(c.value);
    assert(t.subrange(t.len() - 1, t.len() as int) =~= seq![suit_char(c.suit)]);
    assert(t.subrange(0, t.len() - 1) =~= value_text(c.value));
    assert(spec_parse_suit(seq![suit_char(c.suit)]) == Some(c.suit));
}

/// A card's text is a token as the hand notation writes one: non-empty
/// and free of whitespace.
pub proof fn lemma_card_text_clean(c: Card)
    ensures
        crate::text::clean_token(card_text(c)),
{
    let t = card_text(c);
    lemma_value_text_round_trip(c.value);
    assert forall|k: int| 0 <= k < t.len() implies !crate::text::is_ws_char(#[trigger] t[k]) by {
        if k < t.len() - 1 {
            assert(t[k] == value_text(c.value)[k]);
        } else {
            assert(t[k] == suit_char(c.suit));
        }
    };
}

} // verus!
