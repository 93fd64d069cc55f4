use poker::card::Card;
use poker::card::Suit;
use poker::card::Value;
use poker::error::Error;

#[test]
fn test_suit() {
    assert_eq!(Suit::parse("h"), Ok(Suit::Heart));
    assert_eq!(Suit::parse("d"), Ok(Suit::Diamond));
    assert_eq!(Suit::parse("c"), Ok(Suit::Club));
    assert_eq!(Suit::parse("s"), Ok(Suit::Spade));
    assert_eq!(Suit::parse("H"), Ok(Suit::Heart));
    assert_eq!(Suit::parse("D"), Ok(Suit::Diamond));
    assert_eq!(Suit::parse("C"), Ok(Suit::Club));
    assert_eq!(Suit::parse("S"), Ok(Suit::Spade));
    assert_eq!(Suit::parse("x"), Err(Error::BadSuit("x".to_string())));
    assert_eq!(Suit::parse(""), Err(Error::BadSuit("".to_string())));
}

#[test]
fn test_value() {
    assert_eq!(Value::parse("a"), Ok(Value::Ace));
    assert_eq!(Value::parse("A"), Ok(Value::Ace));
    assert_eq!(Value::parse("2"), Ok(Value::Two));
    assert_eq!(Value::parse("10"), Ok(Value::Ten));
    assert_eq!(Value::parse("13"), Err(Error::BadValue("13".to_string())));
    assert_eq!(Value::parse("0"), Err(Error::BadValue("0".to_string())));
    assert_eq!(Value::parse("1"), Err(Error::BadValue("1".to_string())));

    // eq
    assert_ne!(Value::Ace, Value::Two);
    assert_eq!(Value::Ace, Value::Ace);
    assert_eq!(Value::Ace, 14);
    assert_ne!(Value::Ace, 1);
    assert_ne!(1, Value::Ace);
    assert_eq!(14, Value::Ace);

    // ord
    assert_eq!(Value::Two < Value::Ace, true);

    // offset arithmetic
    assert_eq!(Value::Ace.plus(1), 15);
    assert_eq!(Value::Ten.plus(1), 11);
}

#[test]
fn test_card() {
    assert_eq!(Card::parse("2h"), Ok(Card::new(Suit::Heart, Value::Two)));
    assert_eq!(Card::parse("2H"), Ok(Card::new(Suit::Heart, Value::Two)));
    assert_eq!(Card::parse("Ad"), Ok(Card::new(Suit::Diamond, Value::Ace)));
    assert_eq!(Card::parse("aD"), Ok(Card::new(Suit::Diamond, Value::Ace)));
    assert_eq!(Card::parse("10d"), Ok(Card::new(Suit::Diamond, Value::Ten)));

    // bad suit to parse
    assert_eq!(Card::parse("Ak"), Err(Error::BadSuit("k".to_string())));
    assert_eq!(Card::parse("pk"), Err(Error::BadSuit("k".to_string()))); // parse suit first

    // bad value to parse
    assert_eq!(Card::parse("pD"), Err(Error::BadValue("p".to_string())));
    assert_eq!(Card::parse("20D"), Err(Error::BadValue("20".to_string())));
    assert_eq!(Card::parse("0D"), Err(Error::BadValue("0".to_string())));
    assert_eq!(Card::parse("*D"), Err(Error::BadValue("*".to_string())));

    // bad card format
    assert_eq!(
        Card::parse("100D"),
        Err(Error::BadCard("invalid length".to_string()))
    );
    assert_eq!(
        Card::parse("*"),
        Err(Error::BadCard("invalid length".to_string()))
    );
    assert_eq!(
        Card::parse(""),
        Err(Error::BadCard("invalid length".to_string()))
    );
}

#[test]
fn test_card_round_trip() {
    // Parsing a card's own text yields the card back, for all 52 cards.
    for suit in Suit::values() {
        for value in Value::values() {
            let card = Card::new(suit, value);
            let text = card.to_text();
            assert_eq!(Card::parse(&text), Ok(card));
        }
    }
}

#[test]
fn test_card_text() {
    assert_eq!(Card::new(Suit::Heart, Value::Ace).to_text(), "Ah");
    assert_eq!(Card::new(Suit::Diamond, Value::Ten).to_text(), "10d");
    assert_eq!(Card::new(Suit::Club, Value::Two).to_text(), "2c");
    assert_eq!(Card::new(Suit::Spade, Value::Queen).to_text(), "Qs");
    assert_eq!(Value::King.to_text(), "K");
    assert_eq!(Value::Nine.to_text(), "9");
    assert_eq!(Suit::Spade.to_text(), "s");
}

#[test]
fn test_value_numbers() {
    assert_eq!(Value::Two.value(), 2);
    assert_eq!(Value::Nine.value(), 9);
    assert_eq!(Value::Ten.value(), 10);
    assert_eq!(Value::Jack.value(), 11);
    assert_eq!(Value::Queen.value(), 12);
    assert_eq!(Value::King.value(), 13);
    assert_eq!(Value::Ace.value(), 14);
    assert_eq!(Value::parse("11"), Err(Error::BadValue("11".to_string())));
    assert_eq!(Value::parse("12"), Err(Error::BadValue("12".to_string())));
    assert_eq!(Value::parse("14"), Err(Error::BadValue("14".to_string())));
    assert_eq!(Value::parse("15"), Err(Error::BadValue("15".to_string())));
    assert_eq!(Value::parse("j"), Ok(Value::Jack));
    assert_eq!(Value::parse("Q"), Ok(Value::Queen));
    assert_eq!(Value::parse("k"), Ok(Value::King));
}
