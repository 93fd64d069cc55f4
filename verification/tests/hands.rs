use poker::card::Card;
use poker::card::Suit;
use poker::card::Value;
use poker::error::Error;
use poker::holdem::HoldemHand;
use poker::holdem::Rank;

#[test]
fn test_tryfrom() {
    let hand = HoldemHand::parse("2c 3c 4c 5c 6c").unwrap();
    assert_eq!(
        hand.cards,
        [
            Card::new(Suit::Club, Value::Six),
            Card::new(Suit::Club, Value::Five),
            Card::new(Suit::Club, Value::Four),
            Card::new(Suit::Club, Value::Three),
            Card::new(Suit::Club, Value::Two)
        ]
    );
    let hand = HoldemHand::parse("2c 3c 4c 5c 6c 7c");
    assert_eq!(
        hand,
        Err(Error::BadCard("invalid number of cards".to_string()))
    );

    let hand = HoldemHand::parse("2k 3c 4c 5c 6c");
    assert_eq!(hand, Err(Error::BadSuit("k".to_string())));
    let hand = HoldemHand::parse("1s 3c 4c 5c 6c");
    assert_eq!(hand, Err(Error::BadValue("1".to_string())));
}

#[test]
fn test_rank() {
    let hand = HoldemHand::parse("As 10s Ks Qs js").unwrap();
    assert_eq!(hand.rank, Rank::RoyalStraightFlush);

    let hand = HoldemHand::parse("2c 3c 4c 5c Ac").unwrap();
    assert_eq!(hand.rank, Rank::StraightFlush(Value::Five));

    let hand = HoldemHand::parse("2s 9c 9s 9d 9h").unwrap();
    assert_eq!(hand.rank, Rank::Bomb(Value::Nine, Value::Two));

    let hand = HoldemHand::parse("2c 2c 3c 3s 2h").unwrap();
    assert_eq!(hand.rank, Rank::FullHouse(Value::Two, Value::Three));

    let hand = HoldemHand::parse("2c 3c qc ac 9c").unwrap();
    assert_eq!(
        hand.rank,
        Rank::Flush(Value::Ace, Value::Queen, Value::Nine, Value::Three, Value::Two)
    );

    let hand = HoldemHand::parse("4c 3h 5d 7s 6s").unwrap();
    assert_eq!(hand.rank, Rank::Straight(Value::Seven));

    let hand = HoldemHand::parse("2c 3h 2d 2s as").unwrap();
    assert_eq!(
        hand.rank,
        Rank::ThreeOfAKind(Value::Two, Value::Ace, Value::Three)
    );

    let hand = HoldemHand::parse("2c 3h ad 3s 2s").unwrap();
    assert_eq!(hand.rank, Rank::TwoPair(Value::Three, Value::Two, Value::Ace));

    let hand = HoldemHand::parse("2c kh ad js 2s").unwrap();
    assert_eq!(
        hand.rank,
        Rank::Pair(Value::Two, Value::Ace, Value::King, Value::Jack)
    );

    let hand = HoldemHand::parse("2c 3h ad ks 10s").unwrap();
    assert_eq!(
        hand.rank,
        Rank::HighCard(Value::Ace, Value::King, Value::Ten, Value::Three, Value::Two)
    );

    //
    let first = HoldemHand::parse("4c 3h 5d 2h 6s").unwrap();
    let second = HoldemHand::parse("4c 3h 5d As 2s").unwrap();
    println!("{:?}", first.rank);
    println!("{:?}", second.rank);
    assert_eq!(first.rank > second.rank, true);
}

#[test]
fn test_rank_order() {
    assert_eq!(
        Rank::HighCard(Value::Ace, Value::King, Value::Ten, Value::Three, Value::Two),
        Rank::HighCard(Value::Ace, Value::King, Value::Ten, Value::Three, Value::Two)
    );
    assert_eq!(
        Rank::HighCard(Value::Ace, Value::King, Value::Jack, Value::Three, Value::Two)
            > Rank::HighCard(Value::Ace, Value::King, Value::Ten, Value::Three, Value::Two),
        true
    );
    assert_eq!(
        Rank::HighCard(Value::Ace, Value::King, Value::Ten, Value::Three, Value::Two)
            < Rank::TwoPair(Value::Two, Value::Ace, Value::King),
        true
    );
    assert_eq!(
        Rank::TwoPair(Value::Two, Value::Ace, Value::King)
            < Rank::TwoPair(Value::Three, Value::Ace, Value::King),
        true
    );
    assert_eq!(Rank::RoyalStraightFlush, Rank::RoyalStraightFlush);
    assert_eq!(Rank::RoyalStraightFlush < Rank::RoyalStraightFlush, false);
    assert_eq!(
        Rank::Bomb(Value::Ace, Value::Two) > Rank::Bomb(Value::King, Value::Queen),
        true
    );
    assert_eq!(
        Rank::Bomb(Value::Ace, Value::Three) > Rank::Bomb(Value::Ace, Value::Two),
        true
    );
    assert_eq!(
        Rank::Bomb(Value::King, Value::Queen) > Rank::RoyalStraightFlush,
        false
    );
    assert_eq!(
        Rank::Bomb(Value::King, Value::Queen) > Rank::FullHouse(Value::Ace, Value::Two),
        true
    );
    assert_eq!(
        Rank::Bomb(Value::King, Value::Queen) < Rank::StraightFlush(Value::Ace),
        true
    );
    assert_eq!(
        Rank::Pair(Value::Ace, Value::King, Value::Queen, Value::Jack)
            > Rank::Pair(Value::Ace, Value::Queen, Value::Jack, Value::Two),
        true
    );
    assert_eq!(
        Rank::Pair(Value::Ace, Value::Queen, Value::Jack, Value::Three)
            > Rank::Pair(Value::Ace, Value::Queen, Value::Jack, Value::Two),
        true
    );
    assert_eq!(
        Rank::Pair(Value::Ace, Value::Queen, Value::Jack, Value::Three),
        Rank::Pair(Value::Ace, Value::Queen, Value::Jack, Value::Three)
    );
    assert_eq!(
        Rank::Straight(Value::Five) < Rank::Straight(Value::Six),
        true
    );
}
