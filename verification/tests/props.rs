use poker::card::Value;
use poker::error::Error;
use poker::holdem::HoldemHand;
use poker::holdem::Rank;
use poker::pack::Pack;

#[test]
fn test_pack() {
    let pack = Pack::default();
    assert_eq!(pack.values.len(), 13);
    assert_eq!(pack.suits.len(), 4);
    assert_eq!(pack.jokers.unwrap().len(), 2);
}

#[test]
fn test_rank_ignores_token_order() {
    // Every permutation of one five-card set classifies alike.
    let tokens = ["2s", "9c", "9s", "9d", "Ah"];
    let expected = HoldemHand::parse("2s 9c 9s 9d Ah").unwrap().rank;
    let mut seen: usize = 0;
    for a in 0..5 {
        for b in 0..5 {
            for c in 0..5 {
                for d in 0..5 {
                    for e in 0..5 {
                        let picks = [a, b, c, d, e];
                        let mut used = [false; 5];
                        let mut distinct = true;
                        for &p in picks.iter() {
                            if used[p] {
                                distinct = false;
                            }
                            used[p] = true;
                        }
                        if !distinct {
                            continue;
                        }
                        let text = format!(
                            "{} {} {} {} {}",
                            tokens[a], tokens[b], tokens[c], tokens[d], tokens[e]
                        );
                        let hand = HoldemHand::parse(&text).unwrap();
                        assert_eq!(hand.rank, expected);
                        seen += 1;
                    }
                }
            }
        }
    }
    assert_eq!(seen, 120);
}

#[test]
fn test_category_order_any_payload() {
    // A greater category beats a lesser one even with the weakest
    // possible tie-break values against the strongest.
    let weakest_of_greater = [
        Rank::Pair(Value::Two, Value::Four, Value::Three, Value::Two),
        Rank::TwoPair(Value::Three, Value::Two, Value::Two),
        Rank::ThreeOfAKind(Value::Two, Value::Three, Value::Two),
        Rank::Straight(Value::Five),
        Rank::Flush(Value::Seven, Value::Five, Value::Four, Value::Three, Value::Two),
        Rank::FullHouse(Value::Two, Value::Three),
        Rank::Bomb(Value::Two, Value::Three),
        Rank::StraightFlush(Value::Five),
        Rank::RoyalStraightFlush,
    ];
    let strongest_of_lesser = [
        Rank::HighCard(Value::Ace, Value::King, Value::Queen, Value::Jack, Value::Nine),
        Rank::Pair(Value::Ace, Value::King, Value::Queen, Value::Jack),
        Rank::TwoPair(Value::Ace, Value::King, Value::Queen),
        Rank::ThreeOfAKind(Value::Ace, Value::King, Value::Queen),
        Rank::Straight(Value::Ace),
        Rank::Flush(Value::Ace, Value::King, Value::Queen, Value::Jack, Value::Nine),
        Rank::FullHouse(Value::Ace, Value::King),
        Rank::Bomb(Value::Ace, Value::King),
        Rank::StraightFlush(Value::King),
    ];
    for i in 0..9 {
        assert!(weakest_of_greater[i] > strongest_of_lesser[i]);
        assert!(strongest_of_lesser[i] < weakest_of_greater[i]);
    }
}

#[test]
fn test_wheel_straight() {
    let wheel = HoldemHand::parse("As 5c 4d 3h 2s").unwrap();
    assert_eq!(wheel.rank, Rank::Straight(Value::Five));
    let six_high = HoldemHand::parse("6c 5h 4d 3s 2c").unwrap();
    assert_eq!(six_high.rank, Rank::Straight(Value::Six));
    assert!(wheel.rank < six_high.rank);
}

#[test]
fn test_scenarios() {
    let hand = HoldemHand::parse("As 10s Ks Qs Js").unwrap();
    assert_eq!(hand.rank, Rank::RoyalStraightFlush);
    let hand = HoldemHand::parse("2c 3c 4c 5c Ac").unwrap();
    assert_eq!(hand.rank, Rank::StraightFlush(Value::Five));
    let hand = HoldemHand::parse("2s 9c 9s 9d 9h").unwrap();
    assert_eq!(hand.rank, Rank::Bomb(Value::Nine, Value::Two));
    let hand = HoldemHand::parse("2c 3h 2d 2s As").unwrap();
    assert_eq!(hand.rank, Rank::ThreeOfAKind(Value::Two, Value::Ace, Value::Three));
    let hand = HoldemHand::parse("2c 3h Ad 3s 2s").unwrap();
    assert_eq!(hand.rank, Rank::TwoPair(Value::Three, Value::Two, Value::Ace));
}

#[test]
fn test_reparse_own_text() {
    // Re-parsing a hand's own rendering yields an equal hand.
    for text in [
        "2c 3c 4c 5c 6c",
        "As 10s Ks Qs Js",
        "2s 9c 9s 9d 9h",
        "2c 3h ad 3s 2s",
        "As 5c 4d 3h 2s",
        "2c kh ad js 2s",
    ] {
        let hand = HoldemHand::parse(text).unwrap();
        let rendered = hand.to_text();
        let again = HoldemHand::parse(&rendered).unwrap();
        assert_eq!(again, hand);
        assert_eq!(again.rank, hand.rank);
    }
}

#[test]
fn test_hand_text() {
    let hand = HoldemHand::parse("2c 3c 4c 5c 6c").unwrap();
    assert_eq!(hand.to_text(), "6c 5c 4c 3c 2c");
    let hand = HoldemHand::parse("As   10s\tKs Qs\n Js").unwrap();
    assert_eq!(hand.to_text(), "As Ks Qs Js 10s");
}

#[test]
fn test_hand_parse_errors() {
    assert_eq!(
        HoldemHand::parse(""),
        Err(Error::BadCard("invalid number of cards".to_string()))
    );
    assert_eq!(
        HoldemHand::parse("   "),
        Err(Error::BadCard("invalid number of cards".to_string()))
    );
    assert_eq!(
        HoldemHand::parse("2c 3c 4c 5c"),
        Err(Error::BadCard("invalid number of cards".to_string()))
    );
    // the first bad token decides
    assert_eq!(
        HoldemHand::parse("2c 300c 4x 5c 6c"),
        Err(Error::BadCard("invalid length".to_string()))
    );
    assert_eq!(
        HoldemHand::parse("2c 4x 300c 5c 6c"),
        Err(Error::BadSuit("x".to_string()))
    );
    assert_eq!(
        HoldemHand::parse("2c 1c 4x 5c 6c"),
        Err(Error::BadValue("1".to_string()))
    );
}

#[test]
fn test_rank_key_values() {
    // The key packs category and tie-break digits base 16.
    assert_eq!(Rank::RoyalStraightFlush.key(), 9 * 0x100000);
    assert_eq!(Rank::Straight(Value::Five).key(), 4 * 0x100000 + 5 * 0x10000);
    assert_eq!(
        Rank::Bomb(Value::Nine, Value::Two).key(),
        7 * 0x100000 + 9 * 0x10000 + 2 * 0x1000
    );
    assert_eq!(
        Rank::HighCard(Value::Ace, Value::King, Value::Ten, Value::Three, Value::Two).key(),
        0xEDA32
    );
}

#[test]
fn test_plus_bounds() {
    assert_eq!(Value::Ace.plus(241), 255);
    assert_eq!(Value::Two.plus(0), 2);
}
