//! Five-card hands and their totally ordered rank.
//!
//! A hand's rank is a category (high card up to royal straight flush)
//! together with exactly the tie-break values needed to order two hands
//! of the same category; categories are ordered as poker orders them, and
//! within a category the tie-break values decide lexicographically, most
//! significant first.

use core::cmp::Ordering;
use vstd::std_specs::cmp::PartialOrdSpec;
use vstd::multiset::Multiset;
use vstd::prelude::*;

use crate::card::Card;
use crate::card::card_text;
use crate::card::lemma_value_int_injective;
use crate::card::Value;
use crate::card::spec_card_error;
use crate::card::spec_parse_card;
use crate::card::value_int;
use crate::error::Error;

verus! {

/// The classification of a five-card hand. Each variant carries its
/// tie-break values in comparison order, most significant first:
/// a pattern's value (pair, triple, quadruple, the higher of two pairs)
/// comes before kickers, and kickers descend.
#[derive(Debug, Clone, Copy, PartialEq, Eq, Structural)]
pub enum Rank {
    /// No pattern: the five card values, descending.
    HighCard(Value, Value, Value, Value, Value),
    /// One pair: its value, then the three kickers, descending.
    Pair(Value, Value, Value, Value),
    /// Two pairs: the higher pair, the lower pair, the kicker.
    TwoPair(Value, Value, Value),
    /// Three of a kind: its value, then the two kickers, descending.
    ThreeOfAKind(Value, Value, Value),
    /// Five consecutive values: the high card of the run (Five for the
    /// wheel A-5-4-3-2, where the ace plays low).
    Straight(Value),
    /// Five cards of one suit: the five values, descending.
    Flush(Value, Value, Value, Value, Value),
    /// Three of a kind and a pair: the triple's value, the pair's value.
    FullHouse(Value, Value),
    /// Four of a kind: its value, then the kicker.
    Bomb(Value, Value),
    /// A straight in one suit: the high card of the run (Five for the
    /// wheel), below Ace since ace-high is the royal straight flush.
    StraightFlush(Value),
    /// A-K-Q-J-10 in one suit. No two such hands differ, so no payload.
    RoyalStraightFlush,
}

/// The category of a rank: 0 for a high card up to 9 for a royal
/// straight flush. A greater category beats every rank of a lesser one.
pub open spec fn category(r: Rank) -> int {
    match r {
        Rank::HighCard(..) => 0,
        Rank::Pair(..) => 1,
        Rank::TwoPair(..) => 2,
        Rank::ThreeOfAKind(..) => 3,
        Rank::Straight(..) => 4,
        Rank::Flush(..) => 5,
        Rank::FullHouse(..) => 6,
        Rank::Bomb(..) => 7,
        Rank::StraightFlush(..) => 8,
        Rank::RoyalStraightFlush => 9,
    }
}

/// The tie-break values of a rank packed into one integer, base 16,
/// most significant tie-break in the highest digit. Each value is a
/// digit 2..14, so digits never interact and comparing the packed
/// integers compares the tie-break values lexicographically.
pub open spec fn payload_key(r: Rank) -> int {
    match r {
        Rank::HighCard(a, b, c, d, e) => value_int(a) * 0x10000 + value_int(b) * 0x1000
            + value_int(c) * 0x100 + value_int(d) * 0x10 + value_int(e),
        Rank::Pair(p, a, b, c) => value_int(p) * 0x10000 + value_int(a) * 0x1000 + value_int(b)
            * 0x100 + value_int(c) * 0x10,
        Rank::TwoPair(p, q, k) => value_int(p) * 0x10000 + value_int(q) * 0x1000 + value_int(k)
            * 0x100,
        Rank::ThreeOfAKind(t, a, b) => value_int(t) * 0x10000 + value_int(a) * 0x1000 + value_int(b) * 0x100,
        Rank::Straight(h) => value_int(h) * 0x10000,
        Rank::Flush(a, b, c, d, e) => value_int(a) * 0x10000 + value_int(b) * 0x1000 + value_int(c)
            * 0x100 + value_int(d) * 0x10 + value_int(e),
        Rank::FullHouse(t, p) => value_int(t) * 0x10000 + value_int(p) * 0x1000,
        Rank::Bomb(q, k) => value_int(q) * 0x10000 + value_int(k) * 0x1000,
        Rank::StraightFlush(h) => value_int(h) * 0x10000,
        Rank::RoyalStraightFlush => 0,
    }
}

/// The total order on ranks, as one integer: the category in the highest
/// position, the packed tie-break values below it. Two ranks compare as
/// their keys compare.
pub open spec fn rank_key(r: Rank) -> int {
    category(r) * 0x100000 + payload_key(r)
}

/// The tie-break digits of any rank stay below the category position, so
/// the category always dominates the comparison.
pub proof fn lemma_payload_key_bounds(r: Rank)
    ensures
        0 <= payload_key(r) < 0x100000,
{
    match r {
        Rank::HighCard(a, b, c, d, e) => {
            lemma_value_int_bounds_5(a, b, c, d, e);
        },
        Rank::Pair(p, a, b, c) => {
            lemma_value_int_bounds_5(p, a, b, c, c);
        },
        Rank::TwoPair(p, q, k) => {
            lemma_value_int_bounds_5(p, q, k, k, k);
        },
        Rank::ThreeOfAKind(t, a, b) => {
            lemma_value_int_bounds_5(t, a, b, b, b);
        },
        Rank::Straight(h) => {
            lemma_value_int_bounds_5(h, h, h, h, h);
        },
        Rank::Flush(a, b, c, d, e) => {
            lemma_value_int_bounds_5(a, b, c, d, e);
        },
        Rank::FullHouse(t, p) => {
            lemma_value_int_bounds_5(t, p, p, p, p);
        },
        Rank::Bomb(q, k) => {
            lemma_value_int_bounds_5(q, k, k, k, k);
        },
        Rank::StraightFlush(h) => {
            lemma_value_int_bounds_5(h, h, h, h, h);
        },
        Rank::RoyalStraightFlush => {},
    }
}

proof fn lemma_value_int_bounds_5(a: Value, b: Value, c: Value, d: Value, e: Value)
    ensures
        2 <= value_int(a) <= 14,
        2 <= value_int(b) <= 14,
        2 <= value_int(c) <= 14,
        2 <= value_int(d) <= 14,
        2 <= value_int(e) <= 14,
{
}

/// Equal keys come only from equal ranks: the key loses no information.
#[verifier::rlimit(60)]
pub proof fn lemma_rank_key_injective(a: Rank, b: Rank)
    ensures
        rank_key(a) == rank_key(b) ==> a == b,
{
    if rank_key(a) == rank_key(b) {
        lemma_payload_key_bounds(a);
        lemma_payload_key_bounds(b);
        assert(category(a) == category(b));
        match (a, b) {
            (Rank::HighCard(a0, a1, a2, a3, a4), Rank::HighCard(b0, b1, b2, b3, b4)) => {
                lemma_value_int_bounds_5(a0, a1, a2, a3, a4);
                lemma_value_int_bounds_5(b0, b1, b2, b3, b4);
                assert(a0 == b0 && a1 == b1 && a2 == b2 && a3 == b3 && a4 == b4) by {
                    lemma_value_int_injective_5(a0, b0, a1, b1, a2, b2, a3, b3, a4, b4);
                };
            },
            (Rank::Pair(a0, a1, a2, a3), Rank::Pair(b0, b1, b2, b3)) => {
                lemma_value_int_bounds_5(a0, a1, a2, a3, a3);
                lemma_value_int_bounds_5(b0, b1, b2, b3, b3);
                assert(a0 == b0 && a1 == b1 && a2 == b2 && a3 == b3) by {
                    lemma_value_int_injective_5(a0, b0, a1, b1, a2, b2, a3, b3, a3, b3);
                };
            },
            (Rank::TwoPair(a0, a1, a2), Rank::TwoPair(b0, b1, b2)) => {
                lemma_value_int_bounds_5(a0, a1, a2, a2, a2);
                lemma_value_int_bounds_5(b0, b1, b2, b2, b2);
                assert(a0 == b0 && a1 == b1 && a2 == b2) by {
                    lemma_value_int_injective_5(a0, b0, a1, b1, a2, b2, a2, b2, a2, b2);
                };
            },
            (Rank::ThreeOfAKind(a0, a1, a2), Rank::ThreeOfAKind(b0, b1, b2)) => {
                lemma_value_int_bounds_5(a0, a1, a2, a2, a2);
                lemma_value_int_bounds_5(b0, b1, b2, b2, b2);
                assert(a0 == b0 && a1 == b1 && a2 == b2) by {
                    lemma_value_int_injective_5(a0, b0, a1, b1, a2, b2, a2, b2, a2, b2);
                };
            },
            (Rank::Straight(a0), Rank::Straight(b0)) => {
                assert(a0 == b0) by {
                    lemma_value_int_injective_5(a0, b0, a0, b0, a0, b0, a0, b0, a0, b0);
                };
            },
            (Rank::Flush(a0, a1, a2, a3, a4), Rank::Flush(b0, b1, b2, b3, b4)) => {
                lemma_value_int_bounds_5(a0, a1, a2, a3, a4);
                lemma_value_int_bounds_5(b0, b1, b2, b3, b4);
                assert(a0 == b0 && a1 == b1 && a2 == b2 && a3 == b3 && a4 == b4) by {
                    lemma_value_int_injective_5(a0, b0, a1, b1, a2, b2, a3, b3, a4, b4);
                };
            },
            (Rank::FullHouse(a0, a1), Rank::FullHouse(b0, b1)) => {
                lemma_value_int_bounds_5(a0, a1, a1, a1, a1);
                lemma_value_int_bounds_5(b0, b1, b1, b1, b1);
                assert(a0 == b0 && a1 == b1) by {
                    lemma_value_int_injective_5(a0, b0, a1, b1, a1, b1, a1, b1, a1, b1);
                };
            },
            (Rank::Bomb(a0, a1), Rank::Bomb(b0, b1)) => {
                lemma_value_int_bounds_5(a0, a1, a1, a1, a1);
                lemma_value_int_bounds_5(b0, b1, b1, b1, b1);
                assert(a0 == b0 && a1 == b1) by {
                    lemma_value_int_injective_5(a0, b0, a1, b1, a1, b1, a1, b1, a1, b1);
                };
            },
            (Rank::StraightFlush(a0), Rank::StraightFlush(b0)) => {
                assert(a0 == b0) by {
                    lemma_value_int_injective_5(a0, b0, a0, b0, a0, b0, a0, b0, a0, b0);
                };
            },
            (Rank::RoyalStraightFlush, Rank::RoyalStraightFlush) => {},
            _ => {
                assert(false);
            },
        }
    }
}

proof fn lemma_value_int_injective_5(
    a0: Value,
    b0: Value,
    a1: Value,
    b1: Value,
    a2: Value,
    b2: Value,
    a3: Value,
    b3: Value,
    a4: Value,
    b4: Value,
)
    requires
        value_int(a0) * 0x10000 + value_int(a1) * 0x1000 + value_int(a2) * 0x100 + value_int(a3)
            * 0x10 + value_int(a4) == value_int(b0) * 0x10000 + value_int(b1) * 0x1000 + value_int(
            b2,
        ) * 0x100 + value_int(b3) * 0x10 + value_int(b4),
    ensures
        a0 == b0 && a1 == b1 && a2 == b2 && a3 == b3 && a4 == b4,
{
    lemma_value_int_bounds_5(a0, a1, a2, a3, a4);
    lemma_value_int_bounds_5(b0, b1, b2, b3, b4);
    assert(value_int(a0) == value_int(b0) && value_int(a1) == value_int(b1) && value_int(a2)
        == value_int(b2) && value_int(a3) == value_int(b3) && value_int(a4) == value_int(b4));
}

impl Rank {
    /// The rank's key as a machine integer: ranks compare as their keys
    /// compare, so two hands' winners are decided by one comparison.
    #[verifier::rlimit(60)]
    pub fn key(&self) -> (k: u32)
        ensures
            k as int == rank_key(*self),
    {
        let cat: u32 = match *self {
            Rank::HighCard(..) => 0,
            Rank::Pair(..) => 1,
            Rank::TwoPair(..) => 2,
            Rank::ThreeOfAKind(..) => 3,
            Rank::Straight(..) => 4,
            Rank::Flush(..) => 5,
            Rank::FullHouse(..) => 6,
            Rank::Bomb(..) => 7,
            Rank::StraightFlush(..) => 8,
            Rank::RoyalStraightFlush => 9,
        };
        let payload: u32 = match *self {
            Rank::HighCard(a, b, c, d, e) => (a.value() as u32) * 0x10000 + (b.value() as u32)
                * 0x1000 + (c.value() as u32) * 0x100 + (d.value() as u32) * 0x10 + (
            e.value() as u32),
            Rank::Pair(p, a, b, c) => (p.value() as u32) * 0x10000 + (a.value() as u32) * 0x1000 + (
            b.value() as u32) * 0x100 + (c.value() as u32) * 0x10,
            Rank::TwoPair(p, q, k) => (p.value() as u32) * 0x10000 + (q.value() as u32) * 0x1000 + (
            k.value() as u32) * 0x100,
            Rank::ThreeOfAKind(t, a, b) => (t.value() as u32) * 0x10000 + (a.value() as u32) * 0x1000 + (
            b.value() as u32) * 0x100,
            Rank::Straight(h) => (h.value() as u32) * 0x10000,
            Rank::Flush(a, b, c, d, e) => (a.value() as u32) * 0x10000 + (b.value() as u32) * 0x1000
                + (c.value() as u32) * 0x100 + (d.value() as u32) * 0x10 + (e.value() as u32),
            Rank::FullHouse(t, p) => (t.value() as u32) * 0x10000 + (p.value() as u32) * 0x1000,
            Rank::Bomb(q, k) => (q.value() as u32) * 0x10000 + (k.value() as u32) * 0x1000,
            Rank::StraightFlush(h) => (h.value() as u32) * 0x10000,
            Rank::RoyalStraightFlush => 0,
        };
        cat * 0x100000 + payload
    }
}

/// The cards' values, in the cards' order.
pub open spec fn card_values(s: Seq<Card>) -> Seq<Value> {
    s.map_values(|c: Card| c.value)
}

/// The cards stand in descending order of value (ties in any order).
pub open spec fn sorted_by_value_desc(s: Seq<Card>) -> bool {
    forall|i: int, j: int|
        0 <= i <= j < s.len() ==> value_int(s[i].value) >= value_int(s[j].value)
}

/// All cards share one suit: a flush.
pub open spec fn all_same_suit(s: Seq<Card>) -> bool {
    forall|i: int| 0 <= i < s.len() ==> (#[trigger] s[i]).suit == s[0].suit
}

/// All cards share one value. Five such cards cannot come from one pack;
/// a hand of them has no rank.
pub open spec fn all_same_value(s: Seq<Card>) -> bool {
    forall|i: int| 0 <= i < s.len() ==> (#[trigger] s[i]).value == s[0].value
}

/// Five values in descending order form a straight: each step down is
/// exactly one, except that an ace may sit above a five (the wheel
/// A-5-4-3-2, where the ace plays low).
pub open spec fn is_straight(vs: Seq<Value>) -> bool
    recommends
        vs.len() == 5,
{
    forall|i: int|
        0 <= i < 4 ==> (value_int(vs[i + 1]) + 1 == value_int(#[trigger] vs[i]) || (vs[i]
            == Value::Ace && vs[i + 1] == Value::Five))
}

/// The rank of five values in descending order (not all equal) together
/// with whether the cards are a flush.
///
/// Because the values descend, equal values are adjacent, so the four
/// adjacent equalities determine the duplicate groups: none means five
/// distinct values (a straight, flush or high card), one marks a pair,
/// two mark a triple or two pairs, three mark a quadruple or a full
/// house. The high card of a straight is the first value, except that
/// the wheel counts as five-high.
pub open spec fn spec_rank(vs: Seq<Value>, flush: bool) -> Rank
    recommends
        vs.len() == 5,
{
    let e01 = vs[0] == vs[1];
    let e12 = vs[1] == vs[2];
    let e23 = vs[2] == vs[3];
    let e34 = vs[3] == vs[4];
    if !e01 && !e12 && !e23 && !e34 {
        if is_straight(vs) {
            if flush && vs[1] == Value::King {
                Rank::RoyalStraightFlush
            } else {
                let hi = if vs[0] == Value::Ace && vs[1] == Value::Five {
                    Value::Five
                } else {
                    vs[0]
                };
                if flush {
                    Rank::StraightFlush(hi)
                } else {
                    Rank::Straight(hi)
                }
            }
        } else if flush {
            Rank::Flush(vs[0], vs[1], vs[2], vs[3], vs[4])
        } else {
            Rank::HighCard(vs[0], vs[1], vs[2], vs[3], vs[4])
        }
    } else if e01 && !e12 && !e23 && !e34 {
        Rank::Pair(vs[0], vs[2], vs[3], vs[4])
    } else if !e01 && e12 && !e23 && !e34 {
        Rank::Pair(vs[1], vs[0], vs[3], vs[4])
    } else if !e01 && !e12 && e23 && !e34 {
        Rank::Pair(vs[2], vs[0], vs[1], vs[4])
    } else if !e01 && !e12 && !e23 && e34 {
        Rank::Pair(vs[3], vs[0], vs[1], vs[2])
    } else if e01 && e12 && !e23 && !e34 {
        Rank::ThreeOfAKind(vs[0], vs[3], vs[4])
    } else if !e01 && e12 && e23 && !e34 {
        Rank::ThreeOfAKind(vs[1], vs[0], vs[4])
    } else if !e01 && !e12 && e23 && e34 {
        Rank::ThreeOfAKind(vs[2], vs[0], vs[1])
    } else if e01 && !e12 && e23 && !e34 {
        Rank::TwoPair(vs[0], vs[2], vs[4])
    } else if e01 && !e12 && !e23 && e34 {
        Rank::TwoPair(vs[0], vs[3], vs[2])
    } else if !e01 && e12 && !e23 && e34 {
        Rank::TwoPair(vs[1], vs[3], vs[0])
    } else if e01 && e12 && e23 && !e34 {
        Rank::Bomb(vs[0], vs[4])
    } else if !e01 && e12 && e23 && e34 {
        Rank::Bomb(vs[1], vs[0])
    } else if e01 && e12 && !e23 && e34 {
        Rank::FullHouse(vs[0], vs[3])
    } else if e01 && !e12 && e23 && e34 {
        Rank::FullHouse(vs[2], vs[0])
    } else {
        Rank::HighCard(vs[0], vs[1], vs[2], vs[3], vs[4])
    }
}

/// How often `x` stands among five values, index by index.
spec fn count_in_5(vs: Seq<Value>, x: Value) -> int
    recommends
        vs.len() == 5,
{
    (if vs[0] == x { 1int } else { 0int }) + (if vs[1] == x { 1int } else { 0int }) + (if vs[2]
        == x { 1int } else { 0int }) + (if vs[3] == x { 1int } else { 0int }) + (if vs[4] == x {
        1int
    } else {
        0int
    })
}

/// The multiset of five values counts each value as often as it stands
/// among the five.
proof fn lemma_counts_of_five(vs: Seq<Value>)
    requires
        vs.len() == 5,
    ensures
        forall|x: Value| #[trigger] vs.to_multiset().count(x) == count_in_5(vs, x),
{
    broadcast use vstd::seq_lib::group_to_multiset_ensures;
    broadcast use vstd::multiset::group_multiset_axioms;

    assert(vs =~= Seq::<Value>::empty().push(vs[0]).push(vs[1]).push(vs[2]).push(vs[3]).push(
        vs[4],
    ));
    assert(Seq::<Value>::empty().to_multiset() =~= Multiset::<Value>::empty());
}

/// A bomb really is four of a kind: whenever five values classify as
/// `Bomb(q, k)`, `q` occurs four times among them and the kicker `k`,
/// a different value, once.
pub proof fn lemma_bomb_counts(vs: Seq<Value>, flush: bool, q: Value, k: Value)
    requires
        vs.len() == 5,
        spec_rank(vs, flush) == Rank::Bomb(q, k),
    ensures
        q != k,
        vs.to_multiset().count(q) == 4,
        vs.to_multiset().count(k) == 1,
{
    lemma_counts_of_five(vs);
}

/// A full house really is a triple over a pair: whenever five values
/// classify as `FullHouse(t, p)`, `t` occurs three times among them and
/// the different value `p` twice.
pub proof fn lemma_full_house_counts(vs: Seq<Value>, flush: bool, t: Value, p: Value)
    requires
        vs.len() == 5,
        spec_rank(vs, flush) == Rank::FullHouse(t, p),
    ensures
        t != p,
        vs.to_multiset().count(t) == 3,
        vs.to_multiset().count(p) == 2,
{
    lemma_counts_of_five(vs);
}

/// The values stand in descending order (ties adjacent).
pub open spec fn values_desc(vs: Seq<Value>) -> bool {
    forall|i: int, j: int| 0 <= i <= j < vs.len() ==> value_int(vs[i]) >= value_int(vs[j])
}

/// Three of a kind really is a triple and two kickers: whenever five
/// descending values classify as `ThreeOfAKind(t, a, b)`, `t` occurs
/// three times among them and the kickers `a` and `b` once each, with
/// `a` above `b` and neither equal to `t`.
#[verifier::rlimit(60)]
pub proof fn lemma_three_of_a_kind_counts(vs: Seq<Value>, flush: bool, t: Value, a: Value, b: Value)
    requires
        vs.len() == 5,
        values_desc(vs),
        spec_rank(vs, flush) == Rank::ThreeOfAKind(t, a, b),
    ensures
        t != a && t != b && a != b,
        value_int(a) > value_int(b),
        vs.to_multiset().count(t) == 3,
        vs.to_multiset().count(a) == 1,
        vs.to_multiset().count(b) == 1,
{
    lemma_counts_of_five(vs);
    let e01 = vs[0] == vs[1];
    let e12 = vs[1] == vs[2];
    let e23 = vs[2] == vs[3];
    let e34 = vs[3] == vs[4];
    if e01 && e12 && !e23 && !e34 {
        lemma_value_int_injective(vs[2], vs[3]);
        lemma_value_int_injective(vs[3], vs[4]);
        assert(value_int(vs[2]) > value_int(vs[3]) > value_int(vs[4]));
    } else if !e01 && e12 && e23 && !e34 {
        lemma_value_int_injective(vs[0], vs[1]);
        lemma_value_int_injective(vs[3], vs[4]);
        assert(value_int(vs[0]) > value_int(vs[1]) && value_int(vs[3]) > value_int(vs[4]));
    } else if !e01 && !e12 && e23 && e34 {
        lemma_value_int_injective(vs[0], vs[1]);
        lemma_value_int_injective(vs[1], vs[2]);
        assert(value_int(vs[0]) > value_int(vs[1]) > value_int(vs[2]));
    } else {
        assert(false);
    }
}

/// Two pairs really are two pairs and a kicker: whenever five descending
/// values classify as `TwoPair(p, q, k)`, the pair values `p` and `q`
/// occur twice each, `p` above `q`, and the kicker `k`, equal to
/// neither, once.
#[verifier::rlimit(60)]
pub proof fn lemma_two_pair_counts(vs: Seq<Value>, flush: bool, p: Value, q: Value, k: Value)
    requires
        vs.len() == 5,
        values_desc(vs),
        spec_rank(vs, flush) == Rank::TwoPair(p, q, k),
    ensures
        p != q && p != k && q != k,
        value_int(p) > value_int(q),
        vs.to_multiset().count(p) == 2,
        vs.to_multiset().count(q) == 2,
        vs.to_multiset().count(k) == 1,
{
    lemma_counts_of_five(vs);
    let e01 = vs[0] == vs[1];
    let e12 = vs[1] == vs[2];
    let e23 = vs[2] == vs[3];
    let e34 = vs[3] == vs[4];
    if e01 && !e12 && e23 && !e34 {
        lemma_value_int_injective(vs[1], vs[2]);
        lemma_value_int_injective(vs[3], vs[4]);
        assert(value_int(vs[1]) > value_int(vs[2]) && value_int(vs[3]) > value_int(vs[4]));
    } else if e01 && !e12 && !e23 && e34 {
        lemma_value_int_injective(vs[1], vs[2]);
        lemma_value_int_injective(vs[2], vs[3]);
        assert(value_int(vs[1]) > value_int(vs[2]) > value_int(vs[3]));
    } else if !e01 && e12 && !e23 && e34 {
        lemma_value_int_injective(vs[0], vs[1]);
        lemma_value_int_injective(vs[2], vs[3]);
        assert(value_int(vs[0]) > value_int(vs[1]) && value_int(vs[2]) > value_int(vs[3]));
    } else {
        assert(false);
    }
}

/// A pair really is one pair and three kickers: whenever five descending
/// values classify as `Pair(p, a, b, c)`, the pair value `p` occurs
/// twice and the kickers `a`, `b`, `c` once each, descending, none equal
/// to `p`.
#[verifier::rlimit(60)]
pub proof fn lemma_pair_counts(vs: Seq<Value>, flush: bool, p: Value, a: Value, b: Value, c: Value)
    requires
        vs.len() == 5,
        values_desc(vs),
        spec_rank(vs, flush) == Rank::Pair(p, a, b, c),
    ensures
        p != a && p != b && p != c && a != b && a != c && b != c,
        value_int(a) > value_int(b) > value_int(c),
        vs.to_multiset().count(p) == 2,
        vs.to_multiset().count(a) == 1,
        vs.to_multiset().count(b) == 1,
        vs.to_multiset().count(c) == 1,
{
    lemma_counts_of_five(vs);
    let e01 = vs[0] == vs[1];
    let e12 = vs[1] == vs[2];
    let e23 = vs[2] == vs[3];
    let e34 = vs[3] == vs[4];
    if e01 && !e12 && !e23 && !e34 {
        lemma_value_int_injective(vs[1], vs[2]);
        lemma_value_int_injective(vs[2], vs[3]);
        lemma_value_int_injective(vs[3], vs[4]);
        assert(value_int(vs[1]) > value_int(vs[2]) > value_int(vs[3]) > value_int(vs[4]));
    } else if !e01 && e12 && !e23 && !e34 {
        lemma_value_int_injective(vs[0], vs[1]);
        lemma_value_int_injective(vs[2], vs[3]);
        lemma_value_int_injective(vs[3], vs[4]);
        assert(value_int(vs[0]) > value_int(vs[1]) && value_int(vs[2]) > value_int(vs[3])
            > value_int(vs[4]));
    } else if !e01 && !e12 && e23 && !e34 {
        lemma_value_int_injective(vs[0], vs[1]);
        lemma_value_int_injective(vs[1], vs[2]);
        lemma_value_int_injective(vs[3], vs[4]);
        assert(value_int(vs[0]) > value_int(vs[1]) > value_int(vs[2]) && value_int(vs[3])
            > value_int(vs[4]));
    } else if !e01 && !e12 && !e23 && e34 {
        lemma_value_int_injective(vs[0], vs[1]);
        lemma_value_int_injective(vs[1], vs[2]);
        lemma_value_int_injective(vs[2], vs[3]);
        assert(value_int(vs[0]) > value_int(vs[1]) > value_int(vs[2]) > value_int(vs[3]));
    } else {
        assert(false);
    }
}

/// Classifies five cards that stand in descending order of value and are
/// not all of one value.
#[verifier::rlimit(100)]
pub fn rank_of(cards: &[Card; 5]) -> (r: Rank)
    requires
        sorted_by_value_desc(cards@),
        !all_same_value(cards@),
    ensures
        r == spec_rank(card_values(cards@), all_same_suit(cards@)),
{
    let c0 = cards[0];
    let c1 = cards[1];
    let c2 = cards[2];
    let c3 = cards[3];
    let c4 = cards[4];
    let ghost vs = card_values(cards@);
    proof {
        assert(vs[0] == c0.value && vs[1] == c1.value && vs[2] == c2.value && vs[3] == c3.value
            && vs[4] == c4.value);
    }
    let flush = c0.suit == c1.suit && c1.suit == c2.suit && c2.suit == c3.suit && c3.suit
        == c4.suit;
    proof {
        assert(flush == all_same_suit(cards@)) by {
            if flush {
                assert forall|i: int| 0 <= i < 5 implies (#[trigger] cards@[i]).suit == cards@[0].suit by {}
            }
        };
    }
    let straight = (c1.value.value() + 1 == c0.value.value() || (c0.value == Value::Ace && c1.value
        == Value::Five)) && (c2.value.value() + 1 == c1.value.value() || (c1.value == Value::Ace
        && c2.value == Value::Five)) && (c3.value.value() + 1 == c2.value.value() || (c2.value
        == Value::Ace && c3.value == Value::Five)) && (c4.value.value() + 1 == c3.value.value() || (
    c3.value == Value::Ace && c4.value == Value::Five));
    proof {
        assert(straight == is_straight(vs));
    }
    let e01 = c0.value == c1.value;
    let e12 = c1.value == c2.value;
    let e23 = c2.value == c3.value;
    let e34 = c3.value == c4.value;
    if !e01 && !e12 && !e23 && !e34 {
        if straight {
            if flush && c1.value == Value::King {
                Rank::RoyalStraightFlush
            } else {
                let hi = if c0.value == Value::Ace && c1.value == Value::Five {
                    Value::Five
                } else {
                    c0.value
                };
                if flush {
                    Rank::StraightFlush(hi)
                } else {
                    Rank::Straight(hi)
                }
            }
        } else if flush {
            Rank::Flush(c0.value, c1.value, c2.value, c3.value, c4.value)
        } else {
            Rank::HighCard(c0.value, c1.value, c2.value, c3.value, c4.value)
        }
    } else if e01 && !e12 && !e23 && !e34 {
        Rank::Pair(c0.value, c2.value, c3.value, c4.value)
    } else if !e01 && e12 && !e23 && !e34 {
        Rank::Pair(c1.value, c0.value, c3.value, c4.value)
    } else if !e01 && !e12 && e23 && !e34 {
        Rank::Pair(c2.value, c0.value, c1.value, c4.value)
    } else if !e01 && !e12 && !e23 && e34 {
        Rank::Pair(c3.value, c0.value, c1.value, c2.value)
    } else if e01 && e12 && !e23 && !e34 {
        Rank::ThreeOfAKind(c0.value, c3.value, c4.value)
    } else if !e01 && e12 && e23 && !e34 {
        Rank::ThreeOfAKind(c1.value, c0.value, c4.value)
    } else if !e01 && !e12 && e23 && e34 {
        Rank::ThreeOfAKind(c2.value, c0.value, c1.value)
    } else if e01 && !e12 && e23 && !e34 {
        Rank::TwoPair(c0.value, c2.value, c4.value)
    } else if e01 && !e12 && !e23 && e34 {
        Rank::TwoPair(c0.value, c3.value, c2.value)
    } else if !e01 && e12 && !e23 && e34 {
        Rank::TwoPair(c1.value, c3.value, c0.value)
    } else if e01 && e12 && e23 && !e34 {
        Rank::Bomb(c0.value, c4.value)
    } else if !e01 && e12 && e23 && e34 {
        Rank::Bomb(c1.value, c0.value)
    } else if e01 && e12 && !e23 && e34 {
        Rank::FullHouse(c0.value, c3.value)
    } else if e01 && !e12 && e23 && e34 {
        Rank::FullHouse(c2.value, c0.value)
    } else {
        proof {
            assert(cards@[0].value == cards@[1].value && cards@[1].value == cards@[2].value
                && cards@[2].value == cards@[3].value && cards@[3].value == cards@[4].value);
            assert(forall|i: int| 0 <= i < 5 ==> (#[trigger] cards@[i]).value == cards@[0].value);
            assert(false);
        }
        Rank::HighCard(c0.value, c1.value, c2.value, c3.value, c4.value)
    }
}

/// Inserts a card into a descending-by-value vector, keeping the order.
fn sorted_insert(out: &mut Vec<Card>, c: Card)
    requires
        sorted_by_value_desc(old(out)@),
    ensures
        final(out)@.len() == old(out)@.len() + 1,
        sorted_by_value_desc(final(out)@),
        final(out)@.to_multiset() == old(out)@.to_multiset().insert(c),
{
    let mut i: usize = 0;
    while i < out.len() && out[i].value.value() >= c.value.value()
        invariant
            i <= out@.len(),
            out@ == old(out)@,
            forall|k: int|
                0 <= k < i ==> value_int((#[trigger] out@[k]).value) >= value_int(c.value),
        decreases out@.len() - i,
    {
        i = i + 1;
    }
    let ghost pre = out@;
    out.insert(i, c);
    proof {
        pre.insert_ensures(i as int, c);
        vstd::seq_lib::to_multiset_insert(pre, i as int, c);
        assert forall|p: int, q: int|
            0 <= p <= q < out@.len() implies value_int(out@[p].value) >= value_int(
            out@[q].value,
        ) by {
            if q > i {
                assert(out@[q] == pre[q - 1]);
                assert(value_int(pre[i as int].value) >= value_int(pre[q - 1].value));
            }
            if p > i {
                assert(out@[p] == pre[p - 1]);
            }
        };
    }
}

/// Exactly five cards, held in descending order of value, together with
/// their rank, fixed at construction.
#[derive(Debug, Clone, Copy, PartialEq, Eq)]
pub struct HoldemHand {
    pub cards: [Card; 5],
    pub rank: Rank,
}

impl HoldemHand {
    /// What construction establishes and every operation preserves: the
    /// cards descend by value, they are not all of one value, and the
    /// stored rank is the rank of those cards.
    pub open spec fn wf(self) -> bool {
        &&& sorted_by_value_desc(self.cards@)
        &&& !all_same_value(self.cards@)
        &&& self.rank == spec_rank(card_values(self.cards@), all_same_suit(self.cards@))
    }

    /// Builds a hand from five cards, in any order: the hand holds the
    /// same cards, sorted descending by value, and their rank.
    ///
    /// Five cards of one value have no rank and are ruled out; no pack
    /// deals them.
    pub fn new(cards: [Card; 5]) -> (h: HoldemHand)
        requires
            !all_same_value(cards@),
        ensures
            h.wf(),
            h.cards@.to_multiset() == cards@.to_multiset(),
    {
        broadcast use vstd::seq_lib::group_to_multiset_ensures;

        let mut v: Vec<Card> = Vec::new();
        sorted_insert(&mut v, cards[0]);
        sorted_insert(&mut v, cards[1]);
        sorted_insert(&mut v, cards[2]);
        sorted_insert(&mut v, cards[3]);
        sorted_insert(&mut v, cards[4]);
        let sorted: [Card; 5] = [v[0], v[1], v[2], v[3], v[4]];
        proof {
            assert(sorted@ =~= v@);
            assert(Seq::<Card>::empty().to_multiset() =~= Multiset::<Card>::empty());
            assert(cards@ =~= Seq::<Card>::empty().push(cards@[0]).push(cards@[1]).push(
                cards@[2],
            ).push(cards@[3]).push(cards@[4]));
            assert(sorted@.to_multiset() =~= cards@.to_multiset());
            assert(!all_same_value(sorted@)) by {
                if all_same_value(sorted@) {
                    assert forall|j: int| 0 <= j < 5 implies (#[trigger] cards@[j]).value
                        == cards@[0].value by {
                        lemma_card_carries_over(cards@, sorted@, j);
                        lemma_card_carries_over(cards@, sorted@, 0);
                    }
                }
            };
        }
        let rank = rank_of(&sorted);
        HoldemHand { cards: sorted, rank }
    }
}

/// The cards the tokens denote, where every token denotes one.
pub open spec fn spec_parse_cards(ts: Seq<Seq<char>>) -> Seq<Card> {
    ts.map_values(|t: Seq<char>| spec_parse_card(t).unwrap())
}

/// Every token denotes a card.
pub open spec fn all_tokens_parse(ts: Seq<Seq<char>>) -> bool {
    forall|i: int| 0 <= i < ts.len() ==> spec_parse_card(#[trigger] ts[i]) is Some
}

/// Text that reads as five cards of one value. Such a hand has no rank,
/// and `HoldemHand::parse` does not take it; no pack deals five cards of
/// one value.
pub open spec fn degenerate_hand_text(s: Seq<char>) -> bool {
    let ts = crate::text::split_ws(s);
    all_tokens_parse(ts) && ts.len() == 5 && all_same_value(spec_parse_cards(ts))
}

impl HoldemHand {
    /// Parses a hand: whitespace-separated card tokens, exactly five.
    ///
    /// The first token that denotes no card decides: its error is
    /// returned and nothing further is examined. With every token a
    /// card, any count other than five is `BadCard("invalid number of
    /// cards")`. Otherwise the hand holds exactly the five denoted
    /// cards and their rank. Text reading as five cards of one value is
    /// ruled out beforehand (see `degenerate_hand_text`): such a hand
    /// has no rank, and no pack deals one.
    pub fn parse(s: &str) -> (r: Result<HoldemHand, Error>)
        requires
            !degenerate_hand_text(s@),
        ensures
            ({
                let ts = crate::text::split_ws(s@);
                if !all_tokens_parse(ts) {
                    r matches Err(e) && exists|i: int|
                        0 <= i < ts.len() && spec_parse_card(#[trigger] ts[i]) is None && (
                        forall|j: int| 0 <= j < i ==> spec_parse_card(#[trigger] ts[j]) is Some)
                            && spec_card_error(ts[i], e)
                } else if ts.len() != 5 {
                    r matches Err(e) && e matches Error::BadCard(m) && m@
                        == "invalid number of cards"@
                } else {
                    r matches Ok(h) && h.wf() && h.cards@.to_multiset() == spec_parse_cards(
                        ts,
                    ).to_multiset()
                }
            }),
    {
        let ghost ts = crate::text::split_ws(s@);
        let n = s.unicode_len();
        let mut cards: Vec<Card> = Vec::new();
        let mut i: usize = 0;
        proof {
            assert(s@.skip(0) =~= s@);
            assert(ts.take(0) + crate::text::split_ws(s@) =~= ts);
        }
        while i < n
            invariant
                n == s@.len(),
                i <= n,
                ts == crate::text::split_ws(s@),
                cards@.len() <= ts.len(),
                ts =~= ts.take(cards@.len() as int) + crate::text::split_ws(s@.skip(i as int)),
                forall|j: int|
                    0 <= j < cards@.len() ==> spec_parse_card(#[trigger] ts[j]) == Some(cards@[j]),
            decreases n - i,
        {
            let ghost k = cards@.len() as int;
            let c = s.get_char(i);
            if crate::text::is_ws(c) {
                proof {
                    assert(s@.skip(i as int).drop_first() =~= s@.skip(i as int + 1));
                }
                i = i + 1;
            } else {
                let mut j = i + 1;
                while j < n && !crate::text::is_ws(s.get_char(j))
                    invariant
                        i < j <= n,
                        n == s@.len(),
                        forall|k2: int| i <= k2 < j ==> !crate::text::is_ws_char(#[trigger] s@[k2]),
                    decreases n - j,
                {
                    j = j + 1;
                }
                let tok = s.substring_char(i, j);
                proof {
                    let rem = s@.skip(i as int);
                    assert(forall|k2: int|
                        0 <= k2 < j - i ==> !crate::text::is_ws_char(#[trigger] rem[k2]));
                    crate::text::lemma_split_ws_token(rem, j - i);
                    assert(rem.take(j - i) =~= s@.subrange(i as int, j as int));
                    assert(rem.skip(j - i) =~= s@.skip(j as int));
                    assert(crate::text::split_ws(rem) =~= seq![tok@] + crate::text::split_ws(
                        s@.skip(j as int),
                    ));
                    assert(ts.len() >= k + 1);
                    assert(ts[k] == tok@);
                }
                match Card::parse(tok) {
                    Ok(card) => {
                        cards.push(card);
                        proof {
                            assert(ts.take(k + 1) =~= ts.take(k).push(ts[k]));
                            assert(ts =~= ts.take(k + 1) + crate::text::split_ws(
                                s@.skip(j as int),
                            ));
                        }
                        i = j;
                    },
                    Err(e) => {
                        proof {
                            assert(spec_parse_card(ts[k]) is None);
                            assert(spec_card_error(ts[k], e));
                        }
                        return Err(e);
                    },
                }
            }
        }
        proof {
            assert(s@.skip(n as int) =~= Seq::<char>::empty());
            assert(ts =~= ts.take(cards@.len() as int));
            assert(cards@.len() == ts.len());
            assert(all_tokens_parse(ts));
        }
        if cards.len() != 5 {
            return Err(Error::BadCard(String::from_str("invalid number of cards")));
        }
        let arr: [Card; 5] = [cards[0], cards[1], cards[2], cards[3], cards[4]];
        proof {
            assert(arr@ =~= cards@);
            assert(spec_parse_cards(ts) =~= cards@);
            assert(!all_same_value(arr@));
        }
        let h = HoldemHand::new(arr);
        Ok(h)
    }
}

/// A card standing at index `j` of `s` also stands somewhere in `t` when
/// the two sequences hold the same cards, and under one value throughout
/// `t` its value is `t[0]`'s.
proof fn lemma_card_carries_over(s: Seq<Card>, t: Seq<Card>, j: int)
    requires
        0 <= j < s.len(),
        s.to_multiset() == t.to_multiset(),
        all_same_value(t),
        t.len() > 0,
    ensures
        s[j].value == t[0].value,
{
    broadcast use vstd::seq_lib::group_to_multiset_ensures;

    assert(s.contains(s[j]));
    assert(t.to_multiset().count(s[j]) > 0);
    assert(t.contains(s[j]));
    let k = choose|k: int| 0 <= k < t.len() && t[k] == s[j];
    assert(t[k].value == t[0].value);
}

/// The canonical text of a card sequence: the cards' texts in order,
/// single spaces between them.
pub open spec fn hand_text(s: Seq<Card>) -> Seq<char> {
    crate::text::join_tokens(s.map_values(|c: Card| card_text(c)))
}

/// Five cards' text, written out: the five tokens with spaces between.
proof fn lemma_hand_text_unfold(s: Seq<Card>)
    requires
        s.len() == 5,
    ensures
        hand_text(s) =~= card_text(s[0]) + seq![' '] + (card_text(s[1]) + seq![' '] + (card_text(
            s[2],
        ) + seq![' '] + (card_text(s[3]) + seq![' '] + card_text(s[4])))),
{
    let m = s.map_values(|c: Card| card_text(c));
    let m1 = m.drop_first();
    let m2 = m1.drop_first();
    let m3 = m2.drop_first();
    let m4 = m3.drop_first();
    assert(m.len() == 5 && m1.len() == 4 && m2.len() == 3 && m3.len() == 2 && m4.len() == 1);
    assert(m1[0] == m[1] && m2[0] == m[2] && m3[0] == m[3] && m4[0] == m[4]);
    assert(crate::text::join_tokens(m4) =~= m[4]);
    assert(crate::text::join_tokens(m3) =~= m[3] + seq![' '] + m[4]);
    assert(crate::text::join_tokens(m2) =~= m[2] + seq![' '] + (m[3] + seq![' '] + m[4]));
    assert(crate::text::join_tokens(m1) =~= m[1] + seq![' '] + (m[2] + seq![' '] + (m[3]
        + seq![' '] + m[4])));
    assert(hand_text(s) =~= m[0] + seq![' '] + (m[1] + seq![' '] + (m[2] + seq![' '] + (m[3]
        + seq![' '] + m[4]))));
}

impl HoldemHand {
    /// Renders the hand: its five cards' texts, space-separated, in the
    /// hand's descending order.
    #[verifier::rlimit(100)]
    pub fn to_text(&self) -> (r: String)
        ensures
            r@ =~= hand_text(self.cards@),
    {
        let mut out = self.cards[0].to_text();
        out.append(" ");
        let t1 = self.cards[1].to_text();
        out.append(t1.as_str());
        out.append(" ");
        let t2 = self.cards[2].to_text();
        out.append(t2.as_str());
        out.append(" ");
        let t3 = self.cards[3].to_text();
        out.append(t3.as_str());
        out.append(" ");
        let t4 = self.cards[4].to_text();
        out.append(t4.as_str());
        proof {
            reveal_strlit(" ");
            assert(" "@ =~= seq![' ']);
            lemma_hand_text_unfold(self.cards@);
            assert(out@ =~= card_text(self.cards@[0]) + seq![' '] + (card_text(self.cards@[1])
                + seq![' '] + (card_text(self.cards@[2]) + seq![' '] + (card_text(
                self.cards@[3],
            ) + seq![' '] + card_text(self.cards@[4])))));
        }
        out
    }
}

/// A card standing in `s` also stands in `t` when the two sequences hold
/// the same cards.
proof fn lemma_multiset_elem(s: Seq<Card>, t: Seq<Card>, j: int)
    requires
        0 <= j < s.len(),
        s.to_multiset() == t.to_multiset(),
    ensures
        t.contains(s[j]),
{
    broadcast use vstd::seq_lib::group_to_multiset_ensures;

    assert(s.contains(s[j]));
    assert(t.to_multiset().count(s[j]) > 0);
}

/// Sequences holding the same cards hold the same values, as multisets.
proof fn lemma_card_values_multiset(s: Seq<Card>, t: Seq<Card>)
    requires
        s.to_multiset() == t.to_multiset(),
    ensures
        card_values(s).to_multiset() == card_values(t).to_multiset(),
    decreases s.len(),
{
    broadcast use vstd::seq_lib::group_to_multiset_ensures;

    if s.len() == 0 {
        assert(s.to_multiset().len() == s.len());
        assert(t.to_multiset().len() == t.len());
        assert(t.len() == 0);
        assert(card_values(s) =~= Seq::<Value>::empty());
        assert(card_values(t) =~= Seq::<Value>::empty());
    } else {
        let x = s[0];
        lemma_multiset_elem(s, t, 0);
        let k = choose|k: int| 0 <= k < t.len() && t[k] == x;
        assert(s.remove(0).to_multiset() =~= s.to_multiset().remove(x));
        assert(t.remove(k).to_multiset() =~= t.to_multiset().remove(x));
        lemma_card_values_multiset(s.remove(0), t.remove(k));
        assert(card_values(s.remove(0)) =~= card_values(s).remove(0));
        assert(card_values(t.remove(k)) =~= card_values(t).remove(k));
        assert(card_values(s).remove(0).to_multiset() =~= card_values(s).to_multiset().remove(
            x.value,
        ));
        assert(card_values(t).remove(k).to_multiset() =~= card_values(t).to_multiset().remove(
            x.value,
        ));
        assert(card_values(s).to_multiset().contains(x.value)) by {
            assert(card_values(s)[0] == x.value);
            assert(card_values(s).contains(x.value));
        };
        assert(card_values(t).to_multiset().contains(x.value)) by {
            assert(card_values(t)[k] == x.value);
            assert(card_values(t).contains(x.value));
        };
        assert(card_values(s).to_multiset() =~= card_values(s).to_multiset().remove(
            x.value,
        ).insert(x.value));
        assert(card_values(t).to_multiset() =~= card_values(t).to_multiset().remove(
            x.value,
        ).insert(x.value));
    }
}

/// Every card of `t` wears the one suit the cards of `s` wear, when the
/// two sequences hold the same cards.
proof fn lemma_suit_carries_over(s: Seq<Card>, t: Seq<Card>, j: int)
    requires
        0 <= j < t.len(),
        s.len() > 0,
        s.to_multiset() == t.to_multiset(),
        all_same_suit(s),
    ensures
        t[j].suit == s[0].suit,
{
    lemma_multiset_elem(t, s, j);
    let k = choose|k: int| 0 <= k < s.len() && s[k] == t[j];
    assert(s[k].suit == s[0].suit);
}

/// However five cards are permuted, they classify alike: two well-formed
/// hands holding the same cards carry the same rank, whatever order the
/// cards arrived in.
#[verifier::rlimit(100)]
pub proof fn lemma_rank_permutation(h1: HoldemHand, h2: HoldemHand)
    requires
        h1.wf(),
        h2.wf(),
        h1.cards@.to_multiset() == h2.cards@.to_multiset(),
    ensures
        h1.rank == h2.rank,
{
    broadcast use vstd::seq_lib::group_to_multiset_ensures;

    let s1 = h1.cards@;
    let s2 = h2.cards@;
    let v1 = card_values(s1);
    let v2 = card_values(s2);
    assert(s1.len() == 5 && s2.len() == 5);
    lemma_card_values_multiset(s1, s2);
    let leq = |a: Value, b: Value| value_int(a) >= value_int(b);
    assert(vstd::relations::total_ordering(leq)) by {
        assert(vstd::relations::reflexive(leq));
        assert(vstd::relations::transitive(leq));
        assert(vstd::relations::antisymmetric(leq)) by {
            assert forall|a: Value, b: Value| #[trigger] leq(a, b) && #[trigger] leq(b, a) implies a
                == b by {
                assert(value_int(a) == value_int(b));
            };
        };
        assert(vstd::relations::strongly_connected(leq));
    };
    assert(vstd::relations::sorted_by(v1, leq));
    assert(vstd::relations::sorted_by(v2, leq));
    vstd::seq_lib::lemma_sorted_unique(v1, v2, leq);
    assert(v1 == v2);
    assert(all_same_suit(s1) == all_same_suit(s2)) by {
        if all_same_suit(s1) {
            assert forall|i: int| 0 <= i < s2.len() implies (#[trigger] s2[i]).suit
                == s2[0].suit by {
                lemma_suit_carries_over(s1, s2, i);
                lemma_suit_carries_over(s1, s2, 0);
            };
        }
        if all_same_suit(s2) {
            assert forall|i: int| 0 <= i < s1.len() implies (#[trigger] s1[i]).suit
                == s1[0].suit by {
                lemma_suit_carries_over(s2, s1, i);
                lemma_suit_carries_over(s2, s1, 0);
            };
        }
    };
}

/// Category monotonicity: a rank of a greater category beats every rank
/// of a lesser one, whatever tie-break values either carries. So a royal
/// straight flush beats any straight flush, which beats any bomb, and so
/// on down to a high card.
pub proof fn lemma_category_monotone(a: Rank, b: Rank)
    requires
        category(a) < category(b),
    ensures
        rank_key(a) < rank_key(b),
        a.partial_cmp_spec(&b) == Some(Ordering::Less),
{
    lemma_payload_key_bounds(a);
    lemma_payload_key_bounds(b);
}

/// The rank order is total: any two ranks compare; equality of keys is
/// equality of ranks; the order is antisymmetric and transitive.
pub proof fn lemma_rank_order_total(a: Rank, b: Rank, c: Rank)
    ensures
        a.partial_cmp_spec(&b) is Some,
        a.partial_cmp_spec(&b) == Some(Ordering::Equal) <==> a == b,
        a.partial_cmp_spec(&b) == Some(Ordering::Less) <==> b.partial_cmp_spec(&a) == Some(
            Ordering::Greater,
        ),
        a.partial_cmp_spec(&b) == Some(Ordering::Less) && b.partial_cmp_spec(&c) == Some(
            Ordering::Less,
        ) ==> a.partial_cmp_spec(&c) == Some(Ordering::Less),
{
    lemma_rank_key_injective(a, b);
}

/// Idempotence of rendering: a hand's own text splits into exactly its
/// five cards' tokens, each denoting the card it was rendered from. With
/// `HoldemHand::parse`'s contract this says that re-parsing a hand's
/// text succeeds and, with `lemma_rank_permutation`, that it yields the
/// same cards and the same rank.
pub proof fn lemma_hand_text_reparse(h: HoldemHand)
    requires
        h.wf(),
    ensures
        ({
            let ts = crate::text::split_ws(hand_text(h.cards@));
            &&& ts.len() == 5
            &&& all_tokens_parse(ts)
            &&& spec_parse_cards(ts) =~= h.cards@
            &&& !degenerate_hand_text(hand_text(h.cards@))
        }),
{
    let m = h.cards@.map_values(|c: Card| card_text(c));
    assert forall|i: int| 0 <= i < m.len() implies crate::text::clean_token(#[trigger] m[i]) by {
        crate::card::lemma_card_text_clean(h.cards@[i]);
    };
    crate::text::lemma_split_join(m);
    let ts = crate::text::split_ws(hand_text(h.cards@));
    assert(ts =~= m);
    assert forall|i: int| 0 <= i < ts.len() implies spec_parse_card(#[trigger] ts[i]) == Some(
        h.cards@[i],
    ) by {
        crate::card::lemma_card_text_round_trip(h.cards@[i]);
    };
    assert(spec_parse_cards(ts) =~= h.cards@);
    assert(!all_same_value(spec_parse_cards(ts)));
}

/// Idempotence, end to end: a hand re-built from the cards that a
/// hand's own text denotes holds the same cards and the same rank.
pub proof fn lemma_reparse_idempotent(h: HoldemHand, h2: HoldemHand)
    requires
        h.wf(),
        h2.wf(),
        h2.cards@.to_multiset() == spec_parse_cards(
            crate::text::split_ws(hand_text(h.cards@)),
        ).to_multiset(),
    ensures
        h2.cards@.to_multiset() == h.cards@.to_multiset(),
        h2.rank == h.rank,
{
    lemma_hand_text_reparse(h);
    lemma_rank_permutation(h, h2);
}

impl PartialOrd for Rank {
    /// Ranks compare by their keys; the order is total.
    fn partial_cmp(&self, other: &Rank) -> (r: Option<Ordering>) {
        let a = self.key();
        let b = other.key();
        if a < b {
            Some(Ordering::Less)
        } else if a == b {
            Some(Ordering::Equal)
        } else {
            Some(Ordering::Greater)
        }
    }
}

impl vstd::std_specs::cmp::PartialOrdSpecImpl for Rank {
    open spec fn obeys_partial_cmp_spec() -> bool {
        true
    }

    open spec fn partial_cmp_spec(&self, other: &Rank) -> Option<Ordering> {
        if rank_key(*self) < rank_key(*other) {
            Some(Ordering::Less)
        } else if rank_key(*self) == rank_key(*other) {
            Some(Ordering::Equal)
        } else {
            Some(Ordering::Greater)
        }
    }
}

} // verus!
