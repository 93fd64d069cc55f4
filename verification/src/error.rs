//! Errors reported while parsing card and hand notation.

use vstd::prelude::*;

verus! {

/// A parse failure; the `String` payloads carry the offending substring.
#[derive(Debug, PartialEq, Eq)]
pub enum Error {
    /// The value prefix of a card token matched no known value.
    BadValue(String),
    /// The trailing character of a card token matched no known suit.
    BadSuit(String),
    /// A card token had an invalid length, or a hand held the wrong
    /// number of cards; the payload says which.
    BadCard(String),
    /// A rank could not be established.
    BadRank,
    /// A hand could not be established.
    BadHand,
}

} // verus!
