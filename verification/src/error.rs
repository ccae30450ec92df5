//! Errors reported for malformed textual or numeric input.

use vstd::prelude::*;
use crate::card::Card;

verus! {

/// Why a piece of input was rejected. Each variant carries the offending text.
#[derive(Debug, Clone, PartialEq, Eq)]
pub enum ParseError {
    /// A character that names no card rank.
    InvalidRank(char),
    /// A character that names no suit.
    InvalidSuitChar(char),
    /// A string that names no suit.
    InvalidSuit(String),
    /// A number that indexes no suit.
    InvalidSuitIndex(u8),
    /// Two cards of which only one carries a suited/offsuit marker, or which
    /// carry different markers. The higher card comes first.
    MismatchedSuitMarkers(Card, Card),
    /// A string that is no hole-card notation.
    InvalidHoleCards(String),
    /// A weight that is no decimal number between zero and one.
    InvalidWeight(String),
}

} // verus!
