//! Playing cards.

use vstd::prelude::*;
use vstd::string::*;
use core::cmp::Ordering;
use vstd::std_specs::cmp::PartialOrdSpecImpl;
use crate::error::ParseError;
use crate::suit::Suit;
use crate::text::{decimal, decimal_string};

verus! {

/// A card: a rank and a suit.
///
/// Ranks run from 1 to 14, where 11 to 14 are jack, queen, king and ace.
/// The empty information state holds a placeholder of rank 0, which no
/// constructor makes.
#[derive(Debug, Clone, Copy, PartialEq, Eq, Hash, Structural)]
pub struct Card {
    pub suit: Suit,
    pub rank: u8,
}

impl Card {
    /// The rank that a character names, if any.
    pub open spec fn rank_of_char(c: char) -> Option<u8> {
        if c == 'A' {
            Some(14u8)
        } else if c == 'K' {
            Some(13u8)
        } else if c == 'Q' {
            Some(12u8)
        } else if c == 'J' {
            Some(11u8)
        } else if c == 'T' {
            Some(10u8)
        } else if c == '9' {
            Some(9u8)
        } else if c == '8' {
            Some(8u8)
        } else if c == '7' {
            Some(7u8)
        } else if c == '6' {
            Some(6u8)
        } else if c == '5' {
            Some(5u8)
        } else if c == '4' {
            Some(4u8)
        } else if c == '3' {
            Some(3u8)
        } else if c == '2' {
            Some(2u8)
        } else {
            None
        }
    }

    /// The rendering of a rank: a letter from ten upwards, else the number.
    pub open spec fn rank_text(rank: u8) -> Seq<char> {
        if rank == 14 {
            seq!['A']
        } else if rank == 13 {
            seq!['K']
        } else if rank == 12 {
            seq!['Q']
        } else if rank == 11 {
            seq!['J']
        } else if rank == 10 {
            seq!['T']
        } else {
            decimal(rank as nat)
        }
    }

    /// The diamond of the given rank.
    pub open spec fn diamond(rank: u8) -> Card {
        Card { rank, suit: Suit::Diamonds }
    }

    /// The rendering of the card: its rank, then its suit.
    pub open spec fn text(self) -> Seq<char> {
        Card::rank_text(self.rank) + self.suit.symbol()
    }

    /// Whether `self` comes strictly before `other`: by rank, and within a rank
    /// by suit, where hearts rank highest and the offsuit marker lowest.
    pub open spec fn below(self, other: Card) -> bool {
        self.rank < other.rank || (self.rank == other.rank && self.suit.index()
            > other.suit.index())
    }

    /// Whether `self` does not come before `other`.
    pub open spec fn at_least(self, other: Card) -> bool {
        !self.below(other)
    }

    /// A card of the given rank and suit.
    pub fn new(rank: u8, suit: Suit) -> (card: Card)
        requires
            1 <= rank <= 14,
        ensures
            card == (Card { rank, suit }),
    {
        Card { rank, suit }
    }

    /// A diamond of the given rank.
    pub fn new_with_rank(rank: u8) -> (card: Card)
        requires
            1 <= rank <= 14,
        ensures
            card == Card::diamond(rank),
    {
        Card { rank, suit: Suit::Diamonds }
    }

    /// Reads a rank from its character.
    pub fn rank_from_char(c: char) -> (r: Result<u8, ParseError>)
        ensures
            r == match Card::rank_of_char(c) {
                Some(rank) => Ok::<u8, ParseError>(rank),
                None => Err(ParseError::InvalidRank(c)),
            },
            r matches Ok(rank) ==> 2 <= rank <= 14,
    {
        if c == 'A' {
            Ok(14)
        } else if c == 'K' {
            Ok(13)
        } else if c == 'Q' {
            Ok(12)
        } else if c == 'J' {
            Ok(11)
        } else if c == 'T' {
            Ok(10)
        } else if c == '9' {
            Ok(9)
        } else if c == '8' {
            Ok(8)
        } else if c == '7' {
            Ok(7)
        } else if c == '6' {
            Ok(6)
        } else if c == '5' {
            Ok(5)
        } else if c == '4' {
            Ok(4)
        } else if c == '3' {
            Ok(3)
        } else if c == '2' {
            Ok(2)
        } else {
            Err(ParseError::InvalidRank(c))
        }
    }

    /// Renders the card.
    pub fn to_string(&self) -> (s: String)
        ensures
            s@ == self.text(),
    {
        proof {
            reveal_strlit("A");
            reveal_strlit("K");
            reveal_strlit("Q");
            reveal_strlit("J");
            reveal_strlit("T");
        }
        let mut s = if self.rank == 14 {
            String::from_str("A")
        } else if self.rank == 13 {
            String::from_str("K")
        } else if self.rank == 12 {
            String::from_str("Q")
        } else if self.rank == 11 {
            String::from_str("J")
        } else if self.rank == 10 {
            String::from_str("T")
        } else {
            decimal_string(self.rank as u32)
        };
        assert(s@ =~= Card::rank_text(self.rank));
        let suit = self.suit.to_string();
        s.append(suit.as_str());
        s
    }

    /// Whether `self` comes strictly before `other`.
    pub fn is_below(&self, other: &Card) -> (b: bool)
        ensures
            b == self.below(*other),
    {
        self.rank < other.rank || (self.rank == other.rank && self.suit.to_usize()
            > other.suit.to_usize())
    }
}

impl PartialOrd for Card {
    fn partial_cmp(&self, other: &Card) -> (r: Option<Ordering>) {
        if self.rank < other.rank {
            Some(Ordering::Less)
        } else if self.rank > other.rank {
            Some(Ordering::Greater)
        } else if self.suit.to_usize() > other.suit.to_usize() {
            Some(Ordering::Less)
        } else if self.suit.to_usize() < other.suit.to_usize() {
            Some(Ordering::Greater)
        } else {
            Some(Ordering::Equal)
        }
    }
}

impl PartialOrdSpecImpl for Card {
    open spec fn obeys_partial_cmp_spec() -> bool {
        true
    }

    open spec fn partial_cmp_spec(&self, other: &Card) -> Option<Ordering> {
        if self.below(*other) {
            Some(Ordering::Less)
        } else if other.below(*self) {
            Some(Ordering::Greater)
        } else {
            Some(Ordering::Equal)
        }
    }
}

} // verus!
