//! Card suits, including the two class markers used in range notation.

use vstd::prelude::*;
use vstd::string::*;
use crate::error::ParseError;

verus! {

/// A suit. `Suited` and `Offsuit` are no real suits: they mark a class of
/// hole cards ("any two cards of one suit", "any two cards of different suits").
#[derive(Debug, Clone, Copy, PartialEq, Eq, Hash, Structural)]
pub enum Suit {
    Hearts,
    Spades,
    Diamonds,
    Clubs,
    Suited,
    Offsuit,
}

impl Suit {
    /// The index of the suit: real suits come first.
    pub open spec fn index(self) -> nat {
        match self {
            Suit::Hearts => 0,
            Suit::Spades => 1,
            Suit::Diamonds => 2,
            Suit::Clubs => 3,
            Suit::Suited => 4,
            Suit::Offsuit => 5,
        }
    }

    /// Whether this is one of the four real suits.
    pub open spec fn is_real(self) -> bool {
        self.index() < 4
    }

    /// Whether this is a class marker.
    pub open spec fn is_marker(self) -> bool {
        self == Suit::Suited || self == Suit::Offsuit
    }

    /// The rendering of the suit.
    pub open spec fn symbol(self) -> Seq<char> {
        match self {
            Suit::Hearts => seq!['♥'],
            Suit::Spades => seq!['♠'],
            Suit::Diamonds => seq!['♦'],
            Suit::Clubs => seq!['♣'],
            Suit::Suited => seq!['u'],
            Suit::Offsuit => seq!['o'],
        }
    }

    /// The suit that a one-letter name stands for, if any.
    pub open spec fn of_letter(c: char) -> Option<Suit> {
        if c == 's' {
            Some(Suit::Spades)
        } else if c == 'h' {
            Some(Suit::Hearts)
        } else if c == 'd' {
            Some(Suit::Diamonds)
        } else if c == 'c' {
            Some(Suit::Clubs)
        } else {
            None
        }
    }

    /// The suit that a piece of text names, if any: a symbol, a letter, or a
    /// marker letter.
    pub open spec fn of_text(s: Seq<char>) -> Option<Suit> {
        if s.len() != 1 {
            None
        } else if s[0] == '♥' || s[0] == 'h' {
            Some(Suit::Hearts)
        } else if s[0] == '♠' || s[0] == 's' {
            Some(Suit::Spades)
        } else if s[0] == '♦' || s[0] == 'd' {
            Some(Suit::Diamonds)
        } else if s[0] == '♣' || s[0] == 'c' {
            Some(Suit::Clubs)
        } else if s[0] == 'u' {
            Some(Suit::Suited)
        } else if s[0] == 'o' {
            Some(Suit::Offsuit)
        } else {
            None
        }
    }

    /// The suit with a given number. The numbering differs from `index` in the
    /// first two suits.
    pub open spec fn of_number(n: u8) -> Option<Suit> {
        if n == 0 {
            Some(Suit::Spades)
        } else if n == 1 {
            Some(Suit::Hearts)
        } else if n == 2 {
            Some(Suit::Diamonds)
        } else if n == 3 {
            Some(Suit::Clubs)
        } else if n == 4 {
            Some(Suit::Suited)
        } else if n == 5 {
            Some(Suit::Offsuit)
        } else {
            None
        }
    }

    /// The four real suits, in the order in which decks and expansions list them.
    pub open spec fn real_suits() -> Seq<Suit> {
        seq![Suit::Spades, Suit::Hearts, Suit::Diamonds, Suit::Clubs]
    }

    /// The four real suits.
    pub fn to_vec() -> (v: Vec<Suit>)
        ensures
            v@ == Suit::real_suits(),
    {
        let mut v: Vec<Suit> = Vec::new();
        v.push(Suit::Spades);
        v.push(Suit::Hearts);
        v.push(Suit::Diamonds);
        v.push(Suit::Clubs);
        assert(v@ =~= Suit::real_suits());
        v
    }

    /// Renders the suit.
    pub fn to_string(&self) -> (s: String)
        ensures
            s@ == self.symbol(),
    {
        proof {
            reveal_strlit("♥");
            reveal_strlit("♠");
            reveal_strlit("♦");
            reveal_strlit("♣");
            reveal_strlit("u");
            reveal_strlit("o");
        }
        let text = match self {
            Suit::Hearts => "♥",
            Suit::Spades => "♠",
            Suit::Diamonds => "♦",
            Suit::Clubs => "♣",
            Suit::Suited => "u",
            Suit::Offsuit => "o",
        };
        assert(text@ =~= self.symbol());
        String::from_str(text)
    }

    /// Reads a suit from a one-letter name.
    pub fn from_char(c: char) -> (r: Result<Suit, ParseError>)
        ensures
            r == match Suit::of_letter(c) {
                Some(suit) => Ok::<Suit, ParseError>(suit),
                None => Err(ParseError::InvalidSuitChar(c)),
            },
    {
        if c == 's' {
            Ok(Suit::Spades)
        } else if c == 'h' {
            Ok(Suit::Hearts)
        } else if c == 'd' {
            Ok(Suit::Diamonds)
        } else if c == 'c' {
            Ok(Suit::Clubs)
        } else {
            Err(ParseError::InvalidSuitChar(c))
        }
    }

    /// Reads a suit from its symbol, its letter, or a marker letter.
    pub fn from_str(s: &str) -> (r: Result<Suit, ParseError>)
        ensures
            match Suit::of_text(s@) {
                Some(suit) => r == Ok::<Suit, ParseError>(suit),
                None => r matches Err(ParseError::InvalidSuit(text)) && text@ == s@,
            },
    {
        if s.unicode_len() != 1 {
            return Err(ParseError::InvalidSuit(String::from_str(s)));
        }
        let c = s.get_char(0);
        if c == '♥' || c == 'h' {
            Ok(Suit::Hearts)
        } else if c == '♠' || c == 's' {
            Ok(Suit::Spades)
        } else if c == '♦' || c == 'd' {
            Ok(Suit::Diamonds)
        } else if c == '♣' || c == 'c' {
            Ok(Suit::Clubs)
        } else if c == 'u' {
            Ok(Suit::Suited)
        } else if c == 'o' {
            Ok(Suit::Offsuit)
        } else {
            Err(ParseError::InvalidSuit(String::from_str(s)))
        }
    }

    /// The index of the suit.
    pub fn to_usize(&self) -> (i: usize)
        ensures
            i == self.index(),
    {
        match self {
            Suit::Hearts => 0,
            Suit::Spades => 1,
            Suit::Diamonds => 2,
            Suit::Clubs => 3,
            Suit::Suited => 4,
            Suit::Offsuit => 5,
        }
    }

    /// The suit with a given number.
    pub fn from_u8(s: u8) -> (r: Result<Suit, ParseError>)
        ensures
            r == match Suit::of_number(s) {
                Some(suit) => Ok::<Suit, ParseError>(suit),
                None => Err(ParseError::InvalidSuitIndex(s)),
            },
    {
        if s == 0 {
            Ok(Suit::Spades)
        } else if s == 1 {
            Ok(Suit::Hearts)
        } else if s == 2 {
            Ok(Suit::Diamonds)
        } else if s == 3 {
            Ok(Suit::Clubs)
        } else if s == 4 {
            Ok(Suit::Suited)
        } else if s == 5 {
            Ok(Suit::Offsuit)
        } else {
            Err(ParseError::InvalidSuitIndex(s))
        }
    }
}

} // verus!
