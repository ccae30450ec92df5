//! Betting rounds.

use vstd::prelude::*;
use vstd::string::*;
use crate::board::{cards_text, Board};
use crate::card::Card;

verus! {

/// A betting round together with the community cards that are out when it is
/// played. `Absent` stands for "no street".
#[derive(Debug, PartialEq, Eq, Hash, PartialOrd)]
pub enum Street {
    Preflop,
    Flop(Board),
    Turn(Board),
    River(Board),
    Absent,
}

/// The mathematical value of a `Street`.
pub enum StreetView {
    Preflop,
    Flop(Seq<Card>),
    Turn(Seq<Card>),
    River(Seq<Card>),
    Absent,
}

impl StreetView {
    /// The number of the street: 1 before the flop, up to 4 on the river, and
    /// 0 for no street.
    pub open spec fn number(self) -> nat {
        match self {
            StreetView::Absent => 0,
            StreetView::Preflop => 1,
            StreetView::Flop(_) => 2,
            StreetView::Turn(_) => 3,
            StreetView::River(_) => 4,
        }
    }

    /// The community cards of the street.
    pub open spec fn board(self) -> Seq<Card> {
        match self {
            StreetView::Flop(board) => board,
            StreetView::Turn(board) => board,
            StreetView::River(board) => board,
            _ => Seq::empty(),
        }
    }

    /// Whether another street follows this one.
    pub open spec fn can_advance(self) -> bool {
        self is Preflop || self is Flop || self is Turn
    }

    /// The street that follows when `card` is dealt.
    pub open spec fn next(self, card: Card) -> StreetView {
        match self {
            StreetView::Preflop => StreetView::Flop(seq![card]),
            StreetView::Flop(board) => StreetView::Turn(board.push(card)),
            StreetView::Turn(board) => StreetView::River(board.push(card)),
            _ => StreetView::Absent,
        }
    }

    /// The rendering of the street: a letter, then the board.
    pub open spec fn text(self) -> Seq<char> {
        match self {
            StreetView::Preflop => seq!['P'],
            StreetView::Flop(board) => seq!['f'] + cards_text(board),
            StreetView::Turn(board) => seq!['t'] + cards_text(board),
            StreetView::River(board) => seq!['r'] + cards_text(board),
            StreetView::Absent => Seq::empty(),
        }
    }
}

impl View for Street {
    type V = StreetView;

    open spec fn view(&self) -> StreetView {
        match self {
            Street::Preflop => StreetView::Preflop,
            Street::Flop(board) => StreetView::Flop(board@),
            Street::Turn(board) => StreetView::Turn(board@),
            Street::River(board) => StreetView::River(board@),
            Street::Absent => StreetView::Absent,
        }
    }
}

impl Clone for Street {
    fn clone(&self) -> (street: Street)
        ensures
            street@ == self@,
    {
        self.copy()
    }
}

impl Street {
    /// The street that follows this one when `card` is dealt: its board is this
    /// street's board with the card added.
    pub fn next_street(&self, card: Card) -> (next: Street)
        requires
            self@.can_advance(),
        ensures
            next@ == self@.next(card),
    {
        let mut board = self.board();
        board.push(card);
        match self {
            Street::Preflop => {
                assert(board@ =~= seq![card]);
                Street::Flop(board)
            },
            Street::Flop(_) => Street::Turn(board),
            _ => Street::River(board),
        }
    }

    /// The number of the street.
    pub fn to_u8(&self) -> (n: u8)
        ensures
            n == self@.number(),
    {
        match self {
            Street::Absent => 0,
            Street::Preflop => 1,
            Street::Flop(_) => 2,
            Street::Turn(_) => 3,
            Street::River(_) => 4,
        }
    }

    /// Renders the street.
    pub fn to_string(&self) -> (s: String)
        requires
            !(self@ is Absent),
        ensures
            s@ == self@.text(),
    {
        proof {
            reveal_strlit("P");
            reveal_strlit("f");
            reveal_strlit("t");
            reveal_strlit("r");
        }
        match self {
            Street::Preflop => {
                let s = String::from_str("P");
                assert(s@ =~= self@.text());
                s
            },
            Street::Flop(board) => {
                let mut s = String::from_str("f");
                let cards = board.to_string();
                s.append(cards.as_str());
                assert(s@ =~= self@.text());
                s
            },
            Street::Turn(board) => {
                let mut s = String::from_str("t");
                let cards = board.to_string();
                s.append(cards.as_str());
                assert(s@ =~= self@.text());
                s
            },
            Street::River(board) => {
                let mut s = String::from_str("r");
                let cards = board.to_string();
                s.append(cards.as_str());
                assert(s@ =~= self@.text());
                s
            },
            Street::Absent => String::new(),
        }
    }

    /// Whether this is the flop.
    pub fn is_flop(&self) -> (b: bool)
        ensures
            b == (self@ is Flop),
    {
        match self {
            Street::Flop(_) => true,
            _ => false,
        }
    }

    /// Whether this is the turn.
    pub fn is_turn(&self) -> (b: bool)
        ensures
            b == (self@ is Turn),
    {
        match self {
            Street::Turn(_) => true,
            _ => false,
        }
    }

    /// Whether this is the river.
    pub fn is_river(&self) -> (b: bool)
        ensures
            b == (self@ is River),
    {
        match self {
            Street::River(_) => true,
            _ => false,
        }
    }

    /// The community cards of the street.
    pub fn board(&self) -> (board: Board)
        requires
            !(self@ is Absent),
        ensures
            board@ == self@.board(),
    {
        match self {
            Street::Flop(board) => board.copy(),
            Street::Turn(board) => board.copy(),
            Street::River(board) => board.copy(),
            _ => Board::new(),
        }
    }

    /// Whether two streets are the same round with the same board.
    pub fn same_as(&self, other: &Street) -> (same: bool)
        ensures
            same == (self@ == other@),
    {
        match (self, other) {
            (Street::Preflop, Street::Preflop) => true,
            (Street::Flop(a), Street::Flop(b)) => a.same_as(b),
            (Street::Turn(a), Street::Turn(b)) => a.same_as(b),
            (Street::River(a), Street::River(b)) => a.same_as(b),
            (Street::Absent, Street::Absent) => true,
            _ => false,
        }
    }

    /// A copy of the street.
    pub fn copy(&self) -> (street: Street)
        ensures
            street@ == self@,
    {
        match self {
            Street::Preflop => Street::Preflop,
            Street::Flop(board) => Street::Flop(board.copy()),
            Street::Turn(board) => Street::Turn(board.copy()),
            Street::River(board) => Street::River(board.copy()),
            Street::Absent => Street::Absent,
        }
    }
}

} // verus!
