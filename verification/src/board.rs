//! Community cards.

use vstd::prelude::*;
use vstd::string::*;
use crate::card::Card;

verus! {

/// The rendering of a run of cards: the cards' renderings, one after another.
pub open spec fn cards_text(cards: Seq<Card>) -> Seq<char>
    decreases cards.len(),
{
    if cards.len() == 0 {
        Seq::empty()
    } else {
        cards_text(cards.drop_last()) + cards.last().text()
    }
}

/// A copy of a vector of cards.
pub fn copy_cards(cards: &Vec<Card>) -> (copy: Vec<Card>)
    ensures
        copy@ == cards@,
{
    let mut copy: Vec<Card> = Vec::new();
    let mut i: usize = 0;
    while i < cards.len()
        invariant
            i <= cards.len(),
            copy@ == cards@.subrange(0, i as int),
        decreases cards.len() - i,
    {
        copy.push(cards[i]);
        i += 1;
        assert(copy@ =~= cards@.subrange(0, i as int));
    }
    assert(cards@.subrange(0, i as int) =~= cards@);
    copy
}

/// Whether two vectors hold the same cards in the same order.
pub fn cards_equal(a: &Vec<Card>, b: &Vec<Card>) -> (same: bool)
    ensures
        same == (a@ == b@),
{
    if a.len() != b.len() {
        return false;
    }
    let mut i: usize = 0;
    while i < a.len()
        invariant
            i <= a.len(),
            a.len() == b.len(),
            forall|j: int| 0 <= j < i ==> a@[j] == b@[j],
        decreases a.len() - i,
    {
        if a[i] != b[i] {
            return false;
        }
        i += 1;
    }
    assert(a@ =~= b@);
    true
}

/// Renders a run of cards.
pub fn cards_to_string(cards: &Vec<Card>) -> (s: String)
    ensures
        s@ == cards_text(cards@),
{
    let mut s = String::new();
    let mut i: usize = 0;
    while i < cards.len()
        invariant
            i <= cards.len(),
            s@ == cards_text(cards@.subrange(0, i as int)),
        decreases cards.len() - i,
    {
        let card = cards[i].to_string();
        s.append(card.as_str());
        i += 1;
        proof {
            let prefix = cards@.subrange(0, i as int);
            assert(prefix.drop_last() =~= cards@.subrange(0, i - 1));
            assert(prefix.last() == cards@[i - 1]);
        }
    }
    assert(cards@.subrange(0, i as int) =~= cards@);
    s
}

/// The community cards dealt so far, in the order in which they came.
#[derive(Debug, Hash, PartialEq, Eq, PartialOrd)]
pub struct Board {
    pub cards: Vec<Card>,
}

impl View for Board {
    type V = Seq<Card>;

    open spec fn view(&self) -> Seq<Card> {
        self.cards@
    }
}

impl Clone for Board {
    fn clone(&self) -> (board: Board)
        ensures
            board@ == self@,
    {
        self.copy()
    }
}

impl Board {
    /// An empty board.
    pub fn new() -> (board: Board)
        ensures
            board@ == Seq::<Card>::empty(),
    {
        Board { cards: Vec::new() }
    }

    /// The board that holds the given cards.
    pub fn from_vec(cards: Vec<Card>) -> (board: Board)
        ensures
            board@ == cards@,
    {
        Board { cards }
    }

    /// Adds a card at the end.
    pub fn push(&mut self, card: Card)
        ensures
            final(self)@ == old(self)@.push(card),
    {
        self.cards.push(card);
    }

    /// Renders the board.
    pub fn to_string(&self) -> (s: String)
        ensures
            s@ == cards_text(self@),
    {
        cards_to_string(&self.cards)
    }

    /// The cards of the board.
    pub fn to_vec(&self) -> (cards: Vec<Card>)
        ensures
            cards@ == self@,
    {
        copy_cards(&self.cards)
    }

    /// Whether two boards hold the same cards in the same order.
    pub fn same_as(&self, other: &Board) -> (same: bool)
        ensures
            same == (self@ == other@),
    {
        cards_equal(&self.cards, &other.cards)
    }

    /// A copy of the board.
    pub fn copy(&self) -> (board: Board)
        ensures
            board@ == self@,
    {
        Board { cards: copy_cards(&self.cards) }
    }
}

} // verus!
