//! What one player knows at a decision point.

use vstd::prelude::*;
use vstd::string::*;
use crate::card::Card;
use crate::history::{all_printable, history_text, History};
use crate::history_node::HistoryNodeView;
use crate::hole_cards::HoleCards;
use crate::player::Player;
use crate::suit::Suit;

verus! {

/// The identity of a decision point as the player to act sees it: who acts,
/// that player's own cards, and the public history. The opponent's cards are
/// no part of it.
#[derive(Debug, PartialEq, Eq, Hash)]
pub struct InfoState {
    pub player: Player,
    pub hole_cards: HoleCards,
    pub history: History,
}

/// The mathematical value of an `InfoState`.
pub struct InfoStateView {
    pub player: Player,
    pub hole_cards: HoleCards,
    pub history: Seq<HistoryNodeView>,
}

impl InfoStateView {
    /// The information state that stands for the root of the tree: out of
    /// position, two placeholder cards, nothing played.
    pub open spec fn empty() -> InfoStateView {
        InfoStateView {
            player: Player::OOP,
            hole_cards: HoleCards {
                card1: Card { rank: 0, suit: Suit::Diamonds },
                card2: Card { rank: 0, suit: Suit::Diamonds },
            },
            history: Seq::empty(),
        }
    }

    /// The rendering of the state: player, cards, history.
    pub open spec fn text(self) -> Seq<char> {
        self.player.text() + self.hole_cards.text() + history_text(self.history)
    }
}

/// The mathematical values of a run of information states.
pub open spec fn info_views(states: Seq<InfoState>) -> Seq<InfoStateView> {
    states.map_values(|state: InfoState| state@)
}

impl View for InfoState {
    type V = InfoStateView;

    open spec fn view(&self) -> InfoStateView {
        InfoStateView {
            player: self.player,
            hole_cards: self.hole_cards,
            history: self.history@,
        }
    }
}

impl Clone for InfoState {
    fn clone(&self) -> (state: InfoState)
        ensures
            state@ == self@,
    {
        InfoState {
            player: self.player,
            hole_cards: self.hole_cards,
            history: self.history.copy(),
        }
    }
}

impl InfoState {
    /// The information state of `player`, who holds `hole_cards`, after `history`.
    pub fn new(player: Player, hole_cards: HoleCards, history: History) -> (state: InfoState)
        ensures
            state@ == (InfoStateView { player, hole_cards, history: history@ }),
    {
        InfoState { player, hole_cards, history }
    }

    /// The information state that stands for the root of the tree.
    pub fn new_empty() -> (state: InfoState)
        ensures
            state@ == InfoStateView::empty(),
    {
        let card = Card { rank: 0, suit: Suit::Diamonds };
        InfoState {
            player: Player::OOP,
            hole_cards: HoleCards::in_order(card, card),
            history: History::new(),
        }
    }

    /// Renders the state.
    pub fn to_string(&self) -> (s: String)
        requires
            all_printable(self@.history),
        ensures
            s@ == self@.text(),
    {
        let mut s = self.player.to_string();
        let cards = self.hole_cards.to_string();
        s.append(cards.as_str());
        let history = self.history.to_string();
        s.append(history.as_str());
        s
    }

    /// Whether two states are the same: same player, same cards, same history.
    pub fn same_as(&self, other: &InfoState) -> (same: bool)
        ensures
            same == (self@ == other@),
    {
        self.player == other.player && self.hole_cards == other.hole_cards
            && self.history.same_as(&other.history)
    }
}

} // verus!
