//! The steps of a walk over the game tree.

use vstd::prelude::*;
use crate::card::Card;
use crate::card_array::playable;
use crate::game::Game;
use crate::history::{closes_betting, current_street};
use crate::history_node::HistoryNodeView;
use crate::node::{hand_is_over, Node};

verus! {

/// What a walk does at a node.
#[derive(Debug, Clone, Copy, PartialEq, Eq, Structural)]
pub enum NodeKind {
    /// The hand is over: the walk hands back the payoff.
    Terminal,
    /// The betting round is over and another street follows: the walk deals
    /// the next card.
    StreetCompleting,
    /// A player is to act: the walk tries each action.
    Decision,
}

/// What a walk does after a history in a game of so many streets.
pub open spec fn kind_of(history: Seq<HistoryNodeView>, streets: nat) -> NodeKind {
    if hand_is_over(history, streets) {
        NodeKind::Terminal
    } else if closes_betting(history) {
        NodeKind::StreetCompleting
    } else {
        NodeKind::Decision
    }
}

/// A game whose hands end: a number, which falls with every action and with
/// every street that starts, bounds the steps that a hand can still take.
pub trait FiniteGame: Game {
    /// A bound on the number of steps that can follow a history.
    spec fn remaining(&self, history: Seq<HistoryNodeView>) -> nat;

    /// An action at a decision point leaves fewer steps.
    proof fn lemma_action_step(&self, history: Seq<HistoryNodeView>, i: int)
        requires
            self.wf(),
            self.accepts(history),
            1 <= current_street(history).number() <= self.streets(),
            kind_of(history, self.streets()) == NodeKind::Decision,
            0 <= i < self.actions_after(history).len(),
        ensures
            self.remaining(
                history.push(HistoryNodeView::Action(self.actions_after(history)[i])),
            ) < self.remaining(history),
    ;

    /// The start of the next street leaves fewer steps.
    proof fn lemma_street_step(&self, history: Seq<HistoryNodeView>, card: Card)
        requires
            self.wf(),
            self.accepts(history),
            1 <= current_street(history).number() <= self.streets(),
        ensures
            kind_of(history, self.streets()) == NodeKind::StreetCompleting ==> self.remaining(
                history.push(HistoryNodeView::Street(current_street(history).next(card))),
            ) < self.remaining(history),
    ;
}

/// The walk over the game tree, step by step.
pub struct TreeWalker;

impl TreeWalker {
    /// What a walk does at a node: end the hand, deal the next street, or
    /// ask the player to act.
    pub fn classify<G: Game>(game: &G, node: &Node) -> (kind: NodeKind)
        ensures
            kind == kind_of(node.history@, game.streets()),
    {
        if node.is_terminal(game) {
            NodeKind::Terminal
        } else if node.is_street_completing_action() {
            NodeKind::StreetCompleting
        } else {
            NodeKind::Decision
        }
    }

    /// The node that follows a node at the end of a street when `card` is
    /// dealt: the card joins the board and the next street starts.
    pub fn street_child<G: Game>(game: &G, node: &Node, card: Card) -> (next: Node)
        requires
            game.wf(),
            node.wf(game),
            kind_of(node.history@, game.streets()) == NodeKind::StreetCompleting,
        ensures
            next.wf(game),
            next@ == node@.after_card(card),
            node.showdown_ready() && playable(card) ==> next.showdown_ready(),
    {
        proof {
            game.lemma_setup();
            game.lemma_accepts_street(node.history@, card);
            let before = current_street(node.history@).board();
            let after = current_street(node.history@).next(card).board();
            if node.showdown_ready() && playable(card) {
                assert forall|i: int| 0 <= i < after.len() implies playable(
                    #[trigger] after[i],
                ) by {
                    if i < before.len() {
                        assert(playable(before[i]));
                    }
                }
            }
        }
        let next_street = node.history.street().next_street(card);
        node.next_street_node(game, next_street)
    }
}

} // verus!
