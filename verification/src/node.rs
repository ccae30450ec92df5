//! A point of the game tree during a traversal.

use vstd::prelude::*;
use crate::action::Action;
use crate::action_list::copy_actions;
use crate::board::Board;
use crate::card::Card;
use crate::card_array::{all_playable, playable};
use crate::deal::Deal;
use crate::deck::Deck;
use crate::game::Game;
use crate::history::{
    all_printable, closes_betting, current_street, ends_with_fold, lemma_printable_push, History,
};
use crate::history_node::HistoryNodeView;
use crate::hole_cards::HoleCards;
use crate::info_state::{InfoState, InfoStateView};
use crate::player::Player;
use crate::player_cards::PlayerCards;
use crate::street::Street;

verus! {

/// A point of the game tree: who acts, what that player can do, what has
/// happened, who holds which cards, and which cards can still come.
#[derive(Debug)]
pub struct Node {
    pub actions: Vec<Action>,
    pub history: History,
    pub player: Player,
    pub cards: PlayerCards,
    pub deck: Deck,
}

/// The mathematical value of a `Node`. The actions are no part of it: the
/// game and the history determine them.
pub struct NodeView {
    pub player: Player,
    pub cards: PlayerCards,
    pub deck: Seq<Card>,
    pub history: Seq<HistoryNodeView>,
}

impl NodeView {
    /// The root of the tree for a deal.
    pub open spec fn root(deal: crate::deal::DealView) -> NodeView {
        NodeView {
            player: Player::OOP,
            cards: deal.cards,
            deck: deal.deck,
            history: deal.history,
        }
    }

    /// The node that follows when the player to act takes `action`.
    pub open spec fn after_action(self, action: Action) -> NodeView {
        NodeView {
            player: self.player.other(),
            cards: self.cards,
            deck: self.deck,
            history: self.history.push(HistoryNodeView::Action(action)),
        }
    }

    /// The node that follows when `card` starts the next street.
    pub open spec fn after_card(self, card: Card) -> NodeView {
        NodeView {
            player: Player::OOP,
            cards: self.cards,
            deck: self.deck,
            history: self.history.push(
                HistoryNodeView::Street(current_street(self.history).next(card)),
            ),
        }
    }

    /// What the player to act knows.
    pub open spec fn info_state(self) -> InfoStateView {
        InfoStateView {
            player: self.player,
            hole_cards: self.cards.of(self.player),
            history: self.history,
        }
    }
}

/// Two nodes at which the same player holds the same cards after the same
/// history are one information state, whatever the opponent holds and
/// whatever the deck holds.
pub proof fn lemma_info_state_hides_opponent(a: NodeView, b: NodeView)
    requires
        a.player == b.player,
        a.cards.of(a.player) == b.cards.of(b.player),
        a.history == b.history,
    ensures
        a.info_state() == b.info_state(),
{
}

impl View for Node {
    type V = NodeView;

    open spec fn view(&self) -> NodeView {
        NodeView {
            player: self.player,
            cards: self.cards,
            deck: self.deck@,
            history: self.history@,
        }
    }
}

/// Whether a hand is over after a history: after a fold, and on the last
/// street after the action that closes the betting.
pub open spec fn hand_is_over(history: Seq<HistoryNodeView>, streets: nat) -> bool {
    ends_with_fold(history) || (current_street(history).number() == streets && closes_betting(
        history,
    ))
}

impl Clone for Node {
    fn clone(&self) -> (node: Node)
        ensures
            node.actions@ == self.actions@,
            node@ == self@,
    {
        Node {
            actions: copy_actions(&self.actions),
            history: self.history.clone(),
            player: self.player,
            cards: self.cards,
            deck: self.deck.clone(),
        }
    }
}

impl Node {
    /// Whether the hands of the node can be compared, now and on later
    /// streets: the hole cards, the board and the deck hold cards that can be
    /// part of hands, and the board holds five cards at most.
    pub open spec fn showdown_ready(&self) -> bool {
        &&& playable(self.cards.of(Player::IP).card1)
        &&& playable(self.cards.of(Player::IP).card2)
        &&& playable(self.cards.of(Player::OOP).card1)
        &&& playable(self.cards.of(Player::OOP).card2)
        &&& all_playable(self.deck@)
        &&& !(current_street(self.history@) is Absent)
        &&& all_playable(current_street(self.history@).board())
        &&& current_street(self.history@).board().len() <= 5
    }

    /// Whether the node belongs to the game: the game accepts its history,
    /// which can be rendered, its actions are those that the game allows after
    /// its history, it is on one of the streets of the game, and its board
    /// leaves room for the cards of the streets to come.
    pub open spec fn wf<G: Game>(&self, game: &G) -> bool {
        &&& game.accepts(self.history@)
        &&& all_printable(self.history@)
        &&& self.actions@ == game.actions_after(self.history@)
        &&& 1 <= current_street(self.history@).number() <= game.streets()
        &&& current_street(self.history@).board().len() + (game.streets() - current_street(
            self.history@,
        ).number()) <= 5
    }

    /// Whether a card can be part of a hand.
    fn is_playable(card: &Card) -> (ok: bool)
        ensures
            ok == playable(*card),
    {
        1 <= card.rank && card.rank <= 14 && card.suit.to_usize() < 4
    }

    /// Whether all cards of a vector can be part of hands.
    fn are_playable(cards: &Vec<Card>) -> (ok: bool)
        ensures
            ok == all_playable(cards@),
    {
        let mut i: usize = 0;
        while i < cards.len()
            invariant
                i <= cards.len(),
                forall|j: int| 0 <= j < i ==> playable(#[trigger] cards@[j]),
            decreases cards.len() - i,
        {
            if !Node::is_playable(&cards[i]) {
                return false;
            }
            i += 1;
        }
        true
    }

    /// Whether the hands of the node can be compared, now and on later
    /// streets.
    pub fn is_showdown_ready(&self) -> (ok: bool)
        ensures
            ok == self.showdown_ready(),
    {
        let ip = self.cards.get(Player::IP);
        let oop = self.cards.get(Player::OOP);
        let street = self.history.street();
        if street.to_u8() == 0 {
            return false;
        }
        let board = street.board().to_vec();
        Node::is_playable(&ip.card1) && Node::is_playable(&ip.card2) && Node::is_playable(
            &oop.card1,
        ) && Node::is_playable(&oop.card2) && Node::are_playable(&self.deck.to_vec())
            && Node::are_playable(&board) && board.len() <= 5
    }

    /// The root of the tree for a deal: the player out of position acts
    /// first.
    pub fn new<G: Game>(game: &G, deal: Deal) -> (node: Node)
        requires
            game.wf(),
            deal@.history == game.first_history(),
        ensures
            node.wf(game),
            node@ == NodeView::root(deal@),
            deal@.playable() ==> node.showdown_ready(),
    {
        proof {
            game.lemma_setup();
        }
        Node {
            actions: game.legal_first_actions(),
            history: deal.history,
            player: Player::OOP,
            cards: deal.cards,
            deck: deal.deck,
        }
    }

    /// Whether the hand is over at this node.
    pub fn is_terminal<G: Game>(&self, game: &G) -> (terminal: bool)
        ensures
            terminal == hand_is_over(self.history@, game.streets()),
    {
        self.history.is_terminal_action() || (self.history.street().to_u8() == game.num_streets()
            && self.history.is_completing_action())
    }

    /// Whether the latest action closes the betting round.
    pub fn is_street_completing_action(&self) -> (completing: bool)
        ensures
            completing == closes_betting(self.history@),
    {
        self.history.is_completing_action()
    }

    /// The player to act.
    pub fn player(&self) -> (player: Player)
        ensures
            player == self.player,
    {
        self.player
    }

    /// The cards of the player to act.
    pub fn player_cards(&self) -> (cards: HoleCards)
        ensures
            cards == self.cards.of(self.player),
    {
        self.cards.get(self.player)
    }

    /// The cards of the other player.
    pub fn opponent_cards(&self) -> (cards: HoleCards)
        ensures
            cards == self.cards.of(self.player.other()),
    {
        self.cards.get(self.player.opponent())
    }

    /// The community cards.
    pub fn board(&self) -> (board: Board)
        requires
            !(current_street(self.history@) is Absent),
        ensures
            board@ == current_street(self.history@).board(),
    {
        self.history.street().board()
    }

    /// The node that follows when the player to act takes `action`: the
    /// action joins the history and the other player is to act.
    pub fn next_action_node<G: Game>(&self, game: &G, action: Action) -> (next: Node)
        requires
            game.wf(),
            self.wf(game),
        ensures
            next.wf(game),
            next@ == self@.after_action(action),
            self.showdown_ready() ==> next.showdown_ready(),
    {
        proof {
            game.lemma_accepts_action(self.history@, action);
            crate::history::lemma_street_after_action(self.history@, action);
            lemma_printable_push(self.history@, HistoryNodeView::Action(action));
        }
        let mut history = self.history.clone();
        history.push_action(action);
        let actions = game.legal_actions(&history);
        Node {
            actions,
            history,
            player: self.player.opponent(),
            cards: self.cards,
            deck: self.deck.clone(),
        }
    }

    /// The node that follows when the next street starts: the street joins
    /// the history and the player out of position is to act.
    pub fn next_street_node<G: Game>(&self, game: &G, next_street: Street) -> (next: Node)
        requires
            game.wf(),
            self.wf(game),
            game.accepts(self.history@.push(HistoryNodeView::Street(next_street@))),
            1 <= next_street@.number() <= game.streets(),
            next_street@.board().len() + (game.streets() - next_street@.number()) <= 5,
        ensures
            next.wf(game),
            self.showdown_ready() && all_playable(next_street@.board())
                ==> next.showdown_ready(),
            next@ == (NodeView {
                player: Player::OOP,
                cards: self.cards,
                deck: self.deck@,
                history: self.history@.push(HistoryNodeView::Street(next_street@)),
            }),
    {
        proof {
            crate::history::lemma_street_after_street(self.history@, next_street@);
            lemma_printable_push(self.history@, HistoryNodeView::Street(next_street@));
        }
        let mut history = self.history.clone();
        history.push_street(next_street);
        let actions = game.legal_actions(&history);
        Node { actions, history, player: Player::OOP, cards: self.cards, deck: self.deck.clone() }
    }

    /// What the player to act knows: who acts, the own cards, the history.
    pub fn info_state(&self) -> (state: InfoState)
        ensures
            state@ == self@.info_state(),
    {
        InfoState::new(self.player, self.player_cards(), self.history.clone())
    }
}

} // verus!
