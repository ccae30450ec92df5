//! Leduc poker: six cards, two streets, bets of a fixed number of chips.

use vstd::prelude::*;
use rand::rngs::StdRng;
use crate::action::Action;
use crate::bet::Bet;
use crate::card::Card;
use crate::card_array::playable;
use crate::deal::{Deal, DealView};
use crate::deck::{lemma_shuffled_playable, Deck};
use crate::game::{deals_from, deals_of_deck, Game};
use crate::history::{
    closes_betting, current_street, lemma_street_after_action, lemma_street_after_street, History,
};
use crate::node::hand_is_over;
use crate::tree_walker::FiniteGame;
use crate::history_node::HistoryNodeView;
use crate::hole_cards::HoleCards;
use crate::kuhn::latest_or_check;
use crate::player_cards::PlayerCards;
use crate::suit::Suit;
use crate::weight::Weight;

verus! {

/// The actions that open a betting round of Leduc poker.
pub open spec fn leduc_opening() -> Seq<Action> {
    seq![Action::Check, Action::Bet(Bet::C(2)), Action::Bet(Bet::C(4))]
}

/// The actions of Leduc poker: check or bet at the start of a street and
/// after a check; fold, call or raise after a bet; fold or call after a raise;
/// and nothing else.
pub open spec fn leduc_actions(history: Seq<HistoryNodeView>) -> Seq<Action> {
    if history.len() > 0 && history.last() is Street {
        leduc_opening()
    } else {
        match latest_or_check(history) {
            Action::Check => leduc_opening(),
            Action::Bet(_) => seq![
                Action::Fold,
                Action::Call,
                Action::Raise(Bet::C(2)),
                Action::Raise(Bet::C(4)),
            ],
            Action::Raise(_) => seq![Action::Fold, Action::Call],
            _ => Seq::empty(),
        }
    }
}

/// The deck of Leduc poker: two diamonds each of rank 1, 2 and 3.
pub open spec fn leduc_deck() -> Seq<Card> {
    seq![
        Card::diamond(1),
        Card::diamond(1),
        Card::diamond(2),
        Card::diamond(2),
        Card::diamond(3),
        Card::diamond(3),
    ]
}

/// The deal that a shuffled deck gives: its last two cards in position, the
/// two before out of position, the others left.
pub open spec fn leduc_deal_from(deck: Seq<Card>) -> DealView {
    DealView {
        cards: PlayerCards::of_hands(
            HoleCards::ordered(deck[deck.len() - 1], deck[deck.len() - 2]),
            HoleCards::ordered(deck[deck.len() - 3], deck[deck.len() - 4]),
        ),
        weights: (Weight::full(), Weight::full()),
        deck: deck.subrange(0, deck.len() - 4),
        history: Seq::empty(),
    }
}

/// Leduc poker.
#[derive(Clone, Debug)]
pub struct Leduc {}

impl Leduc {
    /// The game.
    pub fn new() -> (game: Leduc)
        ensures
            game.wf(),
    {
        Leduc {  }
    }

    /// The actions that open a betting round.
    fn opening() -> (actions: Vec<Action>)
        ensures
            actions@ == leduc_opening(),
    {
        let mut actions: Vec<Action> = Vec::new();
        actions.push(Action::Check);
        actions.push(Action::Bet(Bet::C(2)));
        actions.push(Action::Bet(Bet::C(4)));
        assert(actions@ =~= leduc_opening());
        actions
    }

    /// The deal that a shuffled deck gives.
    pub fn deal_from(deck: Deck) -> (deal: Deal)
        requires
            deck@.len() >= 4,
        ensures
            deal@ == leduc_deal_from(deck@),
    {
        let mut deck = deck;
        let ghost before = deck@;
        let card1 = deck.draw().unwrap();
        let card2 = deck.draw().unwrap();
        let card3 = deck.draw().unwrap();
        let card4 = deck.draw().unwrap();
        assert(deck@ =~= before.subrange(0, before.len() - 4));
        let ip_cards = HoleCards::in_order(card1, card2);
        let oop_cards = HoleCards::in_order(card3, card4);
        let cards = PlayerCards::new(ip_cards, oop_cards);
        Deal::new(cards, deck, (Weight::one(), Weight::one()), History::new())
    }
}

impl Game for Leduc {
    open spec fn streets(&self) -> nat {
        2
    }

    open spec fn cards_of_deck(&self) -> Seq<Card> {
        leduc_deck()
    }

    open spec fn first_history(&self) -> Seq<HistoryNodeView> {
        Seq::empty()
    }

    open spec fn accepts(&self, history: Seq<HistoryNodeView>) -> bool {
        true
    }

    open spec fn actions_after(&self, history: Seq<HistoryNodeView>) -> Seq<Action> {
        leduc_actions(history)
    }

    open spec fn all_deals(&self) -> Seq<DealView> {
        deals_from(leduc_deck(), Seq::empty(), 0, 0, 0, 0)
    }

    open spec fn wf(&self) -> bool {
        true
    }

    proof fn lemma_setup(&self) {
    }

    proof fn lemma_accepts_action(&self, history: Seq<HistoryNodeView>, action: Action) {
    }

    proof fn lemma_accepts_street(&self, history: Seq<HistoryNodeView>, card: Card) {
    }

    fn is_set_up(&self) -> (ok: bool) {
        true
    }

    fn is_accepted(&self, history: &History) -> (ok: bool) {
        true
    }

    fn num_streets(&self) -> (n: u8) {
        2
    }

    fn deck(&self) -> (deck: Deck) {
        let mut cards: Vec<Card> = Vec::new();
        cards.push(Card::new(1, Suit::Diamonds));
        cards.push(Card::new(1, Suit::Diamonds));
        cards.push(Card::new(2, Suit::Diamonds));
        cards.push(Card::new(2, Suit::Diamonds));
        cards.push(Card::new(3, Suit::Diamonds));
        cards.push(Card::new(3, Suit::Diamonds));
        assert(cards@ =~= leduc_deck());
        Deck::new_from_cards(cards)
    }

    fn legal_actions(&self, history: &History) -> (actions: Vec<Action>) {
        let last = match history.last() {
            Some(node) => {
                if node.is_street() {
                    return Leduc::opening();
                }
                node.get_action()
            },
            None => Action::Check,
        };
        let mut actions: Vec<Action> = Vec::new();
        match last {
            Action::Check => Leduc::opening(),
            Action::Bet(_) => {
                actions.push(Action::Fold);
                actions.push(Action::Call);
                actions.push(Action::Raise(Bet::C(2)));
                actions.push(Action::Raise(Bet::C(4)));
                assert(actions@ =~= leduc_actions(history@));
                actions
            },
            Action::Raise(_) => {
                actions.push(Action::Fold);
                actions.push(Action::Call);
                assert(actions@ =~= leduc_actions(history@));
                actions
            },
            _ => {
                assert(actions@ =~= leduc_actions(history@));
                actions
            },
        }
    }

    fn legal_first_actions(&self) -> (actions: Vec<Action>) {
        self.legal_actions(&History::new())
    }

    fn generate_deals(&self) -> (deals: Vec<Deal>) {
        deals_of_deck(&self.deck(), &History::new())
    }

    /// Deals two cards to each player from a shuffled deck.
    fn deal(&self, rng: &mut StdRng) -> (deal: Deal)
        ensures
            exists|shuffled: Seq<Card>|
                shuffled.to_multiset() == leduc_deck().to_multiset() && deal@
                    == #[trigger] leduc_deal_from(shuffled),
    {
        let deck = self.shuffled_cards(rng);
        proof {
            lemma_shuffled_playable(deck@, leduc_deck());
            assert(playable(deck@[5]));
            assert(playable(deck@[4]));
            assert(playable(deck@[3]));
            assert(playable(deck@[2]));
            let rest = deck@.subrange(0, 2);
            assert forall|i: int| 0 <= i < rest.len() implies playable(#[trigger] rest[i]) by {
                assert(playable(deck@[i]));
            }
            PlayerCards::lemma_of_hands(
                HoleCards::ordered(deck@[5], deck@[4]),
                HoleCards::ordered(deck@[3], deck@[2]),
            );
        }
        Leduc::deal_from(deck)
    }
}

/// How far a betting round of Leduc poker has to go at most: five steps at
/// its start, four after a check, three after a bet, two after a raise.
pub open spec fn leduc_stage(history: Seq<HistoryNodeView>) -> nat {
    if history.len() == 0 || history.last() is Street {
        5
    } else {
        match history.last().action() {
            Action::Check => 4,
            Action::Bet(_) => 3,
            Action::Raise(_) => 2,
            _ => 0,
        }
    }
}

/// A bound on the number of steps that can follow a history of Leduc poker:
/// ten for each street that is still to come, and the steps of the betting
/// round.
pub open spec fn leduc_remaining(history: Seq<HistoryNodeView>) -> nat {
    let streets_to_come = (2 - current_street(history).number()) as nat;
    if hand_is_over(history, 2) {
        0
    } else if closes_betting(history) {
        10 * streets_to_come
    } else {
        10 * streets_to_come + leduc_stage(history)
    }
}

impl FiniteGame for Leduc {
    open spec fn remaining(&self, history: Seq<HistoryNodeView>) -> nat {
        leduc_remaining(history)
    }

    proof fn lemma_action_step(&self, history: Seq<HistoryNodeView>, i: int) {
        let action = leduc_actions(history)[i];
        let next = history.push(HistoryNodeView::Action(action));
        lemma_street_after_action(history, action);
        assert(next.last().action() == action);
        assert(!(next.last() is Street));
        if history.len() > 0 {
            assert(next[next.len() - 2] == history.last());
        }
    }

    proof fn lemma_street_step(&self, history: Seq<HistoryNodeView>, card: Card) {
        let street = current_street(history).next(card);
        let next = history.push(HistoryNodeView::Street(street));
        lemma_street_after_street(history, street);
        assert(next.last() is Street);
        assert(next.last().action() == Action::Absent);
        if history.len() > 0 {
            assert(next[next.len() - 2] == history.last());
        }
    }
}

} // verus!
