//! Kuhn poker: three cards, one card each, one round of betting.

use vstd::prelude::*;
use rand::rngs::StdRng;
use crate::action::Action;
use crate::bet::Bet;
use crate::card::Card;
use crate::card_array::{all_playable, playable};
use crate::deal::{deals_view, lemma_deals_view_push, Deal, DealView};
use crate::deck::{lemma_shuffled_playable, Deck};
use crate::game::Game;
use crate::history::{lemma_street_after_action, History};
use crate::node::hand_is_over;
use crate::tree_walker::FiniteGame;
use crate::history_node::HistoryNodeView;
use crate::hole_cards::HoleCards;
use crate::player_cards::PlayerCards;
use crate::suit::Suit;
use crate::weight::Weight;

verus! {

/// The action that the player to act answers: the latest action, and a check
/// where nothing has happened yet.
pub open spec fn latest_or_check(history: Seq<HistoryNodeView>) -> Action {
    if history.len() == 0 {
        Action::Check
    } else {
        history.last().action()
    }
}

/// The actions of Kuhn poker: check or bet half the pot at the start and
/// after a check, fold or call after a bet, and nothing else.
pub open spec fn kuhn_actions(history: Seq<HistoryNodeView>) -> Seq<Action> {
    match latest_or_check(history) {
        Action::Check => seq![Action::Check, Action::Bet(Bet::P(50))],
        Action::Bet(Bet::P(50)) => seq![Action::Fold, Action::Call],
        _ => Seq::empty(),
    }
}

/// The deck of Kuhn poker: the diamonds of rank 1, 2 and 3.
pub open spec fn kuhn_deck() -> Seq<Card> {
    seq![Card::diamond(1), Card::diamond(2), Card::diamond(3)]
}

/// The hand of Kuhn poker that stands for one card of the given rank: that
/// card twice.
pub open spec fn kuhn_hand(rank: u8) -> HoleCards {
    HoleCards { card1: Card::diamond(rank), card2: Card::diamond(rank) }
}

/// The deal in which the player in position holds `ip`, the player out of
/// position `oop`, and `deck` is left.
pub open spec fn kuhn_deal(ip: u8, oop: u8, deck: Seq<Card>) -> DealView {
    DealView {
        cards: PlayerCards::of_hands(kuhn_hand(ip), kuhn_hand(oop)),
        weights: (Weight::full(), Weight::full()),
        deck,
        history: Seq::empty(),
    }
}

/// The six deals of Kuhn poker: each pair of different cards, the higher
/// card first in position, then out of position.
pub open spec fn kuhn_deals() -> Seq<DealView> {
    seq![
        kuhn_deal(3, 2, seq![Card::diamond(1)]),
        kuhn_deal(2, 3, seq![Card::diamond(1)]),
        kuhn_deal(3, 1, Seq::empty()),
        kuhn_deal(1, 3, Seq::empty()),
        kuhn_deal(2, 1, Seq::empty()),
        kuhn_deal(1, 2, Seq::empty()),
    ]
}

/// The deals of Kuhn poker hold cards that can be part of hands.
pub proof fn lemma_kuhn_deal_playable(ip: u8, oop: u8, deck: Seq<Card>)
    requires
        1 <= ip <= 14,
        1 <= oop <= 14,
        all_playable(deck),
    ensures
        kuhn_deal(ip, oop, deck).playable(),
{
    PlayerCards::lemma_of_hands(kuhn_hand(ip), kuhn_hand(oop));
}

/// The deal that a shuffled deck gives: its last card in position, the card
/// before out of position, the others left.
pub open spec fn kuhn_deal_from(deck: Seq<Card>) -> DealView {
    kuhn_deal(
        deck[deck.len() - 1].rank,
        deck[deck.len() - 2].rank,
        deck.subrange(0, deck.len() - 2),
    )
}

/// Kuhn poker.
#[derive(Clone, Debug)]
pub struct Kuhn {}

impl Kuhn {
    /// The game.
    pub fn new() -> (game: Kuhn)
        ensures
            game.wf(),
    {
        Kuhn {  }
    }

    /// Adds the two deals of a pair of cards: the first card in position,
    /// then out of position.
    fn push_pair(deals: &mut Vec<Deal>, first: u8, second: u8, deck: &Deck)
        requires
            1 <= first <= 14,
            1 <= second <= 14,
        ensures
            deals_view(final(deals)@) == deals_view(old(deals)@).push(
                kuhn_deal(first, second, deck@),
            ).push(kuhn_deal(second, first, deck@)),
    {
        let cards1 = HoleCards::new_with_ranks(first, first);
        let cards2 = HoleCards::new_with_ranks(second, second);
        let weights = (Weight::one(), Weight::one());
        let deal1 = Deal::new(PlayerCards::new(cards1, cards2), deck.clone(), weights, History::new());
        let deal2 = Deal::new(PlayerCards::new(cards2, cards1), deck.clone(), weights, History::new());
        proof {
            lemma_deals_view_push(deals@, deal1);
            lemma_deals_view_push(deals@.push(deal1), deal2);
        }
        deals.push(deal1);
        deals.push(deal2);
    }

    /// The deal that a shuffled deck gives.
    pub fn deal_from(deck: Deck) -> (deal: Deal)
        requires
            deck@.len() >= 2,
            forall|i: int| 0 <= i < deck@.len() ==> 1 <= (#[trigger] deck@[i]).rank <= 14,
        ensures
            deal@ == kuhn_deal_from(deck@),
    {
        let mut deck = deck;
        let ghost before = deck@;
        let card1 = deck.draw().unwrap();
        let card2 = deck.draw().unwrap();
        assert(card1 == before[before.len() - 1]);
        assert(card2 == before[before.len() - 2]);
        assert(deck@ =~= before.subrange(0, before.len() - 2));
        let ip_cards = HoleCards::new_with_ranks(card1.rank, card1.rank);
        let oop_cards = HoleCards::new_with_ranks(card2.rank, card2.rank);
        let cards = PlayerCards::new(ip_cards, oop_cards);
        Deal::new(cards, deck, (Weight::one(), Weight::one()), History::new())
    }
}

impl Game for Kuhn {
    open spec fn streets(&self) -> nat {
        1
    }

    open spec fn cards_of_deck(&self) -> Seq<Card> {
        kuhn_deck()
    }

    open spec fn first_history(&self) -> Seq<HistoryNodeView> {
        Seq::empty()
    }

    open spec fn accepts(&self, history: Seq<HistoryNodeView>) -> bool {
        true
    }

    open spec fn actions_after(&self, history: Seq<HistoryNodeView>) -> Seq<Action> {
        kuhn_actions(history)
    }

    open spec fn all_deals(&self) -> Seq<DealView> {
        kuhn_deals()
    }

    open spec fn wf(&self) -> bool {
        true
    }

    proof fn lemma_setup(&self) {
    }

    proof fn lemma_accepts_action(&self, history: Seq<HistoryNodeView>, action: Action) {
    }

    proof fn lemma_accepts_street(&self, history: Seq<HistoryNodeView>, card: Card) {
    }

    fn is_set_up(&self) -> (ok: bool) {
        true
    }

    fn is_accepted(&self, history: &History) -> (ok: bool) {
        true
    }

    fn num_streets(&self) -> (n: u8) {
        1
    }

    fn deck(&self) -> (deck: Deck) {
        let mut cards: Vec<Card> = Vec::new();
        cards.push(Card::new(1, Suit::Diamonds));
        cards.push(Card::new(2, Suit::Diamonds));
        cards.push(Card::new(3, Suit::Diamonds));
        assert(cards@ =~= kuhn_deck());
        Deck::new_from_cards(cards)
    }

    fn legal_actions(&self, history: &History) -> (actions: Vec<Action>) {
        // At the root there is no history.
        let last = match history.last() {
            Some(node) => node.get_action(),
            None => Action::Check,
        };
        let mut actions: Vec<Action> = Vec::new();
        match last {
            Action::Check => {
                actions.push(Action::Check);
                actions.push(Action::Bet(Bet::P(50)));
                assert(actions@ =~= seq![Action::Check, Action::Bet(Bet::P(50))]);
            },
            Action::Bet(Bet::P(50)) => {
                actions.push(Action::Fold);
                actions.push(Action::Call);
                assert(actions@ =~= seq![Action::Fold, Action::Call]);
            },
            _ => {
                assert(actions@ =~= Seq::<Action>::empty());
            },
        }
        actions
    }

    fn legal_first_actions(&self) -> (actions: Vec<Action>) {
        self.legal_actions(&History::new())
    }

    fn generate_deals(&self) -> (deals: Vec<Deal>) {
        let mut deals: Vec<Deal> = Vec::new();
        let mut left: Vec<Card> = Vec::new();
        left.push(Card::new(1, Suit::Diamonds));
        let low = Deck::new_from_cards(left);
        let none = Deck::new_empty();
        Kuhn::push_pair(&mut deals, 3, 2, &low);
        Kuhn::push_pair(&mut deals, 3, 1, &none);
        Kuhn::push_pair(&mut deals, 2, 1, &none);
        proof {
            assert(low@ =~= seq![Card::diamond(1)]);
            assert(deals_view(deals@) =~= kuhn_deals());
            assert forall|i: int| 0 <= i < deals@.len() implies (#[trigger] deals@[i])@.history
                == self.first_history() && deals@[i]@.playable() by {
                assert(deals_view(deals@)[i] == deals@[i]@);
                assert(deals@[i]@ == kuhn_deals()[i]);
                lemma_kuhn_deal_playable(3, 2, seq![Card::diamond(1)]);
                lemma_kuhn_deal_playable(2, 3, seq![Card::diamond(1)]);
                lemma_kuhn_deal_playable(3, 1, Seq::empty());
                lemma_kuhn_deal_playable(1, 3, Seq::empty());
                lemma_kuhn_deal_playable(2, 1, Seq::empty());
                lemma_kuhn_deal_playable(1, 2, Seq::empty());
            }
        }
        deals
    }

    /// Deals one card to each player from a shuffled deck.
    fn deal(&self, rng: &mut StdRng) -> (deal: Deal)
        ensures
            exists|shuffled: Seq<Card>|
                shuffled.to_multiset() == kuhn_deck().to_multiset() && deal@
                    == #[trigger] kuhn_deal_from(shuffled),
    {
        let deck = self.shuffled_cards(rng);
        proof {
            lemma_shuffled_playable(deck@, kuhn_deck());
            assert(playable(deck@[2]));
            assert(playable(deck@[1]));
            assert(playable(deck@[0]));
            assert(kuhn_deck().contains(deck@[2]));
            assert(kuhn_deck().contains(deck@[1]));
            assert(deck@.subrange(0, 1) =~= seq![deck@[0]]);
            lemma_kuhn_deal_playable(deck@[2].rank, deck@[1].rank, deck@.subrange(0, 1));
        }
        Kuhn::deal_from(deck)
    }
}

/// A bound on the number of steps that can follow a history of Kuhn poker:
/// three at the start, two after a check, one after a bet.
pub open spec fn kuhn_remaining(history: Seq<HistoryNodeView>) -> nat {
    if hand_is_over(history, 1) {
        0
    } else if history.len() == 0 {
        3
    } else {
        match history.last().action() {
            Action::Check => 2,
            Action::Bet(Bet::P(50)) => 1,
            _ => 0,
        }
    }
}

impl FiniteGame for Kuhn {
    open spec fn remaining(&self, history: Seq<HistoryNodeView>) -> nat {
        kuhn_remaining(history)
    }

    proof fn lemma_action_step(&self, history: Seq<HistoryNodeView>, i: int) {
        let action = kuhn_actions(history)[i];
        let next = history.push(HistoryNodeView::Action(action));
        lemma_street_after_action(history, action);
        assert(next.last().action() == action);
        if history.len() > 0 {
            assert(next[next.len() - 2] == history.last());
        }
    }

    proof fn lemma_street_step(&self, history: Seq<HistoryNodeView>, card: Card) {
    }
}

} // verus!
