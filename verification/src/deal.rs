//! The outcome of chance at the start of a hand.

use vstd::prelude::*;
use crate::card::Card;
use crate::card_array::{all_playable, playable};
use crate::deck::Deck;
use crate::history::History;
use crate::history_node::HistoryNodeView;
use crate::hole_cards::HoleCards;
use crate::player::Player;
use crate::player_cards::PlayerCards;
use crate::weight::Weight;

verus! {

/// What chance decides before the first action: the hole cards of both
/// players, the weights of these hands in the players' ranges (in position
/// first), the cards that can still come, and the history that play starts
/// from.
#[derive(Debug)]
pub struct Deal {
    pub cards: PlayerCards,
    pub weights: (Weight, Weight),
    pub deck: Deck,
    pub history: History,
}

/// The mathematical value of a `Deal`.
pub struct DealView {
    pub cards: PlayerCards,
    pub weights: (Weight, Weight),
    pub deck: Seq<Card>,
    pub history: Seq<HistoryNodeView>,
}

impl DealView {
    /// The deal of games that deal nothing at random, with the given
    /// history: a pair of diamonds of rank 1 in position, the diamonds of rank
    /// 2 and 1 out of position, full weights, and no deck.
    pub open spec fn fixed(history: Seq<HistoryNodeView>) -> DealView {
        DealView {
            cards: PlayerCards::of_hands(
                HoleCards::ordered(Card::diamond(1), Card::diamond(1)),
                HoleCards::ordered(Card::diamond(2), Card::diamond(1)),
            ),
            weights: (Weight::full(), Weight::full()),
            deck: Seq::empty(),
            history,
        }
    }

    /// Whether the cards of the deal can be part of hands: rank from 1 to 14
    /// and a real suit, for the hole cards and the deck.
    pub open spec fn playable(self) -> bool {
        &&& playable(self.cards.of(Player::IP).card1)
        &&& playable(self.cards.of(Player::IP).card2)
        &&& playable(self.cards.of(Player::OOP).card1)
        &&& playable(self.cards.of(Player::OOP).card2)
        &&& all_playable(self.deck)
    }
}

/// The mathematical values of a run of deals.
pub open spec fn deals_view(deals: Seq<Deal>) -> Seq<DealView> {
    deals.map_values(|deal: Deal| deal@)
}

/// The values of a run of deals with one more deal at its end.
pub proof fn lemma_deals_view_push(deals: Seq<Deal>, deal: Deal)
    ensures
        deals_view(deals.push(deal)) == deals_view(deals).push(deal@),
{
    assert(deals_view(deals.push(deal)) =~= deals_view(deals).push(deal@));
}

impl View for Deal {
    type V = DealView;

    open spec fn view(&self) -> DealView {
        DealView {
            cards: self.cards,
            weights: self.weights,
            deck: self.deck@,
            history: self.history@,
        }
    }
}

impl Clone for Deal {
    fn clone(&self) -> (deal: Deal)
        ensures
            deal@ == self@,
    {
        Deal {
            cards: self.cards,
            weights: self.weights,
            deck: self.deck.clone(),
            history: self.history.clone(),
        }
    }
}

impl Deal {
    /// The deal with the given parts.
    pub fn new(cards: PlayerCards, deck: Deck, weights: (Weight, Weight), history: History) -> (deal:
        Deal)
        ensures
            deal@ == (DealView { cards, weights, deck: deck@, history: history@ }),
    {
        Deal { cards, weights, deck, history }
    }

    /// A deal for games that deal nothing at random: low diamonds for both
    /// players, full weights, no deck, and the empty history.
    pub fn new_default() -> (deal: Deal)
        ensures
            deal@ == DealView::fixed(Seq::empty()),
    {
        Deal {
            cards: PlayerCards::new(
                HoleCards::new_with_ranks(1, 1),
                HoleCards::new_with_ranks(2, 1),
            ),
            weights: (Weight::one(), Weight::one()),
            deck: Deck::new_empty(),
            history: History::new(),
        }
    }
}

} // verus!
