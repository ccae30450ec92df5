//! What a game has to say for the solver to play it.

use vstd::prelude::*;
use rand::rngs::StdRng;
use crate::action::Action;
use crate::card::Card;
use crate::card_array::{all_playable, playable};
use crate::deal::{deals_view, lemma_deals_view_push, Deal, DealView};
use crate::deck::Deck;
use crate::hand_rank::{hand_cards, player_wins, showdown};
use crate::history::{all_printable, current_street, last_action, History};
use crate::history_node::HistoryNodeView;
use crate::hole_cards::HoleCards;
use crate::node::Node;
use crate::player_cards::PlayerCards;
use crate::weight::Weight;

verus! {

/// The cards at the positions of a run other than the four given ones, in
/// their order.
pub open spec fn without_positions(cards: Seq<Card>, a: int, b: int, c: int, d: int) -> Seq<Card>
    decreases cards.len(),
{
    if cards.len() == 0 {
        cards
    } else {
        let n = cards.len() - 1;
        if n == a || n == b || n == c || n == d {
            without_positions(cards.drop_last(), a, b, c, d)
        } else {
            without_positions(cards.drop_last(), a, b, c, d).push(cards.last())
        }
    }
}

/// The deal in which the player in position holds the cards at positions `a`
/// and `b` of the deck and the player out of position those at `c` and `d`;
/// the other cards stay in the deck.
pub open spec fn deal_at(
    deck: Seq<Card>,
    history: Seq<HistoryNodeView>,
    a: int,
    b: int,
    c: int,
    d: int,
) -> DealView {
    DealView {
        cards: PlayerCards::of_hands(
            HoleCards::ordered(deck[a], deck[b]),
            HoleCards::ordered(deck[c], deck[d]),
        ),
        weights: (Weight::full(), Weight::full()),
        deck: without_positions(deck, a, b, c, d),
        history,
    }
}

/// Whether four positions differ from one another.
pub open spec fn distinct_positions(a: int, b: int, c: int, d: int) -> bool {
    a != b && a != c && a != d && b != c && b != d && c != d
}

/// The deals of four different positions of the deck, from the positions
/// `a`, `b`, `c`, `d` onwards: the positions count up like the digits of a
/// number, the last one fastest.
pub open spec fn deals_from(
    deck: Seq<Card>,
    history: Seq<HistoryNodeView>,
    a: int,
    b: int,
    c: int,
    d: int,
) -> Seq<DealView>
    decreases deck.len() - a, deck.len() - b, deck.len() - c, deck.len() - d,
{
    let n = deck.len() as int;
    if a < 0 || b < 0 || c < 0 || d < 0 || a >= n || b >= n || c >= n || d >= n {
        Seq::empty()
    } else {
        let first = if distinct_positions(a, b, c, d) {
            seq![deal_at(deck, history, a, b, c, d)]
        } else {
            Seq::empty()
        };
        let rest = if d + 1 < n {
            deals_from(deck, history, a, b, c, d + 1)
        } else if c + 1 < n {
            deals_from(deck, history, a, b, c + 1, 0)
        } else if b + 1 < n {
            deals_from(deck, history, a, b + 1, 0, 0)
        } else {
            deals_from(deck, history, a + 1, 0, 0, 0)
        };
        first + rest
    }
}

/// The cards of a vector at the positions other than the four given ones.
pub fn cards_without(cards: &Vec<Card>, a: usize, b: usize, c: usize, d: usize) -> (rest: Vec<Card>)
    ensures
        rest@ == without_positions(cards@, a as int, b as int, c as int, d as int),
        all_playable(cards@) ==> all_playable(rest@),
        rest@.len() <= cards@.len(),
{
    let mut rest: Vec<Card> = Vec::new();
    let mut i: usize = 0;
    proof {
        assert(cards@.subrange(0, 0) =~= Seq::<Card>::empty());
    }
    while i < cards.len()
        invariant
            i <= cards.len(),
            all_playable(cards@) ==> all_playable(rest@),
            rest@.len() <= i,
            rest@ == without_positions(
                cards@.subrange(0, i as int),
                a as int,
                b as int,
                c as int,
                d as int,
            ),
        decreases cards.len() - i,
    {
        proof {
            assert(cards@.subrange(0, i + 1).drop_last() =~= cards@.subrange(0, i as int));
            if all_playable(cards@) {
                assert(playable(cards@[i as int]));
            }
        }
        if i != a && i != b && i != c && i != d {
            rest.push(cards[i]);
        }
        i += 1;
    }
    assert(cards@.subrange(0, i as int) =~= cards@);
    rest
}

/// The deals of four different cards of a deck, two for each player, in the
/// order of their positions in the deck: every choice of positions for the
/// first card in position, then for the second, then for the first card out
/// of position, then for the second.
pub fn deals_of_deck(deck: &Deck, history: &History) -> (deals: Vec<Deal>)
    ensures
        deals_view(deals@) == deals_from(deck@, history@, 0, 0, 0, 0),
        forall|i: int| 0 <= i < deals@.len() ==> (#[trigger] deals@[i])@.history == history@,
        all_playable(deck@) ==> forall|i: int|
            0 <= i < deals@.len() ==> (#[trigger] deals@[i])@.playable(),
{
    let cards = deck.to_vec();
    let n = cards.len();
    let mut deals: Vec<Deal> = Vec::new();
    let ghost all = deals_from(deck@, history@, 0, 0, 0, 0);
    let mut a: usize = 0;
    let mut b: usize = 0;
    let mut c: usize = 0;
    let mut d: usize = 0;
    assert(deals_view(deals@) + all =~= all);
    while a < n
        invariant
            cards@ == deck@,
            n == cards@.len(),
            a <= n,
            a < n ==> b < n && c < n && d < n,
            all == deals_from(deck@, history@, 0, 0, 0, 0),
            deals_view(deals@) + deals_from(
                deck@,
                history@,
                a as int,
                b as int,
                c as int,
                d as int,
            ) == all,
            forall|i: int| 0 <= i < deals@.len() ==> (#[trigger] deals@[i])@.history == history@,
            all_playable(deck@) ==> forall|i: int|
                0 <= i < deals@.len() ==> (#[trigger] deals@[i])@.playable(),
        decreases n - a, n - b, n - c, n - d,
    {
        let ghost before = deals_view(deals@);
        let ghost rest = if d + 1 < n {
            deals_from(deck@, history@, a as int, b as int, c as int, d + 1)
        } else if c + 1 < n {
            deals_from(deck@, history@, a as int, b as int, c + 1, 0)
        } else if b + 1 < n {
            deals_from(deck@, history@, a as int, b + 1, 0, 0)
        } else {
            deals_from(deck@, history@, a + 1, 0, 0, 0)
        };
        if a != b && a != c && a != d && b != c && b != d && c != d {
            proof {
                if all_playable(deck@) {
                    assert(playable(cards@[a as int]));
                    assert(playable(cards@[b as int]));
                    assert(playable(cards@[c as int]));
                    assert(playable(cards@[d as int]));
                }
            }
            let ip_cards = HoleCards::in_order(cards[a], cards[b]);
            let oop_cards = HoleCards::in_order(cards[c], cards[d]);
            let deal = Deal::new(
                PlayerCards::new(ip_cards, oop_cards),
                Deck::new_from_cards(cards_without(&cards, a, b, c, d)),
                (Weight::one(), Weight::one()),
                history.clone(),
            );
            proof {
                lemma_deals_view_push(deals@, deal);
                assert(deal@ == deal_at(
                    deck@,
                    history@,
                    a as int,
                    b as int,
                    c as int,
                    d as int,
                ));
                assert(before.push(deal@) + rest =~= before + (seq![deal@] + rest));
            }
            deals.push(deal);
        } else {
            assert(before + (Seq::<DealView>::empty() + rest) =~= before + rest);
        }
        if d + 1 < n {
            d += 1;
        } else if c + 1 < n {
            c += 1;
            d = 0;
        } else if b + 1 < n {
            b += 1;
            c = 0;
            d = 0;
        } else {
            a += 1;
            b = 0;
            c = 0;
            d = 0;
        }
    }
    assert(deals_view(deals@) + Seq::<DealView>::empty() =~= deals_view(deals@));
    deals
}

/// The rules of a two-player poker game.
pub trait Game: Sized {
    /// The number of streets of the game.
    spec fn streets(&self) -> nat;

    /// The cards of the game, in the order of a fresh deck.
    spec fn cards_of_deck(&self) -> Seq<Card>;

    /// The history from which every hand starts.
    spec fn first_history(&self) -> Seq<HistoryNodeView>;

    /// Whether the game can say which actions follow a history.
    spec fn accepts(&self, history: Seq<HistoryNodeView>) -> bool;

    /// The actions that the player to act can take after a history, in the
    /// order in which strategies list them.
    spec fn actions_after(&self, history: Seq<HistoryNodeView>) -> Seq<Action>;

    /// The deals of the game, in the order in which the full traversal
    /// visits them.
    spec fn all_deals(&self) -> Seq<DealView>;

    /// Whether the game is set up with cards that can be part of hands.
    spec fn wf(&self) -> bool;

    /// A game that is set up well has a deck of cards that can be part of
    /// hands, and accepts its first history, which can be rendered and is on
    /// one of its streets with a board that leaves room for the cards of the
    /// streets to come.
    proof fn lemma_setup(&self)
        requires
            self.wf(),
        ensures
            1 <= self.streets() <= 4,
            all_playable(self.cards_of_deck()),
            self.accepts(self.first_history()),
            all_printable(self.first_history()),
            1 <= current_street(self.first_history()).number() <= self.streets(),
            all_playable(current_street(self.first_history()).board()),
            current_street(self.first_history()).board().len() + (self.streets()
                - current_street(self.first_history()).number()) <= 5,
    ;

    /// A history that the game accepts is accepted with one more action.
    proof fn lemma_accepts_action(&self, history: Seq<HistoryNodeView>, action: Action)
        requires
            self.wf(),
            self.accepts(history),
        ensures
            self.accepts(history.push(HistoryNodeView::Action(action))),
    ;

    /// A history that the game accepts is accepted on its next street.
    proof fn lemma_accepts_street(&self, history: Seq<HistoryNodeView>, card: Card)
        requires
            self.wf(),
            self.accepts(history),
            current_street(history).can_advance(),
        ensures
            self.accepts(
                history.push(HistoryNodeView::Street(current_street(history).next(card))),
            ),
    ;

    /// Whether the game is set up with cards that can be part of hands.
    fn is_set_up(&self) -> (ok: bool)
        ensures
            ok == self.wf(),
    ;

    /// Whether the game can say which actions follow a history.
    fn is_accepted(&self, history: &History) -> (ok: bool)
        ensures
            ok == self.accepts(history@),
    ;

    /// A fresh deck.
    fn deck(&self) -> (deck: Deck)
        ensures
            deck@ == self.cards_of_deck(),
    ;

    /// The number of streets.
    fn num_streets(&self) -> (n: u8)
        ensures
            n == self.streets(),
    ;

    /// The actions that the player to act can take after a history.
    fn legal_actions(&self, history: &History) -> (actions: Vec<Action>)
        requires
            self.accepts(history@),
        ensures
            actions@ == self.actions_after(history@),
    ;

    /// The actions that the first player to act can take at the start.
    fn legal_first_actions(&self) -> (actions: Vec<Action>)
        ensures
            actions@ == self.actions_after(self.first_history()),
    ;

    /// Deals a hand at random. Whatever the generator gives, the hand starts
    /// from the first history of the game with cards that can be part of
    /// hands.
    fn deal(&self, rng: &mut StdRng) -> (deal: Deal)
        requires
            self.wf(),
        ensures
            deal@.history == self.first_history(),
            deal@.playable(),
    ;

    /// A fresh deck, shuffled and turned over: the cards of the game, each
    /// as often as in a fresh deck, in some order.
    fn shuffled_cards(&self, rng: &mut StdRng) -> (cards: Deck)
        ensures
            cards@.to_multiset() == self.cards_of_deck().to_multiset(),
            cards@.len() == self.cards_of_deck().len(),
    {
        let mut cards = self.deck();
        cards.shuffle(rng);
        proof {
            cards@.lemma_reverse_to_multiset();
        }
        cards.reverse();
        cards
    }

    /// Who wins at the end of a hand, as the player to act sees it: that
    /// player after a fold of the other, else whoever wins the showdown, and
    /// nobody where the hands are equal.
    fn player_wins(&self, node: &Node) -> (won: Option<bool>)
        requires
            node.showdown_ready(),
            last_action(node.history@) == Action::Fold || last_action(node.history@)
                == Action::Check || last_action(node.history@) == Action::Call,
        ensures
            won == (if last_action(node.history@) == Action::Fold {
                Some(true)
            } else {
                showdown(
                    hand_cards(node.cards.of(node.player), current_street(node.history@).board()),
                    hand_cards(
                        node.cards.of(node.player.other()),
                        current_street(node.history@).board(),
                    ),
                )
            }),
    {
        let last = node.history.last_action();
        match last {
            Action::Fold => Some(true),
            _ => player_wins(node.player_cards(), node.opponent_cards(), node.board()),
        }
    }

    /// The deals of the game, in the order in which the full traversal
    /// visits them.
    fn generate_deals(&self) -> (deals: Vec<Deal>)
        requires
            self.wf(),
        ensures
            deals_view(deals@) == self.all_deals(),
            forall|i: int|
                0 <= i < deals@.len() ==> (#[trigger] deals@[i])@.history == self.first_history()
                    && deals@[i]@.playable(),
    ;
}

} // verus!
