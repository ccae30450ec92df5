//! Hold'em from the flop onwards, with a menu of bet sizes for each street.

use vstd::prelude::*;
use rand::rngs::StdRng;
use crate::action::Action;
use crate::bet::Bet;
use crate::card::Card;
use crate::card_array::{all_playable, playable};
use crate::deal::{deals_view, lemma_deals_view_push, Deal, DealView};
use crate::deck::{standard_deck, without_card, Deck};
use crate::game::Game;
use crate::history::{
    current_street, lemma_street_after_action, lemma_street_after_street, History,
};
use crate::kuhn::latest_or_check;
use crate::history_node::HistoryNodeView;
use crate::hole_cards::HoleCards;
use crate::player_cards::PlayerCards;
use crate::postflop_holdem_config::PostflopHoldemConfig;
use crate::range::{with_entry, with_expanded, with_hands, Entry};
use crate::street::{Street, StreetView};
use crate::weight::Weight;

verus! {

/// The bets of the given sizes.
pub open spec fn bets_of(sizes: Seq<Bet>) -> Seq<Action> {
    sizes.map_values(|size: Bet| Action::Bet(size))
}

/// The raises of the given sizes.
pub open spec fn raises_of(sizes: Seq<Bet>) -> Seq<Action> {
    sizes.map_values(|size: Bet| Action::Raise(size))
}

/// Whether every action of a run is a bet.
pub open spec fn all_bets(actions: Seq<Action>) -> bool {
    forall|i: int| 0 <= i < actions.len() ==> (#[trigger] actions[i]) is Bet
}

/// The raises by the sizes of the given bets.
pub open spec fn raises_for(bets: Seq<Action>) -> Seq<Action> {
    bets.map_values(
        |bet: Action|
            match bet {
                Action::Bet(size) => Action::Raise(size),
                other => other,
            },
    )
}

/// Whether a hand can be dealt: its two cards can be part of hands.
pub open spec fn dealable(hand: HoleCards) -> bool {
    playable(hand.card1) && playable(hand.card2)
}

/// Whether a hand of a range names cards or a class of cards: the ranks are
/// those of cards, and the suits are real suits or one marker for both cards.
pub open spec fn nameable(hand: HoleCards) -> bool {
    &&& 1 <= hand.card1.rank <= 14
    &&& 1 <= hand.card2.rank <= 14
    &&& HoleCards::markers_agree(hand.card1, hand.card2)
}

/// Whether every hand of a run of entries names cards or a class of cards.
pub open spec fn all_nameable(entries: Seq<Entry>) -> bool {
    forall|i: int| 0 <= i < entries.len() ==> nameable((#[trigger] entries[i]).0)
}

/// Whether every hand of a run of entries can be dealt.
pub open spec fn all_dealable(entries: Seq<Entry>) -> bool {
    forall|i: int| 0 <= i < entries.len() ==> dealable((#[trigger] entries[i]).0)
}

/// Whether a card is among the cards of a run.
pub open spec fn among(card: Card, cards: Seq<Card>) -> bool {
    exists|i: int| 0 <= i < cards.len() && #[trigger] cards[i] == card
}

/// Whether a hand holds a card of the board.
pub open spec fn clashes(hand: HoleCards, board: Seq<Card>) -> bool {
    among(hand.card1, board) || among(hand.card2, board)
}

/// The cards of a deck without every copy of each of the given cards.
pub open spec fn without_cards(deck: Seq<Card>, cards: Seq<Card>) -> Seq<Card>
    decreases cards.len(),
{
    if cards.len() == 0 {
        deck
    } else {
        without_card(without_cards(deck, cards.drop_last()), cards.last())
    }
}

/// The cards that the players and the flop hold: the cards out of position,
/// those in position, then the flop.
pub open spec fn cards_in_play(oop: HoleCards, ip: HoleCards, flop: Seq<Card>) -> Seq<Card> {
    seq![oop.card1, oop.card2, ip.card1, ip.card2] + flop
}

/// The deal of two hands on a flop: the standard deck without the cards in
/// play, and a history that starts with the flop.
pub open spec fn postflop_deal(oop: Entry, ip: Entry, flop: Seq<Card>) -> DealView {
    DealView {
        cards: PlayerCards::of_hands(ip.0, oop.0),
        weights: (ip.1, oop.1),
        deck: without_cards(standard_deck(), cards_in_play(oop.0, ip.0, flop)),
        history: seq![HistoryNodeView::Street(StreetView::Flop(flop))],
    }
}

/// The deals of one hand out of position against each hand in position that
/// holds no card of the flop, in the order of the hands.
pub open spec fn deals_against(oop: Entry, ip: Seq<Entry>, flop: Seq<Card>) -> Seq<DealView>
    decreases ip.len(),
{
    if ip.len() == 0 {
        Seq::empty()
    } else if clashes(ip.last().0, flop) {
        deals_against(oop, ip.drop_last(), flop)
    } else {
        deals_against(oop, ip.drop_last(), flop).push(postflop_deal(oop, ip.last(), flop))
    }
}

/// The deals of each hand out of position that holds no card of the flop
/// against each such hand in position: hand by hand out of position, and for
/// each of them hand by hand in position.
pub open spec fn deals_between(oop: Seq<Entry>, ip: Seq<Entry>, flop: Seq<Card>) -> Seq<DealView>
    decreases oop.len(),
{
    if oop.len() == 0 {
        Seq::empty()
    } else if clashes(oop.last().0, flop) {
        deals_between(oop.drop_last(), ip, flop)
    } else {
        deals_between(oop.drop_last(), ip, flop) + deals_against(oop.last(), ip, flop)
    }
}

/// Cards that stay of cards that can be part of hands can be part of hands,
/// and are no more.
pub proof fn lemma_filter_playable(cards: Seq<Card>, keep: spec_fn(Card) -> bool)
    requires
        all_playable(cards),
    ensures
        all_playable(cards.filter(keep)),
        cards.filter(keep).len() <= cards.len(),
    decreases cards.len(),
{
    reveal(Seq::filter);
    if cards.len() > 0 {
        assert forall|i: int| 0 <= i < cards.drop_last().len() implies playable(
            #[trigger] cards.drop_last()[i],
        ) by {
            assert(playable(cards[i]));
        }
        lemma_filter_playable(cards.drop_last(), keep);
        assert(playable(cards[cards.len() - 1]));
    }
}

/// A deck without some cards holds cards that can be part of hands, and no
/// more than before.
pub proof fn lemma_without_cards(deck: Seq<Card>, cards: Seq<Card>)
    requires
        all_playable(deck),
    ensures
        all_playable(without_cards(deck, cards)),
        without_cards(deck, cards).len() <= deck.len(),
    decreases cards.len(),
{
    if cards.len() > 0 {
        lemma_without_cards(deck, cards.drop_last());
        lemma_filter_playable(
            without_cards(deck, cards.drop_last()),
            |c: Card| c != cards.last(),
        );
    }
}

/// The cards of a standard deck can be part of hands.
pub proof fn lemma_standard_deck_playable()
    ensures
        all_playable(standard_deck()),
        standard_deck().len() == 52,
{
    assert forall|i: int| 0 <= i < standard_deck().len() implies playable(
        #[trigger] standard_deck()[i],
    ) by {
        assert(0 <= i / 4 <= 12);
        assert(0 <= i % 4 < 4);
    }
}

/// The hands that a nameable hand stands for can be dealt.
pub proof fn lemma_hands_dealable(hand: HoleCards, i: int)
    requires
        nameable(hand),
        0 <= i < hand.hands().len(),
    ensures
        dealable(hand.hands()[i]),
{
    if hand.card1.suit == crate::suit::Suit::Offsuit && hand.card2.suit
        == crate::suit::Suit::Offsuit {
        assert(0 <= i / 3 < 4);
        assert(0 <= i % 3 < 3);
    }
}

/// Setting weights of hands that can be dealt leaves hands that can be dealt.
pub proof fn lemma_with_entry_dealable(entries: Seq<Entry>, hand: HoleCards, weight: Weight)
    requires
        all_dealable(entries),
        dealable(hand),
    ensures
        all_dealable(with_entry(entries, hand, weight)),
{
    crate::range::lemma_position(entries, hand);
    let after = with_entry(entries, hand, weight);
    assert forall|i: int| 0 <= i < after.len() implies dealable((#[trigger] after[i]).0) by {
        if i < entries.len() {
            assert(dealable(entries[i].0));
        }
    }
}

/// Setting the weight of the hands of a class leaves hands that can be dealt.
pub proof fn lemma_with_hands_dealable(
    entries: Seq<Entry>,
    class: HoleCards,
    count: int,
    weight: Weight,
)
    requires
        all_dealable(entries),
        nameable(class),
        0 <= count <= class.hands().len(),
    ensures
        all_dealable(with_hands(entries, class.hands().subrange(0, count), weight)),
    decreases count,
{
    let hands = class.hands().subrange(0, count);
    if count > 0 {
        assert(hands.drop_last() =~= class.hands().subrange(0, count - 1));
        lemma_with_hands_dealable(entries, class, count - 1, weight);
        lemma_hands_dealable(class, count - 1);
        lemma_with_entry_dealable(
            with_hands(entries, hands.drop_last(), weight),
            hands.last(),
            weight,
        );
    }
}

/// The hands of an expanded range can be dealt.
pub proof fn lemma_expanded_dealable(entries: Seq<Entry>)
    requires
        all_nameable(entries),
    ensures
        all_dealable(with_expanded(Seq::empty(), entries)),
    decreases entries.len(),
{
    if entries.len() > 0 {
        assert forall|i: int| 0 <= i < entries.drop_last().len() implies nameable(
            (#[trigger] entries.drop_last()[i]).0,
        ) by {
            assert(nameable(entries[i].0));
        }
        lemma_expanded_dealable(entries.drop_last());
        let class = entries.last().0;
        assert(nameable(entries[entries.len() - 1].0));
        assert(class.hands().subrange(0, class.hands().len() as int) =~= class.hands());
        lemma_with_hands_dealable(
            with_expanded(Seq::empty(), entries.drop_last()),
            class,
            class.hands().len() as int,
            entries.last().1,
        );
    }
}

/// The deals of hands that can be dealt hold cards that can be part of hands.
pub proof fn lemma_postflop_deal_playable(oop: Entry, ip: Entry, flop: Seq<Card>)
    requires
        dealable(oop.0),
        dealable(ip.0),
    ensures
        postflop_deal(oop, ip, flop).playable(),
        postflop_deal(oop, ip, flop).deck.len() <= 52,
{
    PlayerCards::lemma_of_hands(ip.0, oop.0);
    lemma_standard_deck_playable();
    lemma_without_cards(standard_deck(), cards_in_play(oop.0, ip.0, flop));
}

/// Hold'em from the flop onwards.
#[derive(Debug)]
pub struct PostflopHoldem {
    config: PostflopHoldemConfig,
}

impl Clone for PostflopHoldem {
    fn clone(&self) -> (game: PostflopHoldem)
        ensures
            game.flop() == self.flop(),
            game.sizes(StreetView::Flop(Seq::empty())) == self.sizes(
                StreetView::Flop(Seq::empty()),
            ),
            game.sizes(StreetView::Turn(Seq::empty())) == self.sizes(
                StreetView::Turn(Seq::empty()),
            ),
            game.sizes(StreetView::River(Seq::empty())) == self.sizes(
                StreetView::River(Seq::empty()),
            ),
            game.ip_entries() == self.ip_entries(),
            game.oop_entries() == self.oop_entries(),
            game.setup().initial_pot == self.setup().initial_pot,
            game.setup().effective_stack == self.setup().effective_stack,
            game.setup().default_size == self.setup().default_size,
    {
        PostflopHoldem { config: self.config.clone() }
    }
}

impl PostflopHoldem {
    /// The set-up of the game.
    pub closed spec fn setup(&self) -> PostflopHoldemConfig {
        self.config
    }

    /// The flop of the game.
    pub open spec fn flop(&self) -> Seq<Card> {
        self.setup().flop@
    }

    /// The bet sizes of a street; none before the flop.
    pub open spec fn sizes(&self, street: StreetView) -> Seq<Bet> {
        match street {
            StreetView::Flop(_) => self.setup().flop_sizes@,
            StreetView::Turn(_) => self.setup().turn_sizes@,
            StreetView::River(_) => self.setup().river_sizes@,
            _ => Seq::empty(),
        }
    }

    /// The hands in position, with their weights.
    pub open spec fn ip_entries(&self) -> Seq<Entry> {
        self.setup().ip_hands@
    }

    /// The hands out of position, with their weights.
    pub open spec fn oop_entries(&self) -> Seq<Entry> {
        self.setup().oop_hands@
    }

    /// The game with the given set-up: every part of the set-up is kept as
    /// it was given.
    pub fn new(config: PostflopHoldemConfig) -> (game: PostflopHoldem)
        ensures
            game.setup() == config,
    {
        PostflopHoldem { config }
    }

    /// The set-up of the game, with every part of it.
    pub fn config(&self) -> (config: &PostflopHoldemConfig)
        ensures
            *config == self.setup(),
    {
        &self.config
    }

    /// Whether the game is set up well: a flop of three cards that can be
    /// part of hands, and ranges of hands that name cards or classes of cards.
    pub fn is_well_formed(&self) -> (ok: bool)
        ensures
            ok == self.wf(),
    {
        let flop = self.config.flop.to_vec();
        if flop.len() != 3 {
            return false;
        }
        let mut i: usize = 0;
        while i < flop.len()
            invariant
                i <= flop.len(),
                flop@ == self.flop(),
                forall|j: int| 0 <= j < i ==> playable(#[trigger] flop@[j]),
            decreases flop.len() - i,
        {
            if !(1 <= flop[i].rank && flop[i].rank <= 14 && flop[i].suit.to_usize() < 4) {
                assert(!playable(self.flop()[i as int]));
                return false;
            }
            i += 1;
        }
        PostflopHoldem::names_hands(&self.config.ip_hands.to_vec())
            && PostflopHoldem::names_hands(&self.config.oop_hands.to_vec())
    }

    /// Whether every hand of the entries names cards or a class of cards.
    fn names_hands(entries: &Vec<Entry>) -> (ok: bool)
        ensures
            ok == all_nameable(entries@),
    {
        let mut i: usize = 0;
        while i < entries.len()
            invariant
                i <= entries.len(),
                forall|j: int| 0 <= j < i ==> nameable((#[trigger] entries@[j]).0),
            decreases entries.len() - i,
        {
            let hand = entries[i].0;
            let suit1 = hand.card1.suit.to_usize();
            let suit2 = hand.card2.suit.to_usize();
            let ranks = 1 <= hand.card1.rank && hand.card1.rank <= 14 && 1 <= hand.card2.rank
                && hand.card2.rank <= 14;
            let suits = (suit1 < 4 && suit2 < 4) || suit1 == suit2;
            if !(ranks && suits) {
                assert(!nameable(entries@[i as int].0));
                return false;
            }
            i += 1;
        }
        true
    }

    /// The bets that the menu of a street offers.
    pub fn sizes_for_street(&self, street: &Street) -> (bets: Vec<Action>)
        requires
            street@ is Flop || street@ is Turn || street@ is River,
        ensures
            bets@ == bets_of(self.sizes(street@)),
    {
        let sizes = match street {
            Street::Flop(_) => &self.config.flop_sizes,
            Street::Turn(_) => &self.config.turn_sizes,
            _ => &self.config.river_sizes,
        };
        let mut bets: Vec<Action> = Vec::new();
        let mut i: usize = 0;
        while i < sizes.len()
            invariant
                i <= sizes.len(),
                sizes@ == self.sizes(street@),
                bets@ == bets_of(sizes@.subrange(0, i as int)),
            decreases sizes.len() - i,
        {
            bets.push(Action::Bet(sizes[i]));
            i += 1;
            assert(bets@ =~= bets_of(sizes@.subrange(0, i as int)));
        }
        assert(sizes@.subrange(0, i as int) =~= sizes@);
        bets
    }

    /// The raises by the sizes of the given bets.
    pub fn bets_to_raises(&self, bets: Vec<Action>) -> (raises: Vec<Action>)
        requires
            all_bets(bets@),
        ensures
            raises@ == raises_for(bets@),
    {
        let mut raises: Vec<Action> = Vec::new();
        let mut i: usize = 0;
        while i < bets.len()
            invariant
                i <= bets.len(),
                all_bets(bets@),
                raises@ == raises_for(bets@.subrange(0, i as int)),
            decreases bets.len() - i,
        {
            assert(bets@[i as int] is Bet);
            match bets[i] {
                Action::Bet(size) => {
                    raises.push(Action::Raise(size));
                },
                _ => {},
            }
            i += 1;
            assert(raises@ =~= raises_for(bets@.subrange(0, i as int)));
        }
        assert(bets@.subrange(0, i as int) =~= bets@);
        raises
    }

    /// Adds actions at the end of a vector.
    fn extend(actions: &mut Vec<Action>, more: &Vec<Action>)
        ensures
            final(actions)@ == old(actions)@ + more@,
    {
        let mut i: usize = 0;
        assert(more@.subrange(0, 0) =~= Seq::<Action>::empty());
        assert(actions@ + Seq::<Action>::empty() =~= actions@);
        while i < more.len()
            invariant
                i <= more.len(),
                actions@ == old(actions)@ + more@.subrange(0, i as int),
            decreases more.len() - i,
        {
            actions.push(more[i]);
            i += 1;
            assert(actions@ =~= old(actions)@ + more@.subrange(0, i as int));
        }
        assert(more@.subrange(0, i as int) =~= more@);
    }

    /// Whether a card is among the cards of a vector.
    fn is_among(card: &Card, cards: &Vec<Card>) -> (found: bool)
        ensures
            found == among(*card, cards@),
    {
        let mut i: usize = 0;
        while i < cards.len()
            invariant
                i <= cards.len(),
                forall|j: int| 0 <= j < i ==> cards@[j] != *card,
            decreases cards.len() - i,
        {
            if cards[i] == *card {
                return true;
            }
            i += 1;
        }
        false
    }

    /// The standard deck without the cards in play.
    fn deck_without(oop: &HoleCards, ip: &HoleCards, flop: &Vec<Card>) -> (deck: Deck)
        ensures
            deck@ == without_cards(standard_deck(), cards_in_play(*oop, *ip, flop@)),
    {
        let ghost taken = cards_in_play(*oop, *ip, flop@);
        let mut deck = Deck::new();
        deck.remove(&oop.card1);
        deck.remove(&oop.card2);
        deck.remove(&ip.card1);
        deck.remove(&ip.card2);
        proof {
            reveal_with_fuel(without_cards, 5);
            assert(taken.subrange(0, 4) =~= seq![oop.card1, oop.card2, ip.card1, ip.card2]);
            let four = taken.subrange(0, 4);
            assert(four.drop_last() =~= seq![oop.card1, oop.card2, ip.card1]);
            assert(four.drop_last().drop_last() =~= seq![oop.card1, oop.card2]);
            assert(four.drop_last().drop_last().drop_last() =~= seq![oop.card1]);
            assert(four.drop_last().drop_last().drop_last().drop_last() =~= Seq::<
                Card,
            >::empty());
            assert(deck@ == without_cards(standard_deck(), four));
        }
        let mut i: usize = 0;
        while i < flop.len()
            invariant
                i <= flop.len(),
                taken == cards_in_play(*oop, *ip, flop@),
                deck@ == without_cards(standard_deck(), taken.subrange(0, 4 + i)),
            decreases flop.len() - i,
        {
            proof {
                assert(taken.subrange(0, 4 + i + 1).drop_last() =~= taken.subrange(0, 4 + i));
                assert(taken[4 + i] == flop@[i as int]);
            }
            deck.remove(&flop[i]);
            i += 1;
        }
        assert(taken.subrange(0, 4 + i) =~= taken);
        deck
    }
}

/// The raises by the sizes of the bets of a menu are the raises of the menu.
pub proof fn lemma_raises_of_bets(sizes: Seq<Bet>)
    ensures
        all_bets(bets_of(sizes)),
        raises_for(bets_of(sizes)) == raises_of(sizes),
{
    assert(raises_for(bets_of(sizes)) =~= raises_of(sizes));
}

/// The actions of hold'em: check or bet by the menu of the street at the
/// start of a street and after a check; fold, call or raise by the menu after
/// a bet or a raise; and nothing else.
pub open spec fn postflop_actions(history: Seq<HistoryNodeView>, sizes: Seq<Bet>) -> Seq<Action> {
    match latest_or_check(history) {
        Action::Check => seq![Action::Check] + bets_of(sizes),
        Action::Absent => seq![Action::Check] + bets_of(sizes),
        Action::Bet(_) => seq![Action::Fold, Action::Call] + raises_of(sizes),
        Action::Raise(_) => seq![Action::Fold, Action::Call] + raises_of(sizes),
        _ => Seq::empty(),
    }
}

impl Game for PostflopHoldem {
    open spec fn streets(&self) -> nat {
        3
    }

    open spec fn cards_of_deck(&self) -> Seq<Card> {
        standard_deck()
    }

    open spec fn first_history(&self) -> Seq<HistoryNodeView> {
        seq![HistoryNodeView::Street(StreetView::Flop(self.flop()))]
    }

    open spec fn accepts(&self, history: Seq<HistoryNodeView>) -> bool {
        current_street(history) is Flop || current_street(history) is Turn || current_street(
            history,
        ) is River
    }

    open spec fn actions_after(&self, history: Seq<HistoryNodeView>) -> Seq<Action> {
        postflop_actions(history, self.sizes(current_street(history)))
    }

    open spec fn all_deals(&self) -> Seq<DealView> {
        deals_between(
            with_expanded(Seq::empty(), self.oop_entries()),
            with_expanded(Seq::empty(), self.ip_entries()),
            self.flop(),
        )
    }

    open spec fn wf(&self) -> bool {
        &&& self.flop().len() == 3
        &&& all_playable(self.flop())
        &&& all_nameable(self.ip_entries())
        &&& all_nameable(self.oop_entries())
    }

    proof fn lemma_setup(&self) {
        lemma_standard_deck_playable();
        assert(self.first_history().drop_last() =~= Seq::<HistoryNodeView>::empty());
    }

    proof fn lemma_accepts_action(&self, history: Seq<HistoryNodeView>, action: Action) {
        lemma_street_after_action(history, action);
    }

    proof fn lemma_accepts_street(&self, history: Seq<HistoryNodeView>, card: Card) {
        lemma_street_after_street(history, current_street(history).next(card));
    }

    fn is_set_up(&self) -> (ok: bool) {
        self.is_well_formed()
    }

    fn is_accepted(&self, history: &History) -> (ok: bool) {
        let street = history.street();
        street.is_flop() || street.is_turn() || street.is_river()
    }

    fn num_streets(&self) -> (n: u8) {
        3
    }

    fn deck(&self) -> (deck: Deck) {
        Deck::new()
    }

    fn legal_actions(&self, history: &History) -> (actions: Vec<Action>) {
        let last = match history.last() {
            Some(node) => node.get_action(),
            None => Action::Check,
        };
        let mut actions: Vec<Action> = Vec::new();
        proof {
            lemma_raises_of_bets(self.sizes(current_street(history@)));
        }
        match last {
            Action::Check | Action::Absent => {
                actions.push(Action::Check);
                let bets = self.sizes_for_street(history.street());
                PostflopHoldem::extend(&mut actions, &bets);
                assert(actions@ =~= self.actions_after(history@));
            },
            Action::Bet(_) | Action::Raise(_) => {
                actions.push(Action::Fold);
                actions.push(Action::Call);
                let raises = self.bets_to_raises(self.sizes_for_street(history.street()));
                PostflopHoldem::extend(&mut actions, &raises);
                assert(actions@ =~= self.actions_after(history@));
            },
            _ => {
                assert(actions@ =~= self.actions_after(history@));
            },
        }
        actions
    }

    fn legal_first_actions(&self) -> (actions: Vec<Action>) {
        let mut actions: Vec<Action> = Vec::new();
        actions.push(Action::Check);
        let flop = Street::Flop(self.config.flop.clone());
        let bets = self.sizes_for_street(&flop);
        PostflopHoldem::extend(&mut actions, &bets);
        proof {
            let first = self.first_history();
            assert(first.drop_last() =~= Seq::<HistoryNodeView>::empty());
            assert(actions@ =~= self.actions_after(first));
        }
        actions
    }

    fn generate_deals(&self) -> (deals: Vec<Deal>) {
        let oop_range = self.config.oop_range().expand_meta_suits().to_vec();
        let ip_range = self.config.ip_range().expand_meta_suits().to_vec();
        let flop = self.config.flop.to_vec();
        let mut deals: Vec<Deal> = Vec::new();
        proof {
            lemma_expanded_dealable(self.oop_entries());
            lemma_expanded_dealable(self.ip_entries());
            assert(oop_range@.subrange(0, 0) =~= Seq::<Entry>::empty());
        }
        let mut i: usize = 0;
        while i < oop_range.len()
            invariant
                i <= oop_range.len(),
                self.wf(),
                flop@ == self.flop(),
                all_dealable(oop_range@),
                all_dealable(ip_range@),
                deals_view(deals@) == deals_between(
                    oop_range@.subrange(0, i as int),
                    ip_range@,
                    flop@,
                ),
                forall|k: int|
                    0 <= k < deals@.len() ==> (#[trigger] deals@[k])@.history
                        == self.first_history() && deals@[k]@.playable(),
            decreases oop_range.len() - i,
        {
            let oop = oop_range[i];
            proof {
                assert(oop_range@.subrange(0, i + 1).drop_last() =~= oop_range@.subrange(
                    0,
                    i as int,
                ));
                assert(dealable(oop_range@[i as int].0));
            }
            if !PostflopHoldem::is_among(&oop.0.card1, &flop) && !PostflopHoldem::is_among(
                &oop.0.card2,
                &flop,
            ) {
                let ghost before = deals_view(deals@);
                let mut j: usize = 0;
                proof {
                    assert(ip_range@.subrange(0, 0) =~= Seq::<Entry>::empty());
                    assert(before + Seq::<DealView>::empty() =~= before);
                }
                while j < ip_range.len()
                    invariant
                        j <= ip_range.len(),
                        self.wf(),
                        flop@ == self.flop(),
                        dealable(oop.0),
                        all_dealable(ip_range@),
                        deals_view(deals@) == before + deals_against(
                            oop,
                            ip_range@.subrange(0, j as int),
                            flop@,
                        ),
                        forall|k: int|
                            0 <= k < deals@.len() ==> (#[trigger] deals@[k])@.history
                                == self.first_history() && deals@[k]@.playable(),
                    decreases ip_range.len() - j,
                {
                    let ip = ip_range[j];
                    proof {
                        assert(ip_range@.subrange(0, j + 1).drop_last() =~= ip_range@.subrange(
                            0,
                            j as int,
                        ));
                        assert(dealable(ip_range@[j as int].0));
                    }
                    if !PostflopHoldem::is_among(&ip.0.card1, &flop) && !PostflopHoldem::is_among(
                        &ip.0.card2,
                        &flop,
                    ) {
                        let deck = PostflopHoldem::deck_without(&oop.0, &ip.0, &flop);
                        let mut history = History::new();
                        history.push_street(Street::Flop(self.config.flop.clone()));
                        let deal = Deal::new(
                            PlayerCards::new(ip.0, oop.0),
                            deck,
                            (ip.1, oop.1),
                            history,
                        );
                        proof {
                            lemma_deals_view_push(deals@, deal);
                            lemma_postflop_deal_playable(oop, ip, flop@);
                            assert(deal@.history =~= self.first_history());
                            assert(deal@ == postflop_deal(oop, ip, flop@));
                            let row = deals_against(oop, ip_range@.subrange(0, j as int), flop@);
                            assert((before + row).push(deal@) =~= before + row.push(deal@));
                        }
                        deals.push(deal);
                    }
                    j += 1;
                }
                assert(ip_range@.subrange(0, j as int) =~= ip_range@);
            }
            i += 1;
        }
        assert(oop_range@.subrange(0, i as int) =~= oop_range@);
        deals
    }

    /// The game deals nothing at random: the same low diamonds are dealt
    /// every time, with no deck, on the flop of the game.
    fn deal(&self, _rng: &mut StdRng) -> (deal: Deal)
        ensures
            deal@ == DealView::fixed(self.first_history()),
    {
        let mut deal = Deal::new_default();
        let mut history = History::new();
        history.push_street(Street::Flop(self.config.flop.clone()));
        proof {
            assert(history@ =~= self.first_history());
            assert(playable(Card::diamond(1)));
            assert(playable(Card::diamond(2)));
            PlayerCards::lemma_of_hands(
                HoleCards::ordered(Card::diamond(1), Card::diamond(1)),
                HoleCards::ordered(Card::diamond(2), Card::diamond(1)),
            );
        }
        deal.history = history;
        deal
    }
}

} // verus!
