//! The order in which reports list information states.

use vstd::prelude::*;
use vstd::string::*;
use crate::action::Action;
use crate::bet::Bet;
use crate::card::Card;
use crate::history::{all_printable, history_text, History};
use crate::history_node::{HistoryNode, HistoryNodeView};
use crate::hole_cards::HoleCards;
use crate::info_state::{info_views, InfoState, InfoStateView};
use crate::player::Player;
use crate::street::{Street, StreetView};

verus! {

/// How two numbers compare: -1 where the first is less, 1 where it is
/// greater, 0 where they are equal.
pub open spec fn number_order(a: int, b: int) -> int {
    if a < b {
        -1
    } else if a > b {
        1
    } else {
        0
    }
}

/// How two bet sizes compare: numbers of chips come before percentages, and
/// within each kind the smaller number comes first.
pub open spec fn bet_order(a: Bet, b: Bet) -> int {
    match (a, b) {
        (Bet::C(x), Bet::C(y)) => number_order(x as int, y as int),
        (Bet::C(_), Bet::P(_)) => -1,
        (Bet::P(_), Bet::C(_)) => 1,
        (Bet::P(x), Bet::P(y)) => number_order(x as int, y as int),
    }
}

/// The place of the kind of an action among the kinds: fold, check, call,
/// bet, raise, no action.
pub open spec fn action_rank(action: Action) -> int {
    match action {
        Action::Fold => 0,
        Action::Check => 1,
        Action::Call => 2,
        Action::Bet(_) => 3,
        Action::Raise(_) => 4,
        Action::Absent => 5,
    }
}

/// How two actions compare: by their kinds, and bets and raises by their
/// sizes.
pub open spec fn action_order(a: Action, b: Action) -> int {
    if action_rank(a) != action_rank(b) {
        number_order(action_rank(a), action_rank(b))
    } else {
        match (a, b) {
            (Action::Bet(x), Action::Bet(y)) => bet_order(x, y),
            (Action::Raise(x), Action::Raise(y)) => bet_order(x, y),
            _ => 0,
        }
    }
}

/// How two cards compare: the lower card comes first.
pub open spec fn card_order(a: Card, b: Card) -> int {
    if a.below(b) {
        -1
    } else if b.below(a) {
        1
    } else {
        0
    }
}

/// How two runs of cards compare from an index onwards: by the first card
/// in which they differ, and a run that ends first comes first.
pub open spec fn cards_order(a: Seq<Card>, b: Seq<Card>, from: int) -> int
    decreases a.len() - from,
{
    if from < 0 || from >= a.len() || from >= b.len() {
        number_order(a.len() as int, b.len() as int)
    } else if card_order(a[from], b[from]) != 0 {
        card_order(a[from], b[from])
    } else {
        cards_order(a, b, from + 1)
    }
}

/// The place of a street among the streets, with no street last.
pub open spec fn street_rank(street: StreetView) -> int {
    match street {
        StreetView::Preflop => 0,
        StreetView::Flop(_) => 1,
        StreetView::Turn(_) => 2,
        StreetView::River(_) => 3,
        StreetView::Absent => 4,
    }
}

/// How two streets compare: by their places, then by their boards.
pub open spec fn street_order(a: StreetView, b: StreetView) -> int {
    if street_rank(a) != street_rank(b) {
        number_order(street_rank(a), street_rank(b))
    } else {
        cards_order(a.board(), b.board(), 0)
    }
}

/// How two entries of histories compare: actions come before streets.
pub open spec fn node_order(a: HistoryNodeView, b: HistoryNodeView) -> int {
    match (a, b) {
        (HistoryNodeView::Action(x), HistoryNodeView::Action(y)) => action_order(x, y),
        (HistoryNodeView::Action(_), HistoryNodeView::Street(_)) => -1,
        (HistoryNodeView::Street(_), HistoryNodeView::Action(_)) => 1,
        (HistoryNodeView::Street(x), HistoryNodeView::Street(y)) => street_order(x, y),
    }
}

/// How two histories compare from an index onwards: by the first entry in
/// which they differ, and a history that ends first comes first.
pub open spec fn history_order(
    a: Seq<HistoryNodeView>,
    b: Seq<HistoryNodeView>,
    from: int,
) -> int
    decreases a.len() - from,
{
    if from < 0 || from >= a.len() || from >= b.len() {
        number_order(a.len() as int, b.len() as int)
    } else if node_order(a[from], b[from]) != 0 {
        node_order(a[from], b[from])
    } else {
        history_order(a, b, from + 1)
    }
}

/// How two hands compare: by their first cards, then by their second.
pub open spec fn hands_order(a: HoleCards, b: HoleCards) -> int {
    if card_order(a.card1, b.card1) != 0 {
        card_order(a.card1, b.card1)
    } else {
        card_order(a.card2, b.card2)
    }
}

/// The place of a player: in position first.
pub open spec fn player_rank(player: Player) -> int {
    match player {
        Player::IP => 0,
        Player::OOP => 1,
    }
}

/// How two information states compare in a report: by player, then by
/// hand, then by the length of the rendered history, then by the history.
pub open spec fn info_order(a: InfoStateView, b: InfoStateView) -> int {
    if player_rank(a.player) != player_rank(b.player) {
        number_order(player_rank(a.player), player_rank(b.player))
    } else if hands_order(a.hole_cards, b.hole_cards) != 0 {
        hands_order(a.hole_cards, b.hole_cards)
    } else if history_text(a.history).len() != history_text(b.history).len() {
        number_order(history_text(a.history).len() as int, history_text(b.history).len() as int)
    } else {
        history_order(a.history, b.history, 0)
    }
}

/// Comparing two runs of cards the other way round gives the opposite
/// result.
pub proof fn lemma_cards_order_flips(a: Seq<Card>, b: Seq<Card>, from: int)
    ensures
        cards_order(b, a, from) == -cards_order(a, b, from),
    decreases a.len() - from,
{
    if 0 <= from < a.len() && from < b.len() && card_order(a[from], b[from]) == 0 {
        lemma_cards_order_flips(a, b, from + 1);
    }
}

/// Comparing two entries the other way round gives the opposite result.
pub proof fn lemma_node_order_flips(a: HistoryNodeView, b: HistoryNodeView)
    ensures
        node_order(b, a) == -node_order(a, b),
{
    lemma_cards_order_flips(a.street().board(), b.street().board(), 0);
}

/// Comparing two histories the other way round gives the opposite result.
pub proof fn lemma_history_order_flips(
    a: Seq<HistoryNodeView>,
    b: Seq<HistoryNodeView>,
    from: int,
)
    ensures
        history_order(b, a, from) == -history_order(a, b, from),
    decreases a.len() - from,
{
    if 0 <= from < a.len() && from < b.len() {
        lemma_node_order_flips(a[from], b[from]);
        if node_order(a[from], b[from]) == 0 {
            lemma_history_order_flips(a, b, from + 1);
        }
    }
}

/// Comparing two information states the other way round gives the opposite
/// result: if one comes first, the other comes last.
pub proof fn lemma_info_order_flips(a: InfoStateView, b: InfoStateView)
    ensures
        info_order(b, a) == -info_order(a, b),
{
    lemma_history_order_flips(a.history, b.history, 0);
}

/// Two runs of cards that compare as equal from an index onwards, and are
/// equal before it, are equal.
pub proof fn lemma_cards_order_zero(a: Seq<Card>, b: Seq<Card>, from: int)
    requires
        0 <= from,
        cards_order(a, b, from) == 0,
        forall|k: int| 0 <= k < from && k < a.len() && k < b.len() ==> a[k] == b[k],
    ensures
        a == b,
    decreases a.len() - from,
{
    if from < a.len() && from < b.len() {
        assert(a[from].suit.index() == b[from].suit.index());
        assert(a[from] == b[from]);
        lemma_cards_order_zero(a, b, from + 1);
    } else {
        assert(a =~= b);
    }
}

/// Two entries that compare as equal are equal.
pub proof fn lemma_node_order_zero(a: HistoryNodeView, b: HistoryNodeView)
    requires
        node_order(a, b) == 0,
    ensures
        a == b,
{
    match (a, b) {
        (HistoryNodeView::Street(x), HistoryNodeView::Street(y)) => {
            lemma_cards_order_zero(x.board(), y.board(), 0);
        },
        _ => {},
    }
}

/// Two histories that compare as equal from an index onwards, and are equal
/// before it, are equal.
pub proof fn lemma_history_order_zero(
    a: Seq<HistoryNodeView>,
    b: Seq<HistoryNodeView>,
    from: int,
)
    requires
        0 <= from,
        history_order(a, b, from) == 0,
        forall|k: int| 0 <= k < from && k < a.len() && k < b.len() ==> a[k] == b[k],
    ensures
        a == b,
    decreases a.len() - from,
{
    if from < a.len() && from < b.len() {
        lemma_node_order_zero(a[from], b[from]);
        lemma_history_order_zero(a, b, from + 1);
    } else {
        assert(a =~= b);
    }
}

/// Two information states that compare as equal are equal: a report lists
/// different states in one order only.
pub proof fn lemma_info_order_zero(a: InfoStateView, b: InfoStateView)
    requires
        info_order(a, b) == 0,
    ensures
        a == b,
{
    lemma_history_order_zero(a.history, b.history, 0);
    assert(a.hole_cards.card1.suit.index() == b.hole_cards.card1.suit.index());
    assert(a.hole_cards.card2.suit.index() == b.hole_cards.card2.suit.index());
    assert(a.hole_cards.card1 == b.hole_cards.card1);
    assert(a.hole_cards.card2 == b.hole_cards.card2);
}

/// If a run of cards comes before a second or equals it, and the second
/// comes before a third or equals it, the first comes before the third or
/// equals it.
pub proof fn lemma_cards_order_chain(a: Seq<Card>, b: Seq<Card>, c: Seq<Card>, from: int)
    requires
        0 <= from,
        cards_order(a, b, from) <= 0,
        cards_order(b, c, from) <= 0,
    ensures
        cards_order(a, c, from) <= 0,
        cards_order(a, b, from) < 0 || cards_order(b, c, from) < 0 ==> cards_order(a, c, from) < 0,
    decreases a.len() - from,
{
    if from < a.len() && from < b.len() && from < c.len() {
        if card_order(a[from], b[from]) == 0 && card_order(b[from], c[from]) == 0 {
            lemma_cards_order_chain(a, b, c, from + 1);
        }
    }
}

/// If an entry comes before a second or equals it, and the second comes
/// before a third or equals it, the first comes before the third or equals
/// it.
pub proof fn lemma_node_order_chain(a: HistoryNodeView, b: HistoryNodeView, c: HistoryNodeView)
    requires
        node_order(a, b) <= 0,
        node_order(b, c) <= 0,
    ensures
        node_order(a, c) <= 0,
        node_order(a, b) < 0 || node_order(b, c) < 0 ==> node_order(a, c) < 0,
{
    match (a, b, c) {
        (
            HistoryNodeView::Street(x),
            HistoryNodeView::Street(y),
            HistoryNodeView::Street(z),
        ) => {
            if street_rank(x) == street_rank(y) && street_rank(y) == street_rank(z) {
                lemma_cards_order_chain(x.board(), y.board(), z.board(), 0);
            }
        },
        _ => {},
    }
}

/// If a history comes before a second or equals it, and the second comes
/// before a third or equals it, the first comes before the third or equals
/// it.
pub proof fn lemma_history_order_chain(
    a: Seq<HistoryNodeView>,
    b: Seq<HistoryNodeView>,
    c: Seq<HistoryNodeView>,
    from: int,
)
    requires
        0 <= from,
        history_order(a, b, from) <= 0,
        history_order(b, c, from) <= 0,
    ensures
        history_order(a, c, from) <= 0,
        history_order(a, b, from) < 0 || history_order(b, c, from) < 0 ==> history_order(
            a,
            c,
            from,
        ) < 0,
    decreases a.len() - from,
{
    if from < a.len() && from < b.len() && from < c.len() {
        lemma_node_order_chain(a[from], b[from], c[from]);
        if node_order(a[from], b[from]) == 0 && node_order(b[from], c[from]) == 0 {
            lemma_history_order_chain(a, b, c, from + 1);
        }
    }
}

/// If an information state comes before a second or equals it in a report,
/// and the second comes before a third or equals it, the first comes before
/// the third or equals it.
pub proof fn lemma_info_order_chain(a: InfoStateView, b: InfoStateView, c: InfoStateView)
    requires
        info_order(a, b) <= 0,
        info_order(b, c) <= 0,
    ensures
        info_order(a, c) <= 0,
{
    if player_rank(a.player) == player_rank(b.player) && player_rank(b.player) == player_rank(
        c.player,
    ) {
        if hands_order(a.hole_cards, b.hole_cards) == 0 && hands_order(b.hole_cards, c.hole_cards)
            == 0 {
            let la = history_text(a.history).len();
            let lb = history_text(b.history).len();
            let lc = history_text(c.history).len();
            if la == lb && lb == lc {
                lemma_history_order_chain(a.history, b.history, c.history, 0);
            }
        }
    }
}

/// How two numbers compare.
pub fn compare_numbers(a: usize, b: usize) -> (sign: i8)
    ensures
        sign == number_order(a as int, b as int),
{
    if a < b {
        -1
    } else if a > b {
        1
    } else {
        0
    }
}

/// How two bet sizes compare.
pub fn compare_bets(a: Bet, b: Bet) -> (sign: i8)
    ensures
        sign == bet_order(a, b),
{
    match (a, b) {
        (Bet::C(x), Bet::C(y)) => compare_numbers(x as usize, y as usize),
        (Bet::C(_), Bet::P(_)) => -1,
        (Bet::P(_), Bet::C(_)) => 1,
        (Bet::P(x), Bet::P(y)) => compare_numbers(x as usize, y as usize),
    }
}

/// The place of the kind of an action among the kinds.
pub fn rank_of_action(action: Action) -> (rank: usize)
    ensures
        rank == action_rank(action),
{
    match action {
        Action::Fold => 0,
        Action::Check => 1,
        Action::Call => 2,
        Action::Bet(_) => 3,
        Action::Raise(_) => 4,
        Action::Absent => 5,
    }
}

/// How two actions compare.
pub fn compare_actions(a: Action, b: Action) -> (sign: i8)
    ensures
        sign == action_order(a, b),
{
    let rank_a = rank_of_action(a);
    let rank_b = rank_of_action(b);
    if rank_a != rank_b {
        compare_numbers(rank_a, rank_b)
    } else {
        match (a, b) {
            (Action::Bet(x), Action::Bet(y)) => compare_bets(x, y),
            (Action::Raise(x), Action::Raise(y)) => compare_bets(x, y),
            _ => 0,
        }
    }
}

/// How two cards compare.
pub fn compare_cards(a: &Card, b: &Card) -> (sign: i8)
    ensures
        sign == card_order(*a, *b),
{
    if a.is_below(b) {
        -1
    } else if b.is_below(a) {
        1
    } else {
        0
    }
}

/// How two runs of cards compare.
pub fn compare_runs(a: &Vec<Card>, b: &Vec<Card>) -> (sign: i8)
    ensures
        sign == cards_order(a@, b@, 0),
{
    let mut i: usize = 0;
    while i < a.len() && i < b.len()
        invariant
            i <= a.len(),
            i <= b.len(),
            cards_order(a@, b@, 0) == cards_order(a@, b@, i as int),
        decreases a.len() - i,
    {
        let sign = compare_cards(&a[i], &b[i]);
        if sign != 0 {
            return sign;
        }
        i += 1;
    }
    compare_numbers(a.len(), b.len())
}

/// The place of a street among the streets.
pub fn rank_of_street(street: &Street) -> (rank: usize)
    ensures
        rank == street_rank(street@),
{
    match street {
        Street::Preflop => 0,
        Street::Flop(_) => 1,
        Street::Turn(_) => 2,
        Street::River(_) => 3,
        Street::Absent => 4,
    }
}

/// How two streets compare.
pub fn compare_streets(a: &Street, b: &Street) -> (sign: i8)
    ensures
        sign == street_order(a@, b@),
{
    let rank_a = rank_of_street(a);
    let rank_b = rank_of_street(b);
    if rank_a != rank_b {
        compare_numbers(rank_a, rank_b)
    } else {
        match (a, b) {
            (Street::Flop(x), Street::Flop(y)) => compare_runs(&x.cards, &y.cards),
            (Street::Turn(x), Street::Turn(y)) => compare_runs(&x.cards, &y.cards),
            (Street::River(x), Street::River(y)) => compare_runs(&x.cards, &y.cards),
            _ => 0,
        }
    }
}

/// How two entries of histories compare.
pub fn compare_nodes(a: &HistoryNode, b: &HistoryNode) -> (sign: i8)
    ensures
        sign == node_order(a@, b@),
{
    match (a, b) {
        (HistoryNode::Action(x), HistoryNode::Action(y)) => compare_actions(*x, *y),
        (HistoryNode::Action(_), HistoryNode::Street(_)) => -1,
        (HistoryNode::Street(_), HistoryNode::Action(_)) => 1,
        (HistoryNode::Street(x), HistoryNode::Street(y)) => compare_streets(x, y),
    }
}

/// How two histories compare.
pub fn compare_histories(a: &History, b: &History) -> (sign: i8)
    ensures
        sign == history_order(a@, b@, 0),
{
    let mut i: usize = 0;
    while i < a.len() && i < b.len()
        invariant
            i <= a@.len(),
            i <= b@.len(),
            history_order(a@, b@, 0) == history_order(a@, b@, i as int),
        decreases a@.len() - i,
    {
        let sign = compare_nodes(a.entry(i), b.entry(i));
        if sign != 0 {
            return sign;
        }
        i += 1;
    }
    compare_numbers(a.len(), b.len())
}

/// How two hands compare.
pub fn compare_hands(a: &HoleCards, b: &HoleCards) -> (sign: i8)
    ensures
        sign == hands_order(*a, *b),
{
    let first = compare_cards(&a.card1, &b.card1);
    if first != 0 {
        first
    } else {
        compare_cards(&a.card2, &b.card2)
    }
}

/// The length of the rendered history of an information state.
pub fn rendered_length(info_state: &InfoState) -> (n: usize)
    requires
        all_printable(info_state@.history),
    ensures
        n == history_text(info_state@.history).len(),
{
    let text = info_state.history.to_string();
    text.as_str().unicode_len()
}

/// How two information states compare in a report, given the lengths of
/// their rendered histories.
pub fn compare_states(a: &InfoState, length_a: usize, b: &InfoState, length_b: usize) -> (sign: i8)
    requires
        length_a == history_text(a@.history).len(),
        length_b == history_text(b@.history).len(),
    ensures
        sign == info_order(a@, b@),
{
    let rank_a = a.player.as_usize();
    let rank_b = b.player.as_usize();
    if rank_a != rank_b {
        return compare_numbers(rank_a, rank_b);
    }
    let hands = compare_hands(&a.hole_cards, &b.hole_cards);
    if hands != 0 {
        return hands;
    }
    if length_a != length_b {
        return compare_numbers(length_a, length_b);
    }
    compare_histories(&a.history, &b.history)
}

/// Whether the state at place `i` of a list of places comes before the
/// state at the next place in a report, or equals it in order.
pub open spec fn ordered_at(places: Seq<usize>, states: Seq<InfoStateView>, i: int) -> bool {
    info_order(states[places[i] as int], states[places[i + 1] as int]) <= 0
}

/// Whether the places are places of the first `count` states, each at most
/// once, with every state before the state at the next place in a report or
/// equal to it in order.
pub open spec fn ordered_places(places: Seq<usize>, states: Seq<InfoStateView>, count: int) -> bool {
    &&& forall|i: int| 0 <= i < places.len() ==> (#[trigger] places[i]) < count
    &&& forall|i: int, j: int|
        0 <= i < j < places.len() ==> (#[trigger] places[i]) != (#[trigger] places[j])
    &&& forall|i: int| 0 <= i < places.len() - 1 ==> #[trigger] ordered_at(places, states, i)
}

/// Whether the places list every information state once, each before the
/// states that come after it in a report or beside a state that it equals in
/// order.
pub open spec fn in_report_order(places: Seq<usize>, states: Seq<InfoStateView>) -> bool {
    places.len() == states.len() && ordered_places(places, states, states.len() as int)
}

/// Places in the order of a report list every state before or beside all
/// the states at later places, not only the state at the next place.
pub proof fn lemma_report_order_sorted(
    places: Seq<usize>,
    states: Seq<InfoStateView>,
    i: int,
    j: int,
)
    requires
        in_report_order(places, states),
        0 <= i <= j < places.len(),
    ensures
        info_order(states[places[i] as int], states[places[j] as int]) <= 0,
    decreases j - i,
{
    if i < j {
        lemma_report_order_sorted(places, states, i, j - 1);
        assert(ordered_at(places, states, j - 1));
        lemma_info_order_chain(
            states[places[i] as int],
            states[places[j - 1] as int],
            states[places[j] as int],
        );
    } else {
        lemma_info_order_flips(states[places[i] as int], states[places[i] as int]);
    }
}

/// Whether the lengths are those of the rendered histories of the states.
pub open spec fn rendered_lengths(lengths: Seq<usize>, states: Seq<InfoStateView>) -> bool {
    &&& lengths.len() == states.len()
    &&& forall|i: int|
        0 <= i < states.len() ==> (#[trigger] lengths[i]) == history_text(states[i].history).len()
}

/// Whether the histories of all the states can be rendered.
pub open spec fn all_renderable(states: Seq<InfoStateView>) -> bool {
    forall|i: int| 0 <= i < states.len() ==> all_printable((#[trigger] states[i]).history)
}

/// Places in order stay in order when a further place is put where the
/// states before it come first and the states after it come later.
pub proof fn lemma_insert_in_order(
    before: Seq<usize>,
    states: Seq<InfoStateView>,
    next: usize,
    at: int,
)
    requires
        ordered_places(before, states, next as int),
        0 <= at <= before.len(),
        at > 0 ==> info_order(states[before[at - 1] as int], states[next as int]) <= 0,
        at < before.len() ==> info_order(states[before[at] as int], states[next as int]) > 0,
    ensures
        ordered_places(before.insert(at, next), states, next + 1),
{
    let after = before.insert(at, next);
    assert forall|i: int| 0 <= i < after.len() implies (#[trigger] after[i]) < next + 1 by {
        if i < at {
            assert(after[i] == before[i]);
        } else if i > at {
            assert(after[i] == before[i - 1]);
        }
    }
    assert forall|i: int, j: int| 0 <= i < j < after.len() implies (#[trigger] after[i]) != (
    #[trigger] after[j]) by {
        if i < at {
            assert(after[i] == before[i]);
        } else if i > at {
            assert(after[i] == before[i - 1]);
        }
        if j < at {
            assert(after[j] == before[j]);
        } else if j > at {
            assert(after[j] == before[j - 1]);
        }
    }
    assert forall|i: int| 0 <= i < after.len() - 1 implies #[trigger] ordered_at(
        after,
        states,
        i,
    ) by {
        if i + 1 < at {
            assert(after[i] == before[i]);
            assert(after[i + 1] == before[i + 1]);
            assert(ordered_at(before, states, i));
        } else if i + 1 == at {
            assert(after[i] == before[i]);
            assert(after[i + 1] == next);
        } else if i == at {
            assert(after[i] == next);
            assert(after[i + 1] == before[i]);
            lemma_info_order_flips(states[before[at] as int], states[next as int]);
        } else {
            assert(after[i] == before[i - 1]);
            assert(after[i + 1] == before[i]);
            assert(ordered_at(before, states, i - 1));
        }
    }
}

/// The lengths of the rendered histories of information states.
pub fn lengths_of(states: &Vec<InfoState>) -> (lengths: Vec<usize>)
    requires
        all_renderable(info_views(states@)),
    ensures
        rendered_lengths(lengths@, info_views(states@)),
{
    let mut lengths: Vec<usize> = Vec::new();
    let mut k: usize = 0;
    while k < states.len()
        invariant
            k <= states.len(),
            lengths@.len() == k,
            all_renderable(info_views(states@)),
            forall|i: int|
                0 <= i < k ==> (#[trigger] lengths@[i]) == history_text(
                    info_views(states@)[i].history,
                ).len(),
        decreases states.len() - k,
    {
        assert(all_printable(info_views(states@)[k as int].history));
        lengths.push(rendered_length(&states[k]));
        k += 1;
    }
    lengths
}

/// Where the state at place `next` belongs among places that are in order:
/// behind the states that come before it or equal it in order, and before
/// the states that come after it.
fn place_for(states: &Vec<InfoState>, lengths: &Vec<usize>, places: &Vec<usize>, next: usize) -> (at:
    usize)
    requires
        rendered_lengths(lengths@, info_views(states@)),
        next < states@.len(),
        forall|i: int| 0 <= i < places@.len() ==> (#[trigger] places@[i]) < next,
    ensures
        at <= places@.len(),
        at > 0 ==> info_order(
            info_views(states@)[places@[at - 1] as int],
            info_views(states@)[next as int],
        ) <= 0,
        at < places@.len() ==> info_order(
            info_views(states@)[places@[at as int] as int],
            info_views(states@)[next as int],
        ) > 0,
{
    let ghost views = info_views(states@);
    let mut at: usize = places.len();
    while at > 0
        invariant
            at <= places@.len(),
            views == info_views(states@),
            rendered_lengths(lengths@, views),
            next < states@.len(),
            forall|i: int| 0 <= i < places@.len() ==> (#[trigger] places@[i]) < next,
            at < places@.len() ==> info_order(views[places@[at as int] as int], views[next as int])
                > 0,
        decreases at,
    {
        let place = places[at - 1];
        assert(place < next);
        assert(lengths@[place as int] == history_text(views[place as int].history).len());
        assert(lengths@[next as int] == history_text(views[next as int].history).len());
        let sign = compare_states(&states[place], lengths[place], &states[next], lengths[next]);
        if sign <= 0 {
            return at;
        }
        at -= 1;
    }
    at
}

/// The places of information states in the order of a report: each place
/// once, and each state before the states that come after it.
pub fn report_order(states: &Vec<InfoState>) -> (places: Vec<usize>)
    requires
        all_renderable(info_views(states@)),
    ensures
        in_report_order(places@, info_views(states@)),
{
    let lengths = lengths_of(states);
    let mut places: Vec<usize> = Vec::new();
    let mut next: usize = 0;
    while next < states.len()
        invariant
            next <= states.len(),
            rendered_lengths(lengths@, info_views(states@)),
            places@.len() == next,
            ordered_places(places@, info_views(states@), next as int),
        decreases states.len() - next,
    {
        let at = place_for(states, &lengths, &places, next);
        proof {
            lemma_insert_in_order(places@, info_views(states@), next, at as int);
        }
        places.insert(at, next);
        next += 1;
    }
    places
}

} // verus!
