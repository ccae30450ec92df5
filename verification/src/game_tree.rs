//! The table of information states of a game.

use vstd::prelude::*;
use crate::deal::{deals_view, DealView};
use crate::game::Game;
use crate::history::current_street;
use crate::info_state::{info_views, InfoState, InfoStateView};
use crate::report::{all_renderable, in_report_order, report_order};
use crate::node::{Node, NodeView};
use crate::tree_walker::{kind_of, FiniteGame, NodeKind, TreeWalker};

verus! {

/// The keys with one more key at their end, unless it is among them already.
pub open spec fn with_key(keys: Seq<InfoStateView>, key: InfoStateView) -> Seq<InfoStateView> {
    if keys.contains(key) {
        keys
    } else {
        keys.push(key)
    }
}

/// Whether a node can be walked from: the game is set up, accepts the
/// history of the node, and the node is on one of the streets of the game.
pub open spec fn walkable<G: FiniteGame>(game: &G, node: NodeView) -> bool {
    &&& game.wf()
    &&& game.accepts(node.history)
    &&& 1 <= current_street(node.history).number() <= game.streets()
}

/// The keys after a walk from a node: the information state of every
/// decision point and of every end of a street at or below the node joins
/// the keys, in the order in which a walk that goes deep first comes by them.
pub open spec fn keys_below<G: FiniteGame>(
    game: &G,
    node: NodeView,
    keys: Seq<InfoStateView>,
) -> Seq<InfoStateView>
    decreases game.remaining(node.history), 1nat, 0nat,
{
    if !walkable(game, node) {
        keys
    } else {
        match kind_of(node.history, game.streets()) {
            NodeKind::Terminal => keys,
            NodeKind::StreetCompleting => keys_of_cards(
                game,
                node,
                0,
                with_key(keys, node.info_state()),
            ),
            NodeKind::Decision => keys_of_actions(
                game,
                node,
                0,
                with_key(keys, node.info_state()),
            ),
        }
    }
}

/// The keys after walks from the children of a decision point, from the
/// `i`-th action onwards.
pub open spec fn keys_of_actions<G: FiniteGame>(
    game: &G,
    node: NodeView,
    i: int,
    keys: Seq<InfoStateView>,
) -> Seq<InfoStateView>
    decreases game.remaining(node.history), 0nat, game.actions_after(node.history).len() - i,
{
    let actions = game.actions_after(node.history);
    if !walkable(game, node) || kind_of(node.history, game.streets()) != NodeKind::Decision || i
        < 0 || i >= actions.len() {
        keys
    } else {
        proof {
            game.lemma_action_step(node.history, i);
        }
        keys_of_actions(game, node, i + 1, keys_below(game, node.after_action(actions[i]), keys))
    }
}

/// The keys after walks from the children of the end of a street, from the
/// `i`-th card of the deck onwards.
pub open spec fn keys_of_cards<G: FiniteGame>(
    game: &G,
    node: NodeView,
    i: int,
    keys: Seq<InfoStateView>,
) -> Seq<InfoStateView>
    decreases game.remaining(node.history), 0nat, node.deck.len() - i,
{
    if !walkable(game, node) || kind_of(node.history, game.streets())
        != NodeKind::StreetCompleting || i < 0 || i >= node.deck.len() {
        keys
    } else {
        proof {
            game.lemma_street_step(node.history, node.deck[i]);
        }
        keys_of_cards(game, node, i + 1, keys_below(game, node.after_card(node.deck[i]), keys))
    }
}

/// The keys after walks from the roots of deals, from the `i`-th deal onwards.
pub open spec fn keys_of_deals<G: FiniteGame>(
    game: &G,
    deals: Seq<DealView>,
    i: int,
    keys: Seq<InfoStateView>,
) -> Seq<InfoStateView>
    decreases deals.len() - i,
{
    if i < 0 || i >= deals.len() {
        keys
    } else {
        keys_of_deals(game, deals, i + 1, keys_below(game, NodeView::root(deals[i]), keys))
    }
}

/// The information states of a game: those that a walk over all its deals
/// comes by, each once, in the order of the walk.
pub open spec fn all_keys<G: FiniteGame>(game: &G) -> Seq<InfoStateView> {
    keys_of_deals(game, game.all_deals(), 0, Seq::empty())
}

/// Whether an information state occurs at or below a node: at the node
/// itself if it is a decision point or the end of a street, or below one of
/// its children.
pub open spec fn occurs_below<G: FiniteGame>(
    game: &G,
    node: NodeView,
    target: InfoStateView,
) -> bool
    decreases game.remaining(node.history), 1nat, 0nat,
{
    walkable(game, node) && match kind_of(node.history, game.streets()) {
        NodeKind::Terminal => false,
        NodeKind::StreetCompleting => node.info_state() == target || occurs_after_cards(
            game,
            node,
            0,
            target,
        ),
        NodeKind::Decision => node.info_state() == target || occurs_after_actions(
            game,
            node,
            0,
            target,
        ),
    }
}

/// Whether an information state occurs below a decision point after its
/// `i`-th action or a later one.
pub open spec fn occurs_after_actions<G: FiniteGame>(
    game: &G,
    node: NodeView,
    i: int,
    target: InfoStateView,
) -> bool
    decreases game.remaining(node.history), 0nat, game.actions_after(node.history).len() - i,
{
    let actions = game.actions_after(node.history);
    if !walkable(game, node) || kind_of(node.history, game.streets()) != NodeKind::Decision || i
        < 0 || i >= actions.len() {
        false
    } else {
        proof {
            game.lemma_action_step(node.history, i);
        }
        occurs_below(game, node.after_action(actions[i]), target) || occurs_after_actions(
            game,
            node,
            i + 1,
            target,
        )
    }
}

/// Whether an information state occurs below the end of a street after the
/// `i`-th card of the deck or a later one.
pub open spec fn occurs_after_cards<G: FiniteGame>(
    game: &G,
    node: NodeView,
    i: int,
    target: InfoStateView,
) -> bool
    decreases game.remaining(node.history), 0nat, node.deck.len() - i,
{
    if !walkable(game, node) || kind_of(node.history, game.streets())
        != NodeKind::StreetCompleting || i < 0 || i >= node.deck.len() {
        false
    } else {
        proof {
            game.lemma_street_step(node.history, node.deck[i]);
        }
        occurs_below(game, node.after_card(node.deck[i]), target) || occurs_after_cards(
            game,
            node,
            i + 1,
            target,
        )
    }
}

/// Whether an information state occurs in a game: at or below the root of
/// one of its deals.
pub open spec fn occurs_in<G: FiniteGame>(game: &G, target: InfoStateView) -> bool {
    exists|i: int|
        0 <= i < game.all_deals().len() && occurs_below(
            game,
            NodeView::root(#[trigger] game.all_deals()[i]),
            target,
        )
}

/// A walk from a node loses no key.
pub proof fn lemma_keys_stay_below<G: FiniteGame>(
    game: &G,
    node: NodeView,
    keys: Seq<InfoStateView>,
    key: InfoStateView,
)
    requires
        keys.contains(key),
    ensures
        keys_below(game, node, keys).contains(key),
    decreases game.remaining(node.history), 1nat, 0nat,
{
    if walkable(game, node) {
        let more = with_key(keys, node.info_state());
        lemma_with_key(keys, node.info_state(), key);
        match kind_of(node.history, game.streets()) {
            NodeKind::Terminal => {},
            NodeKind::StreetCompleting => {
                lemma_keys_stay_cards(game, node, 0, more, key);
            },
            NodeKind::Decision => {
                lemma_keys_stay_actions(game, node, 0, more, key);
            },
        }
    }
}

/// Walks from the children of a decision point lose no key.
pub proof fn lemma_keys_stay_actions<G: FiniteGame>(
    game: &G,
    node: NodeView,
    i: int,
    keys: Seq<InfoStateView>,
    key: InfoStateView,
)
    requires
        keys.contains(key),
    ensures
        keys_of_actions(game, node, i, keys).contains(key),
    decreases game.remaining(node.history), 0nat, game.actions_after(node.history).len() - i,
{
    let actions = game.actions_after(node.history);
    if walkable(game, node) && kind_of(node.history, game.streets()) == NodeKind::Decision && 0
        <= i < actions.len() {
        game.lemma_action_step(node.history, i);
        let child = node.after_action(actions[i]);
        lemma_keys_stay_below(game, child, keys, key);
        lemma_keys_stay_actions(game, node, i + 1, keys_below(game, child, keys), key);
    }
}

/// Walks from the children of the end of a street lose no key.
pub proof fn lemma_keys_stay_cards<G: FiniteGame>(
    game: &G,
    node: NodeView,
    i: int,
    keys: Seq<InfoStateView>,
    key: InfoStateView,
)
    requires
        keys.contains(key),
    ensures
        keys_of_cards(game, node, i, keys).contains(key),
    decreases game.remaining(node.history), 0nat, node.deck.len() - i,
{
    if walkable(game, node) && kind_of(node.history, game.streets())
        == NodeKind::StreetCompleting && 0 <= i < node.deck.len() {
        game.lemma_street_step(node.history, node.deck[i]);
        let child = node.after_card(node.deck[i]);
        lemma_keys_stay_below(game, child, keys, key);
        lemma_keys_stay_cards(game, node, i + 1, keys_below(game, child, keys), key);
    }
}

/// Walks from the roots of deals lose no key.
pub proof fn lemma_keys_stay_deals<G: FiniteGame>(
    game: &G,
    deals: Seq<DealView>,
    i: int,
    keys: Seq<InfoStateView>,
    key: InfoStateView,
)
    requires
        keys.contains(key),
    ensures
        keys_of_deals(game, deals, i, keys).contains(key),
    decreases deals.len() - i,
{
    if 0 <= i < deals.len() {
        let root = NodeView::root(deals[i]);
        lemma_keys_stay_below(game, root, keys, key);
        lemma_keys_stay_deals(game, deals, i + 1, keys_below(game, root, keys), key);
    }
}

/// The keys with one more key hold that key and the keys that were there.
pub proof fn lemma_with_key(keys: Seq<InfoStateView>, added: InfoStateView, key: InfoStateView)
    ensures
        with_key(keys, added).contains(added),
        keys.contains(key) ==> with_key(keys, added).contains(key),
{
    if !keys.contains(added) {
        assert(keys.push(added)[keys.len() as int] == added);
        if keys.contains(key) {
            let i = choose|i: int| 0 <= i < keys.len() && keys[i] == key;
            assert(keys.push(added)[i] == key);
        }
    }
}

/// A walk from a node finds every information state that occurs at or below
/// the node.
pub proof fn lemma_walk_finds_below<G: FiniteGame>(
    game: &G,
    node: NodeView,
    keys: Seq<InfoStateView>,
    target: InfoStateView,
)
    requires
        occurs_below(game, node, target),
    ensures
        keys_below(game, node, keys).contains(target),
    decreases game.remaining(node.history), 1nat, 0nat,
{
    let more = with_key(keys, node.info_state());
    lemma_with_key(keys, node.info_state(), target);
    match kind_of(node.history, game.streets()) {
        NodeKind::Terminal => {},
        NodeKind::StreetCompleting => {
            if node.info_state() == target {
                lemma_keys_stay_cards(game, node, 0, more, target);
            } else {
                lemma_walk_finds_cards(game, node, 0, more, target);
            }
        },
        NodeKind::Decision => {
            if node.info_state() == target {
                lemma_keys_stay_actions(game, node, 0, more, target);
            } else {
                lemma_walk_finds_actions(game, node, 0, more, target);
            }
        },
    }
}

/// Walks from the children of a decision point find every information
/// state that occurs below them.
pub proof fn lemma_walk_finds_actions<G: FiniteGame>(
    game: &G,
    node: NodeView,
    i: int,
    keys: Seq<InfoStateView>,
    target: InfoStateView,
)
    requires
        occurs_after_actions(game, node, i, target),
    ensures
        keys_of_actions(game, node, i, keys).contains(target),
    decreases game.remaining(node.history), 0nat, game.actions_after(node.history).len() - i,
{
    let actions = game.actions_after(node.history);
    game.lemma_action_step(node.history, i);
    let child = node.after_action(actions[i]);
    let found = keys_below(game, child, keys);
    if occurs_below(game, child, target) {
        lemma_walk_finds_below(game, child, keys, target);
        lemma_keys_stay_actions(game, node, i + 1, found, target);
    } else {
        lemma_walk_finds_actions(game, node, i + 1, found, target);
    }
}

/// Walks from the children of the end of a street find every information
/// state that occurs below them.
pub proof fn lemma_walk_finds_cards<G: FiniteGame>(
    game: &G,
    node: NodeView,
    i: int,
    keys: Seq<InfoStateView>,
    target: InfoStateView,
)
    requires
        occurs_after_cards(game, node, i, target),
    ensures
        keys_of_cards(game, node, i, keys).contains(target),
    decreases game.remaining(node.history), 0nat, node.deck.len() - i,
{
    game.lemma_street_step(node.history, node.deck[i]);
    let child = node.after_card(node.deck[i]);
    let found = keys_below(game, child, keys);
    if occurs_below(game, child, target) {
        lemma_walk_finds_below(game, child, keys, target);
        lemma_keys_stay_cards(game, node, i + 1, found, target);
    } else {
        lemma_walk_finds_cards(game, node, i + 1, found, target);
    }
}

/// Walks from the roots of deals find every information state that occurs
/// at or below the root of the `at`-th deal, if they start at or before it.
pub proof fn lemma_walk_finds_deals<G: FiniteGame>(
    game: &G,
    deals: Seq<DealView>,
    i: int,
    keys: Seq<InfoStateView>,
    at: int,
    target: InfoStateView,
)
    requires
        0 <= i <= at < deals.len(),
        occurs_below(game, NodeView::root(deals[at]), target),
    ensures
        keys_of_deals(game, deals, i, keys).contains(target),
    decreases deals.len() - i,
{
    let root = NodeView::root(deals[i]);
    let found = keys_below(game, root, keys);
    if i == at {
        lemma_walk_finds_below(game, root, keys, target);
        lemma_keys_stay_deals(game, deals, i + 1, found, target);
    } else {
        lemma_walk_finds_deals(game, deals, i + 1, found, at, target);
    }
}

/// The keys of a game hold every information state that occurs in it: a
/// table that was built misses no decision point and no end of a street that
/// a walk over the deals of the game can come by.
pub proof fn lemma_all_keys_complete<G: FiniteGame>(game: &G, target: InfoStateView)
    requires
        occurs_in(game, target),
    ensures
        all_keys(game).contains(target),
{
    let at = choose|i: int|
        0 <= i < game.all_deals().len() && occurs_below(
            game,
            NodeView::root(#[trigger] game.all_deals()[i]),
            target,
        );
    lemma_walk_finds_deals(game, game.all_deals(), 0, Seq::empty(), at, target);
}

/// Whether no key occurs twice.
pub open spec fn distinct_keys(keys: Seq<InfoStateView>) -> bool {
    forall|i: int, j: int| 0 <= i < j < keys.len() ==> keys[i] != keys[j]
}

/// For every information state of a game, two rows of numbers with one
/// number for each action that the game allows there: the regrets and the
/// sums of strategies that a solver keeps.
pub struct GameTree<G: FiniteGame, T: Copy> {
    game: G,
    zero: T,
    keys: Vec<InfoState>,
    regrets: Vec<Vec<T>>,
    strategy_sum: Vec<Vec<T>>,
}

impl<G: FiniteGame, T: Copy> GameTree<G, T> {
    /// The game of the table.
    pub closed spec fn game_of(&self) -> &G {
        &self.game
    }

    /// The number that fresh rows hold.
    pub closed spec fn zero_of(&self) -> T {
        self.zero
    }

    /// The information states of the table, in the order in which they
    /// joined it.
    pub closed spec fn keys(&self) -> Seq<InfoStateView> {
        info_views(self.keys@)
    }

    /// The rows of regrets, one for each information state.
    pub closed spec fn regret_rows(&self) -> Seq<Seq<T>> {
        self.regrets@.map_values(|row: Vec<T>| row@)
    }

    /// The rows of strategy sums, one for each information state.
    pub closed spec fn strategy_rows(&self) -> Seq<Seq<T>> {
        self.strategy_sum@.map_values(|row: Vec<T>| row@)
    }

    /// Whether the table fits its game: the game is set up, no information
    /// state occurs twice, the history of each can be rendered, and each has a
    /// row of regrets and a row of strategy sums, both as long as the game
    /// allows actions there.
    pub closed spec fn wf(&self) -> bool {
        &&& self.game.wf()
        &&& distinct_keys(self.keys())
        &&& all_renderable(self.keys())
        &&& self.regret_rows().len() == self.keys().len()
        &&& self.strategy_rows().len() == self.keys().len()
        &&& forall|i: int|
            0 <= i < self.keys().len() ==> (#[trigger] self.regret_rows()[i]).len()
                == self.game.actions_after(self.keys()[i].history).len()
        &&& forall|i: int|
            0 <= i < self.keys().len() ==> (#[trigger] self.strategy_rows()[i]).len()
                == self.game.actions_after(self.keys()[i].history).len()
    }

    /// Whether every number of the table is the number of fresh rows.
    pub open spec fn fresh(&self) -> bool {
        &&& forall|i: int, a: int|
            0 <= i < self.regret_rows().len() && 0 <= a < self.regret_rows()[i].len()
                ==> #[trigger] self.regret_rows()[i][a] == self.zero_of()
        &&& forall|i: int, a: int|
            0 <= i < self.strategy_rows().len() && 0 <= a < self.strategy_rows()[i].len()
                ==> #[trigger] self.strategy_rows()[i][a] == self.zero_of()
    }

    /// In a table that fits its game, the rows of every information state
    /// are as long as the game allows actions after its history.
    pub proof fn lemma_rows_match_actions(&self, i: int)
        requires
            self.wf(),
            0 <= i < self.keys().len(),
        ensures
            self.regret_rows().len() == self.keys().len(),
            self.strategy_rows().len() == self.keys().len(),
            self.regret_rows()[i].len() == self.strategy_rows()[i].len(),
            self.regret_rows()[i].len() == self.game_of().actions_after(
                self.keys()[i].history,
            ).len(),
            distinct_keys(self.keys()),
            all_renderable(self.keys()),
    {
    }

    /// In a fresh table that fits its game, every information state has,
    /// for each action that the game allows after its history, the number of
    /// fresh rows as regret and as strategy sum.
    pub proof fn lemma_fresh_rows(&self, i: int, a: int)
        requires
            self.wf(),
            self.fresh(),
            0 <= i < self.keys().len(),
            0 <= a < self.game_of().actions_after(self.keys()[i].history).len(),
        ensures
            self.regret_rows()[i].len() == self.game_of().actions_after(
                self.keys()[i].history,
            ).len(),
            self.strategy_rows()[i].len() == self.regret_rows()[i].len(),
            self.regret_rows()[i][a] == self.zero_of(),
            self.strategy_rows()[i][a] == self.zero_of(),
    {
        self.lemma_rows_match_actions(i);
    }

    /// An empty table for a game. Fresh rows will hold `zero`.
    pub fn new(game: G, zero: T) -> (tree: GameTree<G, T>)
        requires
            game.wf(),
        ensures
            tree.wf(),
            tree.fresh(),
            *tree.game_of() == game,
            tree.zero_of() == zero,
            tree.keys() == Seq::<InfoStateView>::empty(),
    {
        let tree = GameTree {
            game,
            zero,
            keys: Vec::new(),
            regrets: Vec::new(),
            strategy_sum: Vec::new(),
        };
        assert(tree.keys() =~= Seq::<InfoStateView>::empty());
        tree
    }

    /// The game of the table.
    pub fn game(&self) -> (game: &G)
        ensures
            game == self.game_of(),
    {
        &self.game
    }

    /// The number of information states.
    pub fn len(&self) -> (n: usize)
        ensures
            n == self.keys().len(),
    {
        self.keys.len()
    }

    /// The place of an information state in the table, if it is there.
    pub fn index_of(&self, info_state: &InfoState) -> (index: Option<usize>)
        ensures
            match index {
                Some(i) => i < self.keys().len() && self.keys()[i as int] == info_state@,
                None => !self.keys().contains(info_state@),
            },
    {
        let mut i: usize = 0;
        while i < self.keys.len()
            invariant
                i <= self.keys.len(),
                forall|j: int| 0 <= j < i ==> self.keys()[j] != info_state@,
            decreases self.keys.len() - i,
        {
            if self.keys[i].same_as(info_state) {
                return Some(i);
            }
            i += 1;
        }
        None
    }

    /// The places of the table in the order of a report: by player, then by
    /// hand, then by the length of the rendered history, then by the history.
    pub fn report_order(&self) -> (places: Vec<usize>)
        requires
            self.wf(),
        ensures
            in_report_order(places@, self.keys()),
    {
        report_order(&self.keys)
    }

    /// The information state at a place of the table.
    pub fn key(&self, index: usize) -> (info_state: &InfoState)
        requires
            index < self.keys().len(),
        ensures
            info_state@ == self.keys()[index as int],
    {
        &self.keys[index]
    }

    /// The number of actions at a place of the table.
    pub fn arity(&self, index: usize) -> (n: usize)
        requires
            self.wf(),
            index < self.keys().len(),
        ensures
            n == self.game_of().actions_after(self.keys()[index as int].history).len(),
    {
        assert(self.regret_rows()[index as int].len() == self.game.actions_after(
            self.keys()[index as int].history,
        ).len());
        self.regrets[index].len()
    }

    /// The regrets at a place of the table.
    pub fn regrets(&self, index: usize) -> (row: &Vec<T>)
        requires
            self.wf(),
            index < self.keys().len(),
        ensures
            row@ == self.regret_rows()[index as int],
    {
        &self.regrets[index]
    }

    /// The strategy sums at a place of the table.
    pub fn strategy_sum(&self, index: usize) -> (row: &Vec<T>)
        requires
            self.wf(),
            index < self.keys().len(),
        ensures
            row@ == self.strategy_rows()[index as int],
    {
        &self.strategy_sum[index]
    }

    /// Sets the regret of an action at a place of the table.
    pub fn set_regret(&mut self, index: usize, action: usize, value: T)
        requires
            old(self).wf(),
            index < old(self).keys().len(),
            action < old(self).regret_rows()[index as int].len(),
        ensures
            final(self).wf(),
            final(self).game_of() == old(self).game_of(),
            final(self).zero_of() == old(self).zero_of(),
            final(self).keys() == old(self).keys(),
            final(self).strategy_rows() == old(self).strategy_rows(),
            final(self).regret_rows() == old(self).regret_rows().update(
                index as int,
                old(self).regret_rows()[index as int].update(action as int, value),
            ),
    {
        let mut row = Vec::new();
        core::mem::swap(&mut row, &mut self.regrets[index]);
        row[action] = value;
        core::mem::swap(&mut row, &mut self.regrets[index]);
        assert(self.regret_rows() =~= old(self).regret_rows().update(
            index as int,
            old(self).regret_rows()[index as int].update(action as int, value),
        ));
        assert(self.keys() =~= old(self).keys());
        assert(self.strategy_rows() =~= old(self).strategy_rows());
    }

    /// Sets the strategy sum of an action at a place of the table.
    pub fn set_strategy_sum(&mut self, index: usize, action: usize, value: T)
        requires
            old(self).wf(),
            index < old(self).keys().len(),
            action < old(self).strategy_rows()[index as int].len(),
        ensures
            final(self).wf(),
            final(self).game_of() == old(self).game_of(),
            final(self).zero_of() == old(self).zero_of(),
            final(self).keys() == old(self).keys(),
            final(self).regret_rows() == old(self).regret_rows(),
            final(self).strategy_rows() == old(self).strategy_rows().update(
                index as int,
                old(self).strategy_rows()[index as int].update(action as int, value),
            ),
    {
        let mut row = Vec::new();
        core::mem::swap(&mut row, &mut self.strategy_sum[index]);
        row[action] = value;
        core::mem::swap(&mut row, &mut self.strategy_sum[index]);
        assert(self.strategy_rows() =~= old(self).strategy_rows().update(
            index as int,
            old(self).strategy_rows()[index as int].update(action as int, value),
        ));
        assert(self.keys() =~= old(self).keys());
        assert(self.regret_rows() =~= old(self).regret_rows());
    }

    /// A row of so many fresh numbers.
    fn fresh_row(&self, n: usize) -> (row: Vec<T>)
        ensures
            row@.len() == n,
            forall|a: int| 0 <= a < n ==> row@[a] == self.zero,
    {
        let mut row: Vec<T> = Vec::new();
        let mut a: usize = 0;
        while a < n
            invariant
                a <= n,
                row@.len() == a,
                forall|b: int| 0 <= b < a ==> row@[b] == self.zero,
            decreases n - a,
        {
            row.push(self.zero);
            a += 1;
        }
        row
    }

    /// Gives the information state of a node fresh rows, unless the table
    /// holds it already.
    pub fn add_node(&mut self, node: &Node)
        requires
            old(self).wf(),
            old(self).fresh(),
            node.wf(old(self).game_of()),
        ensures
            final(self).wf(),
            final(self).fresh(),
            final(self).game_of() == old(self).game_of(),
            final(self).zero_of() == old(self).zero_of(),
            final(self).keys() == with_key(old(self).keys(), node@.info_state()),
    {
        let info_state = node.info_state();
        if self.index_of(&info_state).is_none() {
            let regrets = self.fresh_row(node.actions.len());
            let strategy_sum = self.fresh_row(node.actions.len());
            let ghost key = info_state@;
            self.keys.push(info_state);
            self.regrets.push(regrets);
            self.strategy_sum.push(strategy_sum);
            proof {
                assert(self.keys() =~= old(self).keys().push(key));
                assert(self.regret_rows() =~= old(self).regret_rows().push(regrets@));
                assert(self.strategy_rows() =~= old(self).strategy_rows().push(strategy_sum@));
                assert forall|i: int, j: int| 0 <= i < j < self.keys().len() implies self.keys()[i]
                    != self.keys()[j] by {
                    if j == old(self).keys().len() {
                        assert(old(self).keys().contains(old(self).keys()[i]));
                    }
                }
            }
        }
    }

    /// Walks the tree below a node and gives fresh rows to every
    /// information state that the walk comes by.
    pub fn visit(&mut self, node: Node)
        requires
            old(self).wf(),
            old(self).fresh(),
            node.wf(old(self).game_of()),
        ensures
            final(self).wf(),
            final(self).fresh(),
            final(self).game_of() == old(self).game_of(),
            final(self).zero_of() == old(self).zero_of(),
            final(self).keys() == keys_below(old(self).game_of(), node@, old(self).keys()),
        decreases old(self).game_of().remaining(node.history@), 1nat, 0nat,
    {
        let ghost game = old(self).game_of();
        match TreeWalker::classify(&self.game, &node) {
            NodeKind::Terminal => {},
            NodeKind::StreetCompleting => {
                self.add_node(&node);
                let cards = node.deck.to_vec();
                let mut i: usize = 0;
                while i < cards.len()
                    invariant
                        i <= cards.len(),
                        cards@ == node.deck@,
                        self.wf(),
                        self.fresh(),
                        self.game_of() == game,
                        game == old(self).game_of(),
                        self.zero_of() == old(self).zero_of(),
                        node.wf(game),
                        kind_of(node.history@, game.streets()) == NodeKind::StreetCompleting,
                        keys_below(game, node@, old(self).keys()) == keys_of_cards(
                            game,
                            node@,
                            i as int,
                            self.keys(),
                        ),
                    decreases cards.len() - i,
                {
                    proof {
                        game.lemma_street_step(node.history@, cards@[i as int]);
                    }
                    let child = TreeWalker::street_child(&self.game, &node, cards[i]);
                    self.visit(child);
                    i += 1;
                }
            },
            NodeKind::Decision => {
                self.add_node(&node);
                let mut i: usize = 0;
                while i < node.actions.len()
                    invariant
                        i <= node.actions.len(),
                        self.wf(),
                        self.fresh(),
                        self.game_of() == game,
                        game == old(self).game_of(),
                        self.zero_of() == old(self).zero_of(),
                        node.wf(game),
                        kind_of(node.history@, game.streets()) == NodeKind::Decision,
                        keys_below(game, node@, old(self).keys()) == keys_of_actions(
                            game,
                            node@,
                            i as int,
                            self.keys(),
                        ),
                    decreases node.actions.len() - i,
                {
                    proof {
                        game.lemma_action_step(node.history@, i as int);
                    }
                    let child = node.next_action_node(&self.game, node.actions[i]);
                    self.visit(child);
                    i += 1;
                }
            },
        }
    }

    /// Builds the table anew: it holds the information states of the game,
    /// in the order of a walk over all deals, each with fresh rows.
    pub fn build(&mut self)
        requires
            old(self).wf(),
        ensures
            final(self).wf(),
            final(self).fresh(),
            final(self).game_of() == old(self).game_of(),
            final(self).zero_of() == old(self).zero_of(),
            final(self).keys() == all_keys(old(self).game_of()),
    {
        let ghost game = old(self).game_of();
        self.keys = Vec::new();
        self.regrets = Vec::new();
        self.strategy_sum = Vec::new();
        assert(self.keys() =~= Seq::<InfoStateView>::empty());
        let deals = self.game.generate_deals();
        proof {
            self.game.lemma_setup();
        }
        let mut i: usize = 0;
        while i < deals.len()
            invariant
                i <= deals.len(),
                self.wf(),
                self.fresh(),
                self.game_of() == game,
                game == old(self).game_of(),
                self.zero_of() == old(self).zero_of(),
                deals_view(deals@) == game.all_deals(),
                forall|k: int|
                    0 <= k < deals@.len() ==> (#[trigger] deals@[k])@.history
                        == game.first_history(),
                all_keys(game) == keys_of_deals(game, game.all_deals(), i as int, self.keys()),
            decreases deals.len() - i,
        {
            proof {
                assert(deals_view(deals@)[i as int] == deals@[i as int]@);
            }
            let node = Node::new(&self.game, deals[i].clone());
            self.visit(node);
            i += 1;
        }
    }
}

/// Two tables of one game that were built hold the same information states
/// in the same order, with rows of the same lengths.
pub proof fn lemma_build_repeats<G: FiniteGame, T: Copy>(
    first: &GameTree<G, T>,
    second: &GameTree<G, T>,
)
    requires
        first.wf(),
        second.wf(),
        first.game_of() == second.game_of(),
        first.keys() == all_keys(first.game_of()),
        second.keys() == all_keys(second.game_of()),
    ensures
        first.keys() == second.keys(),
        first.regret_rows().len() == second.regret_rows().len(),
        first.strategy_rows().len() == second.strategy_rows().len(),
        forall|i: int|
            0 <= i < first.keys().len() ==> (#[trigger] first.regret_rows()[i]).len()
                == second.regret_rows()[i].len(),
        forall|i: int|
            0 <= i < first.keys().len() ==> (#[trigger] first.strategy_rows()[i]).len()
                == second.strategy_rows()[i].len(),
{
    assert forall|i: int| 0 <= i < first.keys().len() implies (
    #[trigger] first.regret_rows()[i]).len() == second.regret_rows()[i].len() by {
        first.lemma_rows_match_actions(i);
        second.lemma_rows_match_actions(i);
    }
    assert forall|i: int| 0 <= i < first.keys().len() implies (
    #[trigger] first.strategy_rows()[i]).len() == second.strategy_rows()[i].len() by {
        first.lemma_rows_match_actions(i);
        second.lemma_rows_match_actions(i);
    }
}

} // verus!
