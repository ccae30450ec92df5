//! What has happened in a hand so far.

use vstd::prelude::*;
use vstd::string::*;
use crate::action::Action;
use crate::history_node::{HistoryNode, HistoryNodeView};
use crate::street::{Street, StreetView};

verus! {

/// The mathematical values of a run of entries.
pub open spec fn nodes_view(nodes: Seq<HistoryNode>) -> Seq<HistoryNodeView> {
    nodes.map_values(|node: HistoryNode| node@)
}

/// The street that a history is on: that of its latest street entry, and the
/// first street if it has none.
pub open spec fn current_street(h: Seq<HistoryNodeView>) -> StreetView
    decreases h.len(),
{
    if h.len() == 0 {
        StreetView::Preflop
    } else if h.last() is Street {
        h.last().street()
    } else {
        current_street(h.drop_last())
    }
}

/// The action of the latest entry; `Absent` where there is none or where the
/// latest entry starts a street.
pub open spec fn last_action(h: Seq<HistoryNodeView>) -> Action {
    if h.len() == 0 {
        Action::Absent
    } else {
        h.last().action()
    }
}

/// The action of the entry before the latest one; `Absent` where there is none.
pub open spec fn previous_action(h: Seq<HistoryNodeView>) -> Action {
    if h.len() < 2 {
        Action::Absent
    } else {
        h[h.len() - 2].action()
    }
}

/// Whether the latest action ends the hand at once: a fold.
pub open spec fn ends_with_fold(h: Seq<HistoryNodeView>) -> bool {
    last_action(h) == Action::Fold
}

/// Whether the latest action closes the betting round: a call, or a check
/// that answers a check.
pub open spec fn closes_betting(h: Seq<HistoryNodeView>) -> bool {
    last_action(h) == Action::Call || (last_action(h) == Action::Check && previous_action(h)
        == Action::Check)
}

/// Whether the betting of a hand or of a street is over: the history ends
/// in a fold, in a call, or in two checks.
pub open spec fn betting_is_over(h: Seq<HistoryNodeView>) -> bool {
    ends_with_fold(h) || closes_betting(h)
}

/// Whether every entry of a history can be rendered.
pub open spec fn all_printable(h: Seq<HistoryNodeView>) -> bool {
    forall|i: int| 0 <= i < h.len() ==> (#[trigger] h[i]).printable()
}

/// The rendering of a history: the renderings of its entries, one after another.
pub open spec fn history_text(h: Seq<HistoryNodeView>) -> Seq<char>
    decreases h.len(),
{
    if h.len() == 0 {
        Seq::empty()
    } else {
        history_text(h.drop_last()) + h.last().text()
    }
}

/// The street of a history does not depend on actions at its end.
pub proof fn lemma_street_after_action(h: Seq<HistoryNodeView>, action: Action)
    ensures
        current_street(h.push(HistoryNodeView::Action(action))) == current_street(h),
{
    let longer = h.push(HistoryNodeView::Action(action));
    assert(longer.drop_last() =~= h);
}

/// The street of a history that ends with the start of a street is that street.
pub proof fn lemma_street_after_street(h: Seq<HistoryNodeView>, street: StreetView)
    ensures
        current_street(h.push(HistoryNodeView::Street(street))) == street,
{
}

/// The values of a run of entries with one more entry at its end.
pub proof fn lemma_nodes_view_push(nodes: Seq<HistoryNode>, node: HistoryNode)
    ensures
        nodes_view(nodes.push(node)) == nodes_view(nodes).push(node@),
{
    assert(nodes_view(nodes.push(node)) =~= nodes_view(nodes).push(node@));
}

/// A history that can be rendered can be rendered with one more entry that
/// can be rendered.
pub proof fn lemma_printable_push(h: Seq<HistoryNodeView>, entry: HistoryNodeView)
    requires
        all_printable(h),
        entry.printable(),
    ensures
        all_printable(h.push(entry)),
{
    assert forall|i: int| 0 <= i < h.push(entry).len() implies (#[trigger] h.push(
        entry,
    )[i]).printable() by {
        if i < h.len() {
            assert(h[i].printable());
        }
    }
}

/// The sequence of actions and street starts of one hand, with the street
/// that the hand is on.
#[derive(Debug, PartialEq, Eq, Hash, PartialOrd)]
pub struct History {
    history: Vec<HistoryNode>,
    street: Street,
}

impl View for History {
    type V = Seq<HistoryNodeView>;

    closed spec fn view(&self) -> Seq<HistoryNodeView> {
        nodes_view(self.history@)
    }
}

impl Clone for History {
    fn clone(&self) -> (history: History)
        ensures
            history@ == self@,
    {
        self.copy()
    }
}

impl History {
    #[verifier::type_invariant]
    spec fn street_is_current(self) -> bool {
        self.street@ == current_street(nodes_view(self.history@))
    }

    /// The empty history, on the first street.
    pub fn new() -> (history: History)
        ensures
            history@ == Seq::<HistoryNodeView>::empty(),
    {
        let history = History { history: Vec::new(), street: Street::Preflop };
        assert(history@ =~= Seq::<HistoryNodeView>::empty());
        history
    }

    /// The history that holds the given entries.
    pub fn new_from_vec(history: Vec<HistoryNode>) -> (result: History)
        ensures
            result@ == nodes_view(history@),
    {
        let street = History::find_street(&history);
        History { history, street }
    }

    /// Adds an action at the end.
    pub fn push_action(&mut self, action: Action)
        ensures
            final(self)@ == old(self)@.push(HistoryNodeView::Action(action)),
    {
        let mut taken = History::new();
        core::mem::swap(self, &mut taken);
        proof {
            use_type_invariant(&taken);
            lemma_street_after_action(taken@, action);
        }
        let History { history: mut nodes, street } = taken;
        let ghost before = nodes@;
        nodes.push(HistoryNode::Action(action));
        assert(nodes_view(nodes@) =~= nodes_view(before).push(HistoryNodeView::Action(action)));
        *self = History { history: nodes, street };
    }

    /// Starts a street: adds it at the end and makes it the current street.
    pub fn push_street(&mut self, street: Street)
        ensures
            final(self)@ == old(self)@.push(HistoryNodeView::Street(street@)),
    {
        let mut taken = History::new();
        core::mem::swap(self, &mut taken);
        let History { history: mut nodes, street: _ } = taken;
        let ghost before = nodes@;
        let ghost entry = HistoryNodeView::Street(street@);
        nodes.push(HistoryNode::Street(street.copy()));
        assert(nodes_view(nodes@) =~= nodes_view(before).push(entry));
        *self = History { history: nodes, street };
    }

    /// The latest entry, if there is one.
    pub fn last(&self) -> (node: Option<&HistoryNode>)
        ensures
            match node {
                Some(n) => self@.len() > 0 && n@ == self@.last(),
                None => self@.len() == 0,
            },
    {
        let n = self.history.len();
        if n == 0 {
            None
        } else {
            Some(&self.history[n - 1])
        }
    }

    /// The entry at an index.
    pub fn entry(&self, index: usize) -> (node: &HistoryNode)
        requires
            index < self@.len(),
        ensures
            node@ == self@[index as int],
    {
        &self.history[index]
    }

    /// The number of entries.
    pub fn len(&self) -> (n: usize)
        ensures
            n == self@.len(),
    {
        self.history.len()
    }

    /// Renders the history.
    pub fn to_string(&self) -> (s: String)
        requires
            all_printable(self@),
        ensures
            s@ == history_text(self@),
    {
        let mut s = String::new();
        let mut i: usize = 0;
        while i < self.history.len()
            invariant
                i <= self.history.len(),
                all_printable(nodes_view(self.history@)),
                s@ == history_text(nodes_view(self.history@).subrange(0, i as int)),
            decreases self.history.len() - i,
        {
            assert(nodes_view(self.history@)[i as int].printable());
            let node = self.history[i].to_string();
            s.append(node.as_str());
            i += 1;
            proof {
                let prefix = nodes_view(self.history@).subrange(0, i as int);
                assert(prefix.drop_last() =~= nodes_view(self.history@).subrange(0, i - 1));
            }
        }
        assert(nodes_view(self.history@).subrange(0, i as int) =~= nodes_view(self.history@));
        s
    }

    /// The entries of the history.
    pub fn to_vec(&self) -> (nodes: Vec<HistoryNode>)
        ensures
            nodes_view(nodes@) == self@,
    {
        let mut nodes: Vec<HistoryNode> = Vec::new();
        let mut i: usize = 0;
        while i < self.history.len()
            invariant
                i <= self.history.len(),
                nodes_view(nodes@) == nodes_view(self.history@).subrange(0, i as int),
            decreases self.history.len() - i,
        {
            let node = self.history[i].copy();
            proof {
                lemma_nodes_view_push(nodes@, node);
            }
            nodes.push(node);
            i += 1;
            assert(nodes_view(nodes@) =~= nodes_view(self.history@).subrange(0, i as int));
        }
        assert(nodes_view(self.history@).subrange(0, i as int) =~= nodes_view(self.history@));
        nodes
    }

    /// A copy of the history.
    pub fn copy(&self) -> (history: History)
        ensures
            history@ == self@,
    {
        proof {
            use_type_invariant(self);
        }
        History { history: self.to_vec(), street: self.street.copy() }
    }

    /// Whether two histories hold the same entries in the same order.
    pub fn same_as(&self, other: &History) -> (same: bool)
        ensures
            same == (self@ == other@),
    {
        if self.history.len() != other.history.len() {
            assert(self@.len() != other@.len());
            return false;
        }
        let mut i: usize = 0;
        while i < self.history.len()
            invariant
                i <= self.history.len(),
                self.history.len() == other.history.len(),
                forall|j: int| 0 <= j < i ==> self@[j] == other@[j],
            decreases self.history.len() - i,
        {
            if !self.history[i].same_as(&other.history[i]) {
                assert(self@[i as int] != other@[i as int]);
                return false;
            }
            i += 1;
        }
        assert(self@ =~= other@);
        true
    }

    /// The action of the latest entry; `Absent` where there is none or where
    /// the latest entry starts a street.
    pub fn last_action(&self) -> (action: Action)
        ensures
            action == last_action(self@),
    {
        let n = self.history.len();
        if n == 0 {
            Action::Absent
        } else {
            self.history[n - 1].get_action()
        }
    }

    /// Whether the history ends in a fold, in a call, or in two checks.
    pub fn is_terminal(&self) -> (terminal: bool)
        ensures
            terminal == betting_is_over(self@),
    {
        let n = self.history.len();
        if n == 0 {
            return false;
        }
        let last = self.history[n - 1].get_action();
        if last == Action::Fold || last == Action::Call {
            true
        } else if last == Action::Check && n >= 2 {
            self.history[n - 2].get_action() == Action::Check
        } else {
            false
        }
    }

    /// Whether the latest action is a fold.
    pub fn is_terminal_action(&self) -> (terminal: bool)
        ensures
            terminal == ends_with_fold(self@),
    {
        self.last_action() == Action::Fold
    }

    /// Whether the latest action closes the betting round.
    pub fn is_completing_action(&self) -> (completing: bool)
        ensures
            completing == closes_betting(self@),
    {
        let n = self.history.len();
        let last = self.last_action();
        if last == Action::Call {
            true
        } else if last == Action::Check && n >= 2 {
            self.history[n - 2].get_action() == Action::Check
        } else {
            false
        }
    }

    /// The street that the history is on.
    pub fn street(&self) -> (street: &Street)
        ensures
            street@ == current_street(self@),
    {
        proof {
            use_type_invariant(self);
        }
        &self.street
    }

    /// The street of the latest street entry, and the first street where
    /// there is none.
    pub fn find_street(history: &Vec<HistoryNode>) -> (street: Street)
        ensures
            street@ == current_street(nodes_view(history@)),
    {
        let ghost h = nodes_view(history@);
        let mut i: usize = history.len();
        assert(h.subrange(0, i as int) =~= h);
        while i > 0
            invariant
                i <= history.len(),
                h == nodes_view(history@),
                current_street(h) == current_street(h.subrange(0, i as int)),
            decreases i,
        {
            i -= 1;
            proof {
                let prefix = h.subrange(0, i + 1);
                assert(prefix.last() == h[i as int]);
                assert(prefix.drop_last() =~= h.subrange(0, i as int));
            }
            if history[i].is_street() {
                return history[i].get_street();
            }
        }
        Street::Preflop
    }
}

} // verus!
