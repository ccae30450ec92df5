//! The entries of a history.

use vstd::prelude::*;
use vstd::string::*;
use crate::action::Action;
use crate::street::{Street, StreetView};

verus! {

/// One entry of a history: an action of a player, or the start of a street.
#[derive(Debug, PartialEq, Eq, Hash, PartialOrd)]
pub enum HistoryNode {
    Action(Action),
    Street(Street),
}

/// The mathematical value of a `HistoryNode`.
pub enum HistoryNodeView {
    Action(Action),
    Street(StreetView),
}

impl HistoryNodeView {
    /// The action of the entry; `Absent` for the start of a street.
    pub open spec fn action(self) -> Action {
        match self {
            HistoryNodeView::Action(action) => action,
            HistoryNodeView::Street(_) => Action::Absent,
        }
    }

    /// The street of the entry; `Absent` for an action.
    pub open spec fn street(self) -> StreetView {
        match self {
            HistoryNodeView::Action(_) => StreetView::Absent,
            HistoryNodeView::Street(street) => street,
        }
    }

    /// The rendering of the entry.
    pub open spec fn text(self) -> Seq<char> {
        match self {
            HistoryNodeView::Action(action) => action.text(),
            HistoryNodeView::Street(street) => street.text(),
        }
    }

    /// Whether the entry can be rendered: it is not the start of no street.
    pub open spec fn printable(self) -> bool {
        !(self matches HistoryNodeView::Street(street) && street is Absent)
    }
}

impl View for HistoryNode {
    type V = HistoryNodeView;

    open spec fn view(&self) -> HistoryNodeView {
        match self {
            HistoryNode::Action(action) => HistoryNodeView::Action(*action),
            HistoryNode::Street(street) => HistoryNodeView::Street(street@),
        }
    }
}

impl Clone for HistoryNode {
    fn clone(&self) -> (node: HistoryNode)
        ensures
            node@ == self@,
    {
        self.copy()
    }
}

impl HistoryNode {
    /// Whether the entry starts a street.
    pub fn is_street(&self) -> (b: bool)
        ensures
            b == (self@ is Street),
    {
        match self {
            HistoryNode::Action(_) => false,
            HistoryNode::Street(_) => true,
        }
    }

    /// Whether the entry is an action.
    pub fn is_action(&self) -> (b: bool)
        ensures
            b == (self@ is Action),
    {
        match self {
            HistoryNode::Action(_) => true,
            HistoryNode::Street(_) => false,
        }
    }

    /// The street of the entry; `Absent` for an action.
    pub fn get_street(&self) -> (street: Street)
        ensures
            street@ == self@.street(),
    {
        match self {
            HistoryNode::Action(_) => Street::Absent,
            HistoryNode::Street(street) => street.copy(),
        }
    }

    /// The action of the entry; `Absent` for the start of a street.
    pub fn get_action(&self) -> (action: Action)
        ensures
            action == self@.action(),
    {
        match self {
            HistoryNode::Action(action) => *action,
            HistoryNode::Street(_) => Action::Absent,
        }
    }

    /// Renders the entry.
    pub fn to_string(&self) -> (s: String)
        requires
            self@.printable(),
        ensures
            s@ == self@.text(),
    {
        match self {
            HistoryNode::Action(action) => action.to_string(),
            HistoryNode::Street(street) => street.to_string(),
        }
    }

    /// Whether two entries are the same.
    pub fn same_as(&self, other: &HistoryNode) -> (same: bool)
        ensures
            same == (self@ == other@),
    {
        match (self, other) {
            (HistoryNode::Action(a), HistoryNode::Action(b)) => *a == *b,
            (HistoryNode::Street(a), HistoryNode::Street(b)) => a.same_as(b),
            _ => false,
        }
    }

    /// A copy of the entry.
    pub fn copy(&self) -> (node: HistoryNode)
        ensures
            node@ == self@,
    {
        match self {
            HistoryNode::Action(action) => HistoryNode::Action(*action),
            HistoryNode::Street(street) => HistoryNode::Street(street.copy()),
        }
    }
}

} // verus!
