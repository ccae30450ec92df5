//! A growable list of actions.

use vstd::prelude::*;
use vstd::string::*;
use crate::action::Action;

verus! {

/// The rendering of a run of actions: their renderings, one after another.
pub open spec fn actions_text(actions: Seq<Action>) -> Seq<char>
    decreases actions.len(),
{
    if actions.len() == 0 {
        Seq::empty()
    } else {
        actions_text(actions.drop_last()) + actions.last().text()
    }
}

/// A copy of a vector of actions.
pub fn copy_actions(actions: &Vec<Action>) -> (copy: Vec<Action>)
    ensures
        copy@ == actions@,
{
    let mut copy: Vec<Action> = Vec::new();
    let mut i: usize = 0;
    while i < actions.len()
        invariant
            i <= actions.len(),
            copy@ == actions@.subrange(0, i as int),
        decreases actions.len() - i,
    {
        copy.push(actions[i]);
        i += 1;
        assert(copy@ =~= actions@.subrange(0, i as int));
    }
    assert(actions@.subrange(0, i as int) =~= actions@);
    copy
}

/// Actions in the order in which they were added.
#[derive(Debug, PartialEq, Eq, Hash)]
pub struct ActionList {
    action_list: Vec<Action>,
}

impl View for ActionList {
    type V = Seq<Action>;

    closed spec fn view(&self) -> Seq<Action> {
        self.action_list@
    }
}

impl Clone for ActionList {
    fn clone(&self) -> (list: ActionList)
        ensures
            list@ == self@,
    {
        ActionList { action_list: copy_actions(&self.action_list) }
    }
}

impl ActionList {
    /// An empty list.
    pub fn new() -> (list: ActionList)
        ensures
            list@ == Seq::<Action>::empty(),
    {
        ActionList { action_list: Vec::new() }
    }

    /// Adds an action at the end.
    pub fn push(&mut self, action: Action)
        ensures
            final(self)@ == old(self)@.push(action),
    {
        self.action_list.push(action);
    }

    /// The latest action, if there is one.
    pub fn last(&self) -> (action: Option<&Action>)
        ensures
            action == (if self@.len() > 0 {
                Some(&self@.last())
            } else {
                None
            }),
    {
        let n = self.action_list.len();
        if n == 0 {
            None
        } else {
            Some(&self.action_list[n - 1])
        }
    }

    /// The number of actions.
    pub fn len(&self) -> (n: usize)
        ensures
            n == self@.len(),
    {
        self.action_list.len()
    }

    /// The action at an index, if the index is in range.
    pub fn get(&self, index: usize) -> (action: Option<&Action>)
        ensures
            action == (if index < self@.len() {
                Some(&self@[index as int])
            } else {
                None
            }),
    {
        if index < self.action_list.len() {
            Some(&self.action_list[index])
        } else {
            None
        }
    }

    /// An iterator over the actions, in their order.
    pub fn iter(&self) -> (actions: core::slice::Iter<'_, Action>)
        ensures
            vstd::std_specs::slice::into_iter_elts(actions) == self@,
    {
        broadcast use vstd::std_specs::slice::axiom_spec_slice_iter;

        let actions = self.action_list.as_slice().iter();
        assert(self.action_list@.as_ref().unref() =~= self.action_list@);
        actions
    }

    /// The actions.
    pub fn to_vec(&self) -> (actions: Vec<Action>)
        ensures
            actions@ == self@,
    {
        copy_actions(&self.action_list)
    }

    /// Renders the list.
    pub fn to_string(&self) -> (s: String)
        ensures
            s@ == actions_text(self@),
    {
        let mut s = String::new();
        let mut i: usize = 0;
        while i < self.action_list.len()
            invariant
                i <= self.action_list.len(),
                s@ == actions_text(self.action_list@.subrange(0, i as int)),
            decreases self.action_list.len() - i,
        {
            let action = self.action_list[i].to_string();
            s.append(action.as_str());
            i += 1;
            proof {
                let prefix = self.action_list@.subrange(0, i as int);
                assert(prefix.drop_last() =~= self.action_list@.subrange(0, i - 1));
            }
        }
        assert(self.action_list@.subrange(0, i as int) =~= self.action_list@);
        s
    }
}

} // verus!
