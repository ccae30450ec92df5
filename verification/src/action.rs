//! Player actions.

use vstd::prelude::*;
use vstd::string::*;
use crate::bet::Bet;

verus! {

/// What a player does at a decision point. `Absent` stands for "no action yet".
#[derive(Debug, Clone, Copy, PartialEq, Eq, Hash, Ord, PartialOrd, Structural)]
pub enum Action {
    Fold,
    Check,
    Call,
    Bet(Bet),
    Raise(Bet),
    Absent,
}

impl Action {
    /// The rendering of the action, as it appears in information-state keys.
    pub open spec fn text(self) -> Seq<char> {
        match self {
            Action::Fold => seq!['F'],
            Action::Call => seq!['C'],
            Action::Bet(bet) => seq!['B'] + bet.text(),
            Action::Raise(bet) => seq!['R'] + bet.text(),
            Action::Check => seq!['X'],
            Action::Absent => seq!['-'],
        }
    }

    /// Renders the action.
    pub fn to_string(&self) -> (s: String)
        ensures
            s@ == self.text(),
    {
        proof {
            reveal_strlit("F");
            reveal_strlit("C");
            reveal_strlit("B");
            reveal_strlit("R");
            reveal_strlit("X");
            reveal_strlit("-");
        }
        match self {
            Action::Fold => {
                let s = String::from_str("F");
                assert(s@ =~= self.text());
                s
            },
            Action::Call => {
                let s = String::from_str("C");
                assert(s@ =~= self.text());
                s
            },
            Action::Bet(bet) => {
                let mut s = String::from_str("B");
                let size = bet.to_string();
                s.append(size.as_str());
                assert(s@ =~= self.text());
                s
            },
            Action::Raise(bet) => {
                let mut s = String::from_str("R");
                let size = bet.to_string();
                s.append(size.as_str());
                assert(s@ =~= self.text());
                s
            },
            Action::Check => {
                let s = String::from_str("X");
                assert(s@ =~= self.text());
                s
            },
            Action::Absent => {
                let s = String::from_str("-");
                assert(s@ =~= self.text());
                s
            },
        }
    }
}

} // verus!
