//! Bet sizes.

use vstd::prelude::*;
use vstd::string::*;
use crate::text::{decimal, decimal_string};

verus! {

/// The size of a bet or raise: a number of chips (`C`), or a percentage of the
/// pot (`P`).
#[derive(Debug, Clone, Copy, PartialEq, Eq, Hash, Ord, PartialOrd, Structural)]
pub enum Bet {
    C(u32),
    P(u32),
}

impl Bet {
    /// The rendering of the size: chips carry the suffix `c`, percentages none.
    pub open spec fn text(self) -> Seq<char> {
        match self {
            Bet::C(chips) => decimal(chips as nat).push('c'),
            Bet::P(percent) => decimal(percent as nat),
        }
    }

    /// Renders the size.
    pub fn to_string(&self) -> (s: String)
        ensures
            s@ == self.text(),
    {
        match self {
            Bet::C(chips) => {
                let mut s = decimal_string(*chips);
                proof {
                    reveal_strlit("c");
                }
                s.append("c");
                assert(s@ =~= self.text());
                s
            },
            Bet::P(percent) => decimal_string(*percent),
        }
    }
}

} // verus!
