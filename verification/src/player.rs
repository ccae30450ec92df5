//! The two players.

use vstd::prelude::*;
use vstd::string::*;

verus! {

/// A player: in position (`IP`) or out of position (`OOP`). Out of position
/// acts first on every street.
#[derive(Debug, Clone, Copy, PartialEq, Hash, Eq, Ord, PartialOrd, Structural)]
pub enum Player {
    IP,
    OOP,
}

impl Player {
    /// The other player.
    pub open spec fn other(self) -> Player {
        match self {
            Player::IP => Player::OOP,
            Player::OOP => Player::IP,
        }
    }

    /// The rendering of the player.
    pub open spec fn text(self) -> Seq<char> {
        match self {
            Player::IP => seq!['I', 'P'],
            Player::OOP => seq!['O', 'O', 'P'],
        }
    }

    /// The index of the player: 0 for `IP`, 1 for `OOP`.
    pub fn as_usize(&self) -> (i: usize)
        ensures
            i == (if *self == Player::IP { 0usize } else { 1usize }),
    {
        match self {
            Player::IP => 0,
            Player::OOP => 1,
        }
    }

    /// The other player.
    pub fn opponent(&self) -> (p: Player)
        ensures
            p == self.other(),
    {
        match self {
            Player::IP => Player::OOP,
            Player::OOP => Player::IP,
        }
    }

    /// Renders the player.
    pub fn to_string(&self) -> (s: String)
        ensures
            s@ == self.text(),
    {
        proof {
            reveal_strlit("IP");
            reveal_strlit("OOP");
        }
        match self {
            Player::IP => {
                let s = String::from_str("IP");
                assert(s@ =~= self.text());
                s
            },
            Player::OOP => {
                let s = String::from_str("OOP");
                assert(s@ =~= self.text());
                s
            },
        }
    }
}

} // verus!
