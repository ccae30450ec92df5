//! Whose chips change hands at the end of a hand, and with which sign
//! utilities pass up the tree.

use vstd::prelude::*;
use crate::player::Player;

verus! {

/// Whether an amount is won or lost.
#[derive(Debug, Clone, Copy, PartialEq, Eq, Hash, Structural)]
pub enum Sign {
    Plus,
    Minus,
}

impl Sign {
    /// The other sign.
    pub open spec fn flipped(self) -> Sign {
        match self {
            Sign::Plus => Sign::Minus,
            Sign::Minus => Sign::Plus,
        }
    }

    /// The other sign.
    pub fn flip(&self) -> (sign: Sign)
        ensures
            sign == self.flipped(),
    {
        match self {
            Sign::Plus => Sign::Minus,
            Sign::Minus => Sign::Plus,
        }
    }
}

/// What a player gets at the end of a hand: the contribution of one of the
/// players to the pot, won or lost.
#[derive(Debug, Clone, Copy, PartialEq, Eq, Hash, Structural)]
pub struct Stake {
    /// The player whose contribution it is.
    pub of: Player,
    /// Whether it is won or lost.
    pub sign: Sign,
}

/// The stake of a player at the end of a hand: who wins, wins what the
/// opponent put in; who loses, loses what they put in themselves; and where
/// nobody wins, each gets back their own.
pub open spec fn stake_of(player: Player, won: Option<bool>) -> Stake {
    match won {
        Some(true) => Stake { of: player.other(), sign: Sign::Plus },
        Some(false) => Stake { of: player, sign: Sign::Minus },
        None => Stake { of: player, sign: Sign::Plus },
    }
}

/// The sign with which the value of the next street passes to the node that
/// ends a street: the next street is valued for the player out of position,
/// who is the opponent of a player in position.
pub open spec fn street_sign_of(player: Player) -> Sign {
    match player {
        Player::IP => Sign::Plus,
        Player::OOP => Sign::Minus,
    }
}

/// The stake of a player at the end of a hand.
pub fn payoff_stake(player: Player, won: Option<bool>) -> (stake: Stake)
    ensures
        stake == stake_of(player, won),
{
    match won {
        Some(true) => Stake { of: player.opponent(), sign: Sign::Plus },
        Some(false) => Stake { of: player, sign: Sign::Minus },
        None => Stake { of: player, sign: Sign::Plus },
    }
}

/// The sign with which the value of the next street passes to the node that
/// ends a street.
pub fn street_sign(player: Player) -> (sign: Sign)
    ensures
        sign == street_sign_of(player),
{
    match player {
        Player::IP => Sign::Plus,
        Player::OOP => Sign::Minus,
    }
}

/// Where one player wins, the two players' stakes are the same contribution
/// with opposite signs: what one wins, the other loses.
pub proof fn lemma_zero_sum(player: Player, won: bool)
    ensures
        stake_of(player, Some(won)).of == stake_of(player.other(), Some(!won)).of,
        stake_of(player, Some(won)).sign == stake_of(player.other(), Some(!won)).sign.flipped(),
{
}

/// Where nobody wins, each player gets back their own contribution.
pub proof fn lemma_split_pot(player: Player)
    ensures
        stake_of(player, None) == (Stake { of: player, sign: Sign::Plus }),
        stake_of(player.other(), None) == (Stake { of: player.other(), sign: Sign::Plus }),
{
}

} // verus!
