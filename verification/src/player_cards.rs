//! The private cards of both players.

use vstd::prelude::*;
use vstd::string::*;
use crate::hole_cards::HoleCards;
use crate::player::Player;

verus! {

/// The hole cards of the two players.
#[derive(Debug, Clone, Copy, PartialEq, Eq, Structural)]
pub struct PlayerCards {
    ip: HoleCards,
    oop: HoleCards,
}

impl PlayerCards {
    /// The cards of a player.
    pub closed spec fn of(self, player: Player) -> HoleCards {
        match player {
            Player::IP => self.ip,
            Player::OOP => self.oop,
        }
    }

    /// The cards of the two players.
    pub closed spec fn of_hands(ip: HoleCards, oop: HoleCards) -> PlayerCards {
        PlayerCards { ip, oop }
    }

    /// The rendering of the cards: those in position, a bar, those out of position.
    pub open spec fn text(self) -> Seq<char> {
        self.of(Player::IP).text() + seq!['|'] + self.of(Player::OOP).text()
    }

    /// The cards of the two players are those that were given.
    pub proof fn lemma_of_hands(ip: HoleCards, oop: HoleCards)
        ensures
            PlayerCards::of_hands(ip, oop).of(Player::IP) == ip,
            PlayerCards::of_hands(ip, oop).of(Player::OOP) == oop,
    {
    }

    /// The cards of the two players.
    pub fn new(ip: HoleCards, oop: HoleCards) -> (cards: PlayerCards)
        ensures
            cards == PlayerCards::of_hands(ip, oop),
            cards.of(Player::IP) == ip,
            cards.of(Player::OOP) == oop,
    {
        PlayerCards { ip, oop }
    }

    /// The cards of a player.
    pub fn get(&self, player: Player) -> (cards: HoleCards)
        ensures
            cards == self.of(player),
    {
        match player {
            Player::IP => self.ip,
            Player::OOP => self.oop,
        }
    }

    /// Renders the cards.
    pub fn to_string(&self) -> (s: String)
        ensures
            s@ == self.text(),
    {
        proof {
            reveal_strlit("|");
        }
        let mut s = self.ip.to_string();
        s.append("|");
        let oop = self.oop.to_string();
        s.append(oop.as_str());
        assert(s@ =~= self.text());
        s
    }
}

} // verus!
