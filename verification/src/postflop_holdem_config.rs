//! The set-up of a hold'em game that starts on the flop.

use vstd::prelude::*;
use crate::bet::Bet;
use crate::board::Board;
use crate::card::Card;
use crate::hole_cards::HoleCards;
use crate::range::{with_hands, Range};
use crate::suit::Suit;
use crate::weight::Weight;

verus! {

/// A copy of a vector of bet sizes.
pub fn copy_bets(bets: &Vec<Bet>) -> (copy: Vec<Bet>)
    ensures
        copy@ == bets@,
{
    let mut copy: Vec<Bet> = Vec::new();
    let mut i: usize = 0;
    while i < bets.len()
        invariant
            i <= bets.len(),
            copy@ == bets@.subrange(0, i as int),
        decreases bets.len() - i,
    {
        copy.push(bets[i]);
        i += 1;
        assert(copy@ =~= bets@.subrange(0, i as int));
    }
    assert(bets@.subrange(0, i as int) =~= bets@);
    copy
}

/// The set-up of a hold'em game that starts on the flop: the ranges of the
/// two players, the flop, the chips in the pot and behind, and the bet sizes
/// of each street.
#[derive(Debug)]
pub struct PostflopHoldemConfig {
    pub ip_hands: Range,
    pub oop_hands: Range,
    pub flop: Board,
    pub initial_pot: u32,
    pub effective_stack: u32,
    pub flop_sizes: Vec<Bet>,
    pub turn_sizes: Vec<Bet>,
    pub river_sizes: Vec<Bet>,
    pub default_size: Bet,
}

/// The flop of the default set-up: ace of diamonds, jack of clubs, two of hearts.
pub open spec fn default_flop() -> Seq<Card> {
    seq![
        Card { rank: 14, suit: Suit::Diamonds },
        Card { rank: 11, suit: Suit::Clubs },
        Card { rank: 2, suit: Suit::Hearts },
    ]
}

/// The class of all pairs of the given rank.
pub open spec fn pair_class(rank: u8) -> HoleCards {
    HoleCards {
        card1: Card { rank, suit: Suit::Offsuit },
        card2: Card { rank, suit: Suit::Offsuit },
    }
}

impl Clone for PostflopHoldemConfig {
    fn clone(&self) -> (config: PostflopHoldemConfig)
        ensures
            config.ip_hands@ == self.ip_hands@,
            config.oop_hands@ == self.oop_hands@,
            config.flop@ == self.flop@,
            config.initial_pot == self.initial_pot,
            config.effective_stack == self.effective_stack,
            config.flop_sizes@ == self.flop_sizes@,
            config.turn_sizes@ == self.turn_sizes@,
            config.river_sizes@ == self.river_sizes@,
            config.default_size == self.default_size,
    {
        PostflopHoldemConfig {
            ip_hands: self.ip_hands.clone(),
            oop_hands: self.oop_hands.clone(),
            flop: self.flop.clone(),
            initial_pot: self.initial_pot,
            effective_stack: self.effective_stack,
            flop_sizes: copy_bets(&self.flop_sizes),
            turn_sizes: copy_bets(&self.turn_sizes),
            river_sizes: copy_bets(&self.river_sizes),
            default_size: self.default_size,
        }
    }
}

impl PostflopHoldemConfig {
    /// The default set-up: aces and queens in position against kings out of
    /// position, on a flop of ace, jack, two, with a pot of 53 chips, 74 chips
    /// behind, and bets of a quarter of the pot on the flop, five quarters on
    /// the turn and twice the pot on the river.
    pub fn new_default() -> (config: PostflopHoldemConfig)
        ensures
            config.ip_hands@ == with_hands(
                Seq::empty(),
                seq![pair_class(14), pair_class(12)],
                Weight::full(),
            ),
            config.oop_hands@ == with_hands(Seq::empty(), seq![pair_class(13)], Weight::full()),
            config.flop@ == default_flop(),
            config.initial_pot == 53,
            config.effective_stack == 74,
            config.flop_sizes@ == seq![Bet::P(25)],
            config.turn_sizes@ == seq![Bet::P(125)],
            config.river_sizes@ == seq![Bet::P(200)],
            config.default_size == Bet::P(100),
    {
        let mut ip: Vec<HoleCards> = Vec::new();
        ip.push(HoleCards::new_with_rank(14));
        ip.push(HoleCards::new_with_rank(12));
        assert(ip@ =~= seq![pair_class(14), pair_class(12)]);
        let mut oop: Vec<HoleCards> = Vec::new();
        oop.push(HoleCards::new_with_rank(13));
        assert(oop@ =~= seq![pair_class(13)]);
        let mut flop: Vec<Card> = Vec::new();
        flop.push(Card::new(14, Suit::Diamonds));
        flop.push(Card::new(11, Suit::Clubs));
        flop.push(Card::new(2, Suit::Hearts));
        assert(flop@ =~= default_flop());
        let mut flop_sizes: Vec<Bet> = Vec::new();
        flop_sizes.push(Bet::P(25));
        assert(flop_sizes@ =~= seq![Bet::P(25)]);
        let mut turn_sizes: Vec<Bet> = Vec::new();
        turn_sizes.push(Bet::P(125));
        assert(turn_sizes@ =~= seq![Bet::P(125)]);
        let mut river_sizes: Vec<Bet> = Vec::new();
        river_sizes.push(Bet::P(200));
        assert(river_sizes@ =~= seq![Bet::P(200)]);
        PostflopHoldemConfig {
            ip_hands: Range::new_pure_range(ip),
            oop_hands: Range::new_pure_range(oop),
            initial_pot: 53,
            effective_stack: 74,
            flop: Board::from_vec(flop),
            flop_sizes,
            turn_sizes,
            river_sizes,
            default_size: Bet::P(100),
        }
    }

    /// The range of the player out of position.
    pub fn oop_range(&self) -> (range: Range)
        ensures
            range@ == self.oop_hands@,
    {
        self.oop_hands.clone()
    }

    /// The range of the player in position.
    pub fn ip_range(&self) -> (range: Range)
        ensures
            range@ == self.ip_hands@,
    {
        self.ip_hands.clone()
    }
}

} // verus!
