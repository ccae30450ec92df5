//! The private cards of one player.

use vstd::prelude::*;
use vstd::string::*;
use core::cmp::Ordering;
use vstd::std_specs::cmp::PartialOrdSpecImpl;
use crate::card::Card;
use crate::error::ParseError;
use crate::suit::Suit;

verus! {

/// Two cards held by one player, the higher one first.
///
/// A pair of cards with a suited or offsuit marker stands for a class of
/// hands; `expand` lists the hands of the class.
#[derive(Clone, Copy, Debug, PartialEq, Eq, Hash, Structural)]
pub struct HoleCards {
    pub card1: Card,
    pub card2: Card,
}

/// The index of the second suit of the `k`-th pair of different suits, where
/// `first` is the index of the first.
pub open spec fn second_suit_index(first: int, k: int) -> int {
    if k < first {
        k
    } else {
        k + 1
    }
}

impl HoleCards {
    /// Whether two cards can be held together: if either carries a marker,
    /// both carry the same one.
    pub open spec fn markers_agree(a: Card, b: Card) -> bool {
        (a.suit.is_marker() || b.suit.is_marker()) ==> a.suit == b.suit
    }

    /// The two cards with the higher one first.
    pub open spec fn ordered(a: Card, b: Card) -> HoleCards {
        if a.at_least(b) {
            HoleCards { card1: a, card2: b }
        } else {
            HoleCards { card1: b, card2: a }
        }
    }

    /// Whether the higher card comes first.
    pub open spec fn normalized(self) -> bool {
        self.card1.at_least(self.card2)
    }

    /// The rendering of the hand: its two cards.
    pub open spec fn text(self) -> Seq<char> {
        self.card1.text() + self.card2.text()
    }

    /// Whether `self` comes strictly before `other`: by the first card, then
    /// by the second.
    pub open spec fn below(self, other: HoleCards) -> bool {
        self.card1.below(other.card1) || (self.card1 == other.card1 && self.card2.below(
            other.card2,
        ))
    }

    /// The hands of an offsuit class: for each ordered pair of different real
    /// suits, the first card in the first suit and the second card in the second.
    pub open spec fn offsuit_hands(self) -> Seq<HoleCards> {
        Seq::new(
            12,
            |k: int|
                HoleCards::ordered(
                    Card { rank: self.card1.rank, suit: Suit::real_suits()[k / 3] },
                    Card {
                        rank: self.card2.rank,
                        suit: Suit::real_suits()[second_suit_index(k / 3, k % 3)],
                    },
                ),
        )
    }

    /// The hands of a suited class: for each real suit, both cards in that suit.
    pub open spec fn suited_hands(self) -> Seq<HoleCards> {
        Seq::new(
            4,
            |k: int|
                HoleCards::ordered(
                    Card { rank: self.card1.rank, suit: Suit::real_suits()[k] },
                    Card { rank: self.card2.rank, suit: Suit::real_suits()[k] },
                ),
        )
    }

    /// The hands that this pair of cards stands for.
    pub open spec fn hands(self) -> Seq<HoleCards> {
        if self.card1.suit == Suit::Offsuit && self.card2.suit == Suit::Offsuit {
            self.offsuit_hands()
        } else if self.card1.suit == Suit::Suited && self.card2.suit == Suit::Suited {
            self.suited_hands()
        } else {
            seq![self]
        }
    }

    /// The class marker that a letter names.
    pub open spec fn marker_of_letter(c: char) -> Option<Suit> {
        if c == 's' {
            Some(Suit::Suited)
        } else if c == 'o' {
            Some(Suit::Offsuit)
        } else {
            None
        }
    }

    /// The hand that a piece of notation names, if it names one:
    /// two equal rank characters (a pair of any suits), two rank characters
    /// and `s` or `o` (a suited or offsuit class), or rank, suit, rank, suit.
    pub open spec fn of_text(s: Seq<char>) -> Option<HoleCards> {
        if s.len() == 2 && s[0] == s[1] {
            match Card::rank_of_char(s[0]) {
                Some(rank) => Some(
                    HoleCards {
                        card1: Card { rank, suit: Suit::Offsuit },
                        card2: Card { rank, suit: Suit::Offsuit },
                    },
                ),
                None => None,
            }
        } else if s.len() == 3 {
            match (
                Card::rank_of_char(s[0]),
                Card::rank_of_char(s[1]),
                HoleCards::marker_of_letter(s[2]),
            ) {
                (Some(rank1), Some(rank2), Some(suit)) => Some(
                    HoleCards::ordered(Card { rank: rank1, suit }, Card { rank: rank2, suit }),
                ),
                _ => None,
            }
        } else if s.len() == 4 {
            match (
                Card::rank_of_char(s[0]),
                Suit::of_letter(s[1]),
                Card::rank_of_char(s[2]),
                Suit::of_letter(s[3]),
            ) {
                (Some(rank1), Some(suit1), Some(rank2), Some(suit2)) => Some(
                    HoleCards::ordered(
                        Card { rank: rank1, suit: suit1 },
                        Card { rank: rank2, suit: suit2 },
                    ),
                ),
                _ => None,
            }
        } else {
            None
        }
    }

    /// The hand of two cards, the higher one first. Cards whose markers do
    /// not agree are rejected.
    pub fn new(card1: &Card, card2: &Card) -> (r: Result<HoleCards, ParseError>)
        ensures
            r == (if HoleCards::markers_agree(*card1, *card2) {
                Ok::<HoleCards, ParseError>(HoleCards::ordered(*card1, *card2))
            } else {
                let pair = HoleCards::ordered(*card1, *card2);
                Err(ParseError::MismatchedSuitMarkers(pair.card1, pair.card2))
            }),
    {
        let pair = HoleCards::in_order(*card1, *card2);
        let suit1 = card1.suit;
        let suit2 = card2.suit;
        if (suit1 == Suit::Offsuit || suit2 == Suit::Offsuit || suit1 == Suit::Suited || suit2
            == Suit::Suited) && suit1 != suit2 {
            Err(ParseError::MismatchedSuitMarkers(pair.card1, pair.card2))
        } else {
            Ok(pair)
        }
    }

    /// The two cards with the higher one first.
    pub fn in_order(card1: Card, card2: Card) -> (pair: HoleCards)
        ensures
            pair == HoleCards::ordered(card1, card2),
    {
        if card1.is_below(&card2) {
            HoleCards { card1: card2, card2: card1 }
        } else {
            HoleCards { card1, card2 }
        }
    }

    /// The hand of two diamonds of the given ranks.
    pub fn new_with_ranks(rank1: u8, rank2: u8) -> (pair: HoleCards)
        requires
            1 <= rank1 <= 14,
            1 <= rank2 <= 14,
        ensures
            pair == HoleCards::ordered(Card::diamond(rank1), Card::diamond(rank2)),
    {
        let card1 = Card::new(rank1, Suit::Diamonds);
        let card2 = Card::new(rank2, Suit::Diamonds);
        HoleCards::in_order(card1, card2)
    }

    /// The class of all pairs of the given rank.
    pub fn new_with_rank(rank: u8) -> (pair: HoleCards)
        requires
            1 <= rank <= 14,
        ensures
            pair == (HoleCards {
                card1: Card { rank, suit: Suit::Offsuit },
                card2: Card { rank, suit: Suit::Offsuit },
            }),
    {
        let card = Card::new(rank, Suit::Offsuit);
        HoleCards::in_order(card, card)
    }

    /// The higher of the two ranks.
    pub fn highest(&self) -> (rank: u8)
        ensures
            rank == (if self.card1.rank >= self.card2.rank {
                self.card1.rank
            } else {
                self.card2.rank
            }),
    {
        if self.card1.rank >= self.card2.rank {
            self.card1.rank
        } else {
            self.card2.rank
        }
    }

    /// The two cards.
    pub fn cards(&self) -> (cards: [Card; 2])
        ensures
            cards@ == seq![self.card1, self.card2],
    {
        let cards = [self.card1, self.card2];
        assert(cards@ =~= seq![self.card1, self.card2]);
        cards
    }

    /// Renders the hand.
    pub fn to_string(&self) -> (s: String)
        ensures
            s@ == self.text(),
    {
        let mut s = self.card1.to_string();
        let second = self.card2.to_string();
        s.append(second.as_str());
        s
    }

    /// The hands that this pair of cards stands for: twelve for an offsuit
    /// class, four for a suited class, and the pair itself otherwise.
    pub fn expand(&self) -> (hands: Vec<HoleCards>)
        ensures
            hands@ == self.hands(),
    {
        let suit1 = self.card1.suit;
        let suit2 = self.card2.suit;
        if suit1 == Suit::Offsuit && suit2 == Suit::Offsuit {
            self.expand_offsuit()
        } else if suit1 == Suit::Suited && suit2 == Suit::Suited {
            self.expand_suited()
        } else {
            let mut hands: Vec<HoleCards> = Vec::new();
            hands.push(*self);
            assert(hands@ =~= seq![*self]);
            hands
        }
    }

    /// The hands of the offsuit class with these ranks.
    pub fn expand_offsuit(&self) -> (hands: Vec<HoleCards>)
        ensures
            hands@ == self.offsuit_hands(),
    {
        let suits = Suit::to_vec();
        let mut hands: Vec<HoleCards> = Vec::new();
        let mut i: usize = 0;
        while i < 4
            invariant
                i <= 4,
                suits@ == Suit::real_suits(),
                hands@ == self.offsuit_hands().subrange(0, 3 * i),
            decreases 4 - i,
        {
            let mut j: usize = 0;
            let mut k: usize = 0;
            while j < 4
                invariant
                    i < 4,
                    j <= 4,
                    k == (if j <= i { j } else { (j - 1) as usize }),
                    suits@ == Suit::real_suits(),
                    hands@ == self.offsuit_hands().subrange(0, 3 * i + k),
                decreases 4 - j,
            {
                if i != j {
                    let hand = HoleCards::in_order(
                        Card { rank: self.card1.rank, suit: suits[i] },
                        Card { rank: self.card2.rank, suit: suits[j] },
                    );
                    proof {
                        let n = 3 * i + k;
                        assert(n / 3 == i as int && n % 3 == k as int);
                        assert(second_suit_index(i as int, k as int) == j as int);
                        assert(hand == self.offsuit_hands()[n]);
                    }
                    hands.push(hand);
                    k += 1;
                    assert(hands@ =~= self.offsuit_hands().subrange(0, 3 * i + k));
                }
                j += 1;
            }
            i += 1;
        }
        assert(self.offsuit_hands().subrange(0, 12) =~= self.offsuit_hands());
        hands
    }

    /// The hands of the suited class with these ranks.
    pub fn expand_suited(&self) -> (hands: Vec<HoleCards>)
        ensures
            hands@ == self.suited_hands(),
    {
        let suits = Suit::to_vec();
        let mut hands: Vec<HoleCards> = Vec::new();
        let mut i: usize = 0;
        while i < 4
            invariant
                i <= 4,
                suits@ == Suit::real_suits(),
                hands@ == self.suited_hands().subrange(0, i as int),
            decreases 4 - i,
        {
            let hand = HoleCards::in_order(
                Card { rank: self.card1.rank, suit: suits[i] },
                Card { rank: self.card2.rank, suit: suits[i] },
            );
            hands.push(hand);
            i += 1;
            assert(hands@ =~= self.suited_hands().subrange(0, i as int));
        }
        assert(self.suited_hands().subrange(0, 4) =~= self.suited_hands());
        hands
    }

    /// Reads a hand from its notation. Text that names no hand is rejected
    /// and handed back in the error.
    pub fn new_from_string(hole_cards_str: &str) -> (r: Result<HoleCards, ParseError>)
        ensures
            match HoleCards::of_text(hole_cards_str@) {
                Some(hand) => r == Ok::<HoleCards, ParseError>(hand),
                None => r matches Err(ParseError::InvalidHoleCards(text)) && text@
                    == hole_cards_str@,
            },
    {
        let n = hole_cards_str.unicode_len();
        if n == 2 && hole_cards_str.get_char(0) == hole_cards_str.get_char(1) {
            if let Ok(rank) = Card::rank_from_char(hole_cards_str.get_char(0)) {
                return Ok(HoleCards::new_with_rank(rank));
            }
        } else if n == 3 {
            let rank1 = Card::rank_from_char(hole_cards_str.get_char(0));
            let rank2 = Card::rank_from_char(hole_cards_str.get_char(1));
            let suit_char = hole_cards_str.get_char(2);
            let marker = if suit_char == 's' {
                Some(Suit::Suited)
            } else if suit_char == 'o' {
                Some(Suit::Offsuit)
            } else {
                None
            };
            if let (Ok(rank1), Ok(rank2), Some(suit)) = (rank1, rank2, marker) {
                return Ok(HoleCards::in_order(Card::new(rank1, suit), Card::new(rank2, suit)));
            }
        } else if n == 4 {
            let rank1 = Card::rank_from_char(hole_cards_str.get_char(0));
            let suit1 = Suit::from_char(hole_cards_str.get_char(1));
            let rank2 = Card::rank_from_char(hole_cards_str.get_char(2));
            let suit2 = Suit::from_char(hole_cards_str.get_char(3));
            if let (Ok(rank1), Ok(suit1), Ok(rank2), Ok(suit2)) = (rank1, suit1, rank2, suit2) {
                return Ok(HoleCards::in_order(Card::new(rank1, suit1), Card::new(rank2, suit2)));
            }
        }
        Err(ParseError::InvalidHoleCards(String::from_str(hole_cards_str)))
    }
}

/// The hand of two cards does not depend on the order in which they are given.
pub proof fn lemma_hole_cards_order_irrelevant(a: Card, b: Card)
    ensures
        HoleCards::ordered(a, b) == HoleCards::ordered(b, a),
        HoleCards::markers_agree(a, b) == HoleCards::markers_agree(b, a),
        HoleCards::ordered(a, b).normalized(),
{
    if a.at_least(b) && b.at_least(a) {
        assert(a.rank == b.rank);
        assert(a.suit.index() == b.suit.index());
        assert(a.suit == b.suit);
        assert(a == b);
    }
}

impl PartialOrd for HoleCards {
    fn partial_cmp(&self, other: &HoleCards) -> (r: Option<Ordering>) {
        if self.card1.is_below(&other.card1) {
            Some(Ordering::Less)
        } else if other.card1.is_below(&self.card1) {
            Some(Ordering::Greater)
        } else if self.card2.is_below(&other.card2) {
            Some(Ordering::Less)
        } else if other.card2.is_below(&self.card2) {
            Some(Ordering::Greater)
        } else {
            Some(Ordering::Equal)
        }
    }
}

impl PartialOrdSpecImpl for HoleCards {
    open spec fn obeys_partial_cmp_spec() -> bool {
        true
    }

    open spec fn partial_cmp_spec(&self, other: &HoleCards) -> Option<Ordering> {
        if self.below(*other) {
            Some(Ordering::Less)
        } else if other.below(*self) {
            Some(Ordering::Greater)
        } else {
            Some(Ordering::Equal)
        }
    }
}

} // verus!
