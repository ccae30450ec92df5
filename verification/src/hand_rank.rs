//! Poker hands and the showdown.

use vstd::prelude::*;
use vstd::string::*;
use core::cmp::Ordering;
use vstd::std_specs::cmp::{PartialEqSpecImpl, PartialOrdSpecImpl};
use crate::board::{cards_text, Board};
use crate::card::Card;
use crate::card_array::{
    all_playable, best_straight, compare_counts, count_rank, count_slot, flush_hand_cards,
    flush_hand_count, flush_suit, high_hand_cards, high_hand_count, lemma_compare_counts_flips,
    pair_category, pair_hand_cards, pair_hand_count, playable, straight_flush_hand_cards,
    straight_flush_hand_count, straight_flush_suit, straight_hand_cards, straight_hand_count,
    CardArray,
};
use crate::hole_cards::HoleCards;

verus! {

/// The name of the kind of hand with the given strength.
pub open spec fn category_name(category: nat) -> Seq<char> {
    if category == 9 {
        "Straight flush"@
    } else if category == 8 {
        "Four of a kind"@
    } else if category == 7 {
        "Full house"@
    } else if category == 6 {
        "Flush"@
    } else if category == 5 {
        "Straight"@
    } else if category == 4 {
        "Three of a kind"@
    } else if category == 3 {
        "Two pair"@
    } else if category == 2 {
        "One pair"@
    } else if category == 1 {
        "High card"@
    } else {
        "None"@
    }
}

/// The kind of a poker hand, with the cards that make it up. `Absent`
/// stands for "no hand of the kind that was looked for".
#[derive(Debug)]
pub enum HandRank {
    StraightFlush(CardArray),
    FourOfAKind(CardArray),
    FullHouse(CardArray),
    Flush(CardArray),
    Straight(CardArray),
    ThreeOfAKind(CardArray),
    TwoPair(CardArray),
    OnePair(CardArray),
    HighCard(CardArray),
    Absent,
}

impl HandRank {
    /// The strength of the kind of hand: from 9 for a straight flush down to
    /// 1 for a high card, and 0 for no hand.
    pub open spec fn category(&self) -> nat {
        match self {
            HandRank::StraightFlush(_) => 9,
            HandRank::FourOfAKind(_) => 8,
            HandRank::FullHouse(_) => 7,
            HandRank::Flush(_) => 6,
            HandRank::Straight(_) => 5,
            HandRank::ThreeOfAKind(_) => 4,
            HandRank::TwoPair(_) => 3,
            HandRank::OnePair(_) => 2,
            HandRank::HighCard(_) => 1,
            HandRank::Absent => 0,
        }
    }

    /// The rendering of the hand.
    pub open spec fn text(&self) -> Seq<char> {
        if self is Absent {
            category_name(0)
        } else {
            category_name(self.category()) + seq![':', ' '] + cards_text(self.array().cards@)
        }
    }

    /// The cards of the hand. Of no hand, nothing is said.
    pub open spec fn array(&self) -> CardArray {
        match self {
            HandRank::StraightFlush(array) => *array,
            HandRank::FourOfAKind(array) => *array,
            HandRank::FullHouse(array) => *array,
            HandRank::Flush(array) => *array,
            HandRank::Straight(array) => *array,
            HandRank::ThreeOfAKind(array) => *array,
            HandRank::TwoPair(array) => *array,
            HandRank::OnePair(array) => *array,
            HandRank::HighCard(array) => *array,
            HandRank::Absent => arbitrary(),
        }
    }

    /// The hand of the kind with the given strength that is made up of the
    /// given cards.
    pub fn of_category(category: u8, array: CardArray) -> (hand: HandRank)
        requires
            1 <= category <= 9,
        ensures
            hand.category() == category,
            hand.array() == array,
    {
        if category == 9 {
            HandRank::StraightFlush(array)
        } else if category == 8 {
            HandRank::FourOfAKind(array)
        } else if category == 7 {
            HandRank::FullHouse(array)
        } else if category == 6 {
            HandRank::Flush(array)
        } else if category == 5 {
            HandRank::Straight(array)
        } else if category == 4 {
            HandRank::ThreeOfAKind(array)
        } else if category == 3 {
            HandRank::TwoPair(array)
        } else if category == 2 {
            HandRank::OnePair(array)
        } else {
            HandRank::HighCard(array)
        }
    }

    /// The strength of the kind of hand.
    pub fn to_u8(&self) -> (n: u8)
        ensures
            n == self.category(),
    {
        match self {
            HandRank::StraightFlush(_) => 9,
            HandRank::FourOfAKind(_) => 8,
            HandRank::FullHouse(_) => 7,
            HandRank::Flush(_) => 6,
            HandRank::Straight(_) => 5,
            HandRank::ThreeOfAKind(_) => 4,
            HandRank::TwoPair(_) => 3,
            HandRank::OnePair(_) => 2,
            HandRank::HighCard(_) => 1,
            HandRank::Absent => 0,
        }
    }

    /// The cards of the hand.
    pub fn get_card_array(&self) -> (array: &CardArray)
        requires
            !(self is Absent),
        ensures
            *array == self.array(),
    {
        match self {
            HandRank::StraightFlush(card_array) => card_array,
            HandRank::FourOfAKind(card_array) => card_array,
            HandRank::FullHouse(card_array) => card_array,
            HandRank::Flush(card_array) => card_array,
            HandRank::Straight(card_array) => card_array,
            HandRank::ThreeOfAKind(card_array) => card_array,
            HandRank::TwoPair(card_array) => card_array,
            HandRank::OnePair(card_array) => card_array,
            HandRank::HighCard(card_array) => card_array,
            HandRank::Absent => vstd::pervasive::unreached(),
        }
    }

    /// Takes the cards out of the hand.
    pub fn array_of(self) -> (array: CardArray)
        requires
            !(self is Absent),
        ensures
            array == self.array(),
    {
        match self {
            HandRank::StraightFlush(card_array) => card_array,
            HandRank::FourOfAKind(card_array) => card_array,
            HandRank::FullHouse(card_array) => card_array,
            HandRank::Flush(card_array) => card_array,
            HandRank::Straight(card_array) => card_array,
            HandRank::ThreeOfAKind(card_array) => card_array,
            HandRank::TwoPair(card_array) => card_array,
            HandRank::OnePair(card_array) => card_array,
            HandRank::HighCard(card_array) => card_array,
            HandRank::Absent => vstd::pervasive::unreached(),
        }
    }

    /// Replaces the cards of the hand; its kind stays.
    pub fn set_card_array(&mut self, arr: CardArray)
        requires
            !(*old(self) is Absent),
        ensures
            final(self).category() == old(self).category(),
            final(self).array() == arr,
    {
        let category = self.to_u8();
        *self = HandRank::of_category(category, arr);
    }

    /// The name of the kind of hand.
    pub fn label(&self) -> (name: &'static str)
        ensures
            name@ == category_name(self.category()),
    {
        match self {
            HandRank::StraightFlush(_) => "Straight flush",
            HandRank::FourOfAKind(_) => "Four of a kind",
            HandRank::FullHouse(_) => "Full house",
            HandRank::Flush(_) => "Flush",
            HandRank::Straight(_) => "Straight",
            HandRank::ThreeOfAKind(_) => "Three of a kind",
            HandRank::TwoPair(_) => "Two pair",
            HandRank::OnePair(_) => "One pair",
            HandRank::HighCard(_) => "High card",
            HandRank::Absent => "None",
        }
    }

    /// Renders the hand: the name of its kind, a colon, and its cards; for
    /// no hand, the word `None`.
    pub fn to_string(&self) -> (s: String)
        ensures
            s@ == self.text(),
    {
        let mut s = String::from_str(self.label());
        if !self.is_none() {
            proof {
                reveal_strlit(": ");
            }
            s.append(": ");
            let cards = self.get_card_array().to_string();
            s.append(cards.as_str());
            assert(s@ =~= self.text());
        }
        s
    }

    /// The comparison of two hands: 1 where `self` is better, -1 where
    /// `other` is, 0 where neither is.
    pub fn compare_with(&self, other: &HandRank) -> (sign: i8)
        ensures
            sign == compare_hands(self, other),
    {
        let mine = self.to_u8();
        let theirs = other.to_u8();
        if mine > theirs {
            1
        } else if mine < theirs {
            -1
        } else if mine == 0 {
            0
        } else {
            self.get_card_array().compare_with(other.get_card_array())
        }
    }

    /// Whether the hand is a straight flush.
    pub fn is_straight_flush(&self) -> (b: bool)
        ensures
            b == (self is StraightFlush),
    {
        matches!(self, HandRank::StraightFlush(_))
    }

    /// Whether the hand is four of a kind.
    pub fn is_four_of_a_kind(&self) -> (b: bool)
        ensures
            b == (self is FourOfAKind),
    {
        matches!(self, HandRank::FourOfAKind(_))
    }

    /// Whether the hand is a full house.
    pub fn is_full_house(&self) -> (b: bool)
        ensures
            b == (self is FullHouse),
    {
        matches!(self, HandRank::FullHouse(_))
    }

    /// Whether the hand is a flush.
    pub fn is_flush(&self) -> (b: bool)
        ensures
            b == (self is Flush),
    {
        matches!(self, HandRank::Flush(_))
    }

    /// Whether the hand is a straight.
    pub fn is_straight(&self) -> (b: bool)
        ensures
            b == (self is Straight),
    {
        matches!(self, HandRank::Straight(_))
    }

    /// Whether the hand is three of a kind.
    pub fn is_three_of_a_kind(&self) -> (b: bool)
        ensures
            b == (self is ThreeOfAKind),
    {
        matches!(self, HandRank::ThreeOfAKind(_))
    }

    /// Whether the hand is two pair.
    pub fn is_two_pair(&self) -> (b: bool)
        ensures
            b == (self is TwoPair),
    {
        matches!(self, HandRank::TwoPair(_))
    }

    /// Whether the hand is one pair.
    pub fn is_one_pair(&self) -> (b: bool)
        ensures
            b == (self is OnePair),
    {
        matches!(self, HandRank::OnePair(_))
    }

    /// Whether the hand is a high card.
    pub fn is_high_card(&self) -> (b: bool)
        ensures
            b == (self is HighCard),
    {
        matches!(self, HandRank::HighCard(_))
    }

    /// Whether this is no hand.
    pub fn is_none(&self) -> (b: bool)
        ensures
            b == (self is Absent),
    {
        matches!(self, HandRank::Absent)
    }
}

/// The comparison of two hands: by the strength of their kinds, and within
/// one kind by their cards. 1 where the first hand is better, -1 where the
/// second is, 0 where neither is.
pub open spec fn compare_hands(a: &HandRank, b: &HandRank) -> int {
    if a.category() > b.category() {
        1
    } else if a.category() < b.category() {
        -1
    } else if a.category() == 0 {
        0
    } else {
        compare_counts(a.array().rank_counts@, b.array().rank_counts@)
    }
}

impl PartialEq for HandRank {
    fn eq(&self, other: &HandRank) -> (same: bool) {
        self.to_u8() == other.to_u8()
    }
}

impl Eq for HandRank {

}

impl PartialEqSpecImpl for HandRank {
    open spec fn obeys_eq_spec() -> bool {
        true
    }

    open spec fn eq_spec(&self, other: &HandRank) -> bool {
        self.category() == other.category()
    }
}

impl PartialOrd for HandRank {
    fn partial_cmp(&self, other: &HandRank) -> (r: Option<Ordering>) {
        let sign = self.compare_with(other);
        if sign > 0 {
            Some(Ordering::Greater)
        } else if sign < 0 {
            Some(Ordering::Less)
        } else {
            Some(Ordering::Equal)
        }
    }
}

impl PartialOrdSpecImpl for HandRank {
    open spec fn obeys_partial_cmp_spec() -> bool {
        true
    }

    open spec fn partial_cmp_spec(&self, other: &HandRank) -> Option<Ordering> {
        if compare_hands(self, other) > 0 {
            Some(Ordering::Greater)
        } else if compare_hands(self, other) < 0 {
            Some(Ordering::Less)
        } else {
            Some(Ordering::Equal)
        }
    }
}

/// The cards that a player can use: the hole cards, then the board.
pub open spec fn hand_cards(hole_cards: HoleCards, board: Seq<Card>) -> Seq<Card> {
    seq![hole_cards.card1, hole_cards.card2] + board
}

/// The strength of the best hand among a run of cards: 9 for a straight
/// flush, 8 for four of a kind, 7 for a full house, 6 for a flush, 5 for a
/// straight, 4 for three of a kind, 3 for two pair, 2 for one pair, 1 for a
/// high card.
pub open spec fn hand_category(cards: Seq<Card>) -> nat {
    if straight_flush_suit(cards) >= 0 {
        9
    } else if pair_category(cards) >= 7 {
        pair_category(cards)
    } else if flush_suit(cards) >= 0 {
        6
    } else if best_straight(cards) >= 0 {
        5
    } else if pair_category(cards) != 0 {
        pair_category(cards)
    } else {
        1
    }
}

/// How many cards of `rank` are among the cards of the best hand.
pub open spec fn hand_count(cards: Seq<Card>, rank: int) -> int {
    let category = hand_category(cards);
    if category == 9 {
        straight_flush_hand_count(cards, rank)
    } else if category == 6 {
        flush_hand_count(cards, rank)
    } else if category == 5 {
        straight_hand_count(cards, rank)
    } else if category == 1 {
        high_hand_count(cards, rank)
    } else {
        pair_hand_count(cards, rank)
    }
}

/// The cards of the best hand, at most five.
pub open spec fn best_hand_cards(cards: Seq<Card>) -> Seq<Card> {
    let category = hand_category(cards);
    if category == 9 {
        straight_flush_hand_cards(cards)
    } else if category == 6 {
        flush_hand_cards(cards)
    } else if category == 5 {
        straight_hand_cards(cards)
    } else if category == 1 {
        high_hand_cards(cards)
    } else {
        pair_hand_cards(cards)
    }
}

/// The slot counts of the cards of the best hand.
pub open spec fn hand_slots(cards: Seq<Card>) -> Seq<u8> {
    Seq::new(
        14,
        |slot: int|
            if slot == 0 {
                (hand_count(cards, 1) + hand_count(cards, 14)) as u8
            } else {
                hand_count(cards, slot + 1) as u8
            },
    )
}

/// Who wins the showdown between a player who can use the first run of
/// cards and an opponent who can use the second: the player (`true`), the
/// opponent (`false`), or neither.
pub open spec fn showdown(player: Seq<Card>, opponent: Seq<Card>) -> Option<bool> {
    let sign = if hand_category(player) > hand_category(opponent) {
        1
    } else if hand_category(player) < hand_category(opponent) {
        -1
    } else {
        compare_counts(hand_slots(player), hand_slots(opponent))
    };
    if sign > 0 {
        Some(true)
    } else if sign < 0 {
        Some(false)
    } else {
        None
    }
}

/// Whoever wins a showdown, the other player loses it: seen from the other
/// side, a win is a loss, a loss is a win, and a tie is a tie.
pub proof fn lemma_showdown_flips(player: Seq<Card>, opponent: Seq<Card>)
    ensures
        showdown(opponent, player) == match showdown(player, opponent) {
            Some(won) => Some(!won),
            None => None,
        },
{
    lemma_compare_counts_flips(hand_slots(player), hand_slots(opponent));
}

/// The slot counts of an array whose cards are counted rank by rank.
pub proof fn lemma_hand_slots(array: CardArray, cards: Seq<Card>)
    requires
        array.wf(),
        array.cards@.len() <= 5,
        forall|rank: int|
            1 <= rank <= 14 ==> #[trigger] count_rank(array.cards@, rank) == hand_count(
                cards,
                rank,
            ),
    ensures
        array.rank_counts@ == hand_slots(cards),
{
    assert forall|slot: int| 0 <= slot < 14 implies array.rank_counts@[slot] == hand_slots(
        cards,
    )[slot] by {
        assert(array.rank_counts@[slot] == count_slot(array.cards@, slot));
        assert(count_rank(array.cards@, 1) == hand_count(cards, 1));
        assert(count_rank(array.cards@, 14) == hand_count(cards, 14));
        assert(count_rank(array.cards@, slot + 1) == hand_count(cards, slot + 1));
    }
    assert(array.rank_counts@ =~= hand_slots(cards));
}

/// The best hand that a player can make of hole cards and board.
pub fn calculate_hand_rank(hole_cards: &HoleCards, board: &Board) -> (hand: HandRank)
    requires
        playable(hole_cards.card1),
        playable(hole_cards.card2),
        all_playable(board@),
        board@.len() <= 253,
    ensures
        hand.category() == hand_category(hand_cards(*hole_cards, board@)),
        hand.array().wf(),
        hand.array().cards@.len() <= 5,
        forall|rank: int|
            1 <= rank <= 14 ==> #[trigger] count_rank(hand.array().cards@, rank) == hand_count(
                hand_cards(*hole_cards, board@),
                rank,
            ),
        hand.array().rank_counts@ == hand_slots(hand_cards(*hole_cards, board@)),
        hand.array().cards@ == best_hand_cards(hand_cards(*hole_cards, board@)),
{
    let ghost cards = hand_cards(*hole_cards, board@);
    let mut card_array = CardArray::new();
    card_array.add_card(&hole_cards.card1);
    card_array.add_card(&hole_cards.card2);
    let mut i: usize = 0;
    assert(card_array.cards@ =~= cards.subrange(0, 2));
    while i < board.cards.len()
        invariant
            i <= board.cards.len(),
            board@.len() <= 253,
            all_playable(board@),
            cards == hand_cards(*hole_cards, board@),
            card_array.wf(),
            card_array.cards@ == cards.subrange(0, 2 + i),
        decreases board.cards.len() - i,
    {
        assert(playable(board@[i as int]));
        card_array.add_card(&board.cards[i]);
        i += 1;
        assert(card_array.cards@ =~= cards.subrange(0, 2 + i));
    }
    assert(cards.subrange(0, 2 + i) =~= cards);
    let straight_flush = card_array.get_straight_flush();
    let hand = if straight_flush.is_straight_flush() {
        straight_flush
    } else {
        let pair_type = card_array.get_pair_type();
        if pair_type.is_four_of_a_kind() || pair_type.is_full_house() {
            pair_type
        } else {
            let flush = card_array.get_flush();
            if flush.is_flush() {
                flush
            } else {
                let straight = card_array.get_straight();
                if straight.is_straight() {
                    straight
                } else if pair_type.is_none() {
                    card_array.get_high_card()
                } else {
                    pair_type
                }
            }
        }
    };
    proof {
        lemma_hand_slots(hand.array(), cards);
    }
    hand
}

/// Who wins the showdown: the player (`true`), the opponent (`false`), or
/// neither (nothing). Each makes the best hand of the own hole cards and
/// the board.
pub fn player_wins(player: HoleCards, opponent: HoleCards, board: Board) -> (won: Option<bool>)
    requires
        playable(player.card1),
        playable(player.card2),
        playable(opponent.card1),
        playable(opponent.card2),
        all_playable(board@),
        board@.len() <= 253,
    ensures
        won == showdown(hand_cards(player, board@), hand_cards(opponent, board@)),
{
    let player_rank = calculate_hand_rank(&player, &board);
    let opponent_rank = calculate_hand_rank(&opponent, &board);
    let sign = player_rank.compare_with(&opponent_rank);
    if sign > 0 {
        Some(true)
    } else if sign < 0 {
        Some(false)
    } else {
        None
    }
}

} // verus!
