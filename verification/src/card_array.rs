//! Counting the cards of a hand.

use vstd::prelude::*;
use core::cmp::Ordering;
use vstd::std_specs::cmp::{PartialEqSpecImpl, PartialOrdSpecImpl};
use crate::board::{cards_text, cards_to_string, copy_cards};
use crate::card::Card;
use crate::hand_rank::HandRank;

verus! {

/// Whether a card can be part of a hand: a rank from 1 to 14 and a real suit.
pub open spec fn playable(card: Card) -> bool {
    1 <= card.rank <= 14 && card.suit.is_real()
}

/// Whether every card of a run can be part of a hand.
pub open spec fn all_playable(cards: Seq<Card>) -> bool {
    forall|i: int| 0 <= i < cards.len() ==> playable(#[trigger] cards[i])
}

/// How many cards of a run have the given rank.
pub open spec fn count_rank(cards: Seq<Card>, rank: int) -> nat
    decreases cards.len(),
{
    if cards.len() == 0 {
        0
    } else {
        count_rank(cards.drop_last(), rank) + if cards.last().rank == rank {
            1nat
        } else {
            0nat
        }
    }
}

/// How many cards of a run have the suit with the given index.
pub open spec fn count_suit(cards: Seq<Card>, suit: int) -> nat
    decreases cards.len(),
{
    if cards.len() == 0 {
        0
    } else {
        count_suit(cards.drop_last(), suit) + if cards.last().suit.index() == suit {
            1nat
        } else {
            0nat
        }
    }
}

/// How many cards fall into a rank slot. Slot `s` holds the cards of rank
/// `s + 1`; slot 0 holds the aces as well, which may end a straight at its
/// low end.
pub open spec fn count_slot(cards: Seq<Card>, slot: int) -> nat {
    if slot == 0 {
        count_rank(cards, 1) + count_rank(cards, 14)
    } else {
        count_rank(cards, slot + 1)
    }
}

/// Counting the cards of a run with one more card at its end.
pub proof fn lemma_count_push(cards: Seq<Card>, card: Card)
    ensures
        forall|rank: int| #[trigger]
            count_rank(cards.push(card), rank) == count_rank(cards, rank) + if card.rank == rank {
                1nat
            } else {
                0nat
            },
        forall|suit: int| #[trigger]
            count_suit(cards.push(card), suit) == count_suit(cards, suit) + if card.suit.index()
                == suit {
                1nat
            } else {
                0nat
            },
{
    assert(cards.push(card).drop_last() =~= cards);
}

/// No more cards have a rank or a suit than there are cards.
pub proof fn lemma_count_bound(cards: Seq<Card>)
    ensures
        forall|rank: int| #[trigger] count_rank(cards, rank) <= cards.len(),
        forall|suit: int| #[trigger] count_suit(cards, suit) <= cards.len(),
        forall|rank: int, other: int|
            rank != other ==> #[trigger] count_rank(cards, rank) + #[trigger] count_rank(
                cards,
                other,
            ) <= cards.len(),
    decreases cards.len(),
{
    if cards.len() > 0 {
        lemma_count_bound(cards.drop_last());
        assert forall|rank: int| #[trigger] count_rank(cards, rank) <= cards.len() by {
            assert(count_rank(cards.drop_last(), rank) <= cards.len() - 1);
        }
        assert forall|suit: int| #[trigger] count_suit(cards, suit) <= cards.len() by {
            assert(count_suit(cards.drop_last(), suit) <= cards.len() - 1);
        }
        assert forall|rank: int, other: int| rank != other implies #[trigger] count_rank(
            cards,
            rank,
        ) + #[trigger] count_rank(cards, other) <= cards.len() by {
            assert(count_rank(cards.drop_last(), rank) + count_rank(cards.drop_last(), other)
                <= cards.len() - 1);
        }
    }
}

/// Counting the cards of the first `i + 1` cards of a run.
pub proof fn lemma_count_prefix(cards: Seq<Card>, i: int)
    requires
        0 <= i < cards.len(),
    ensures
        forall|rank: int| #[trigger]
            count_rank(cards.subrange(0, i + 1), rank) == count_rank(cards.subrange(0, i), rank)
                + if cards[i].rank == rank {
                1nat
            } else {
                0nat
            },
        forall|suit: int| #[trigger]
            count_suit(cards.subrange(0, i + 1), suit) == count_suit(cards.subrange(0, i), suit)
                + if cards[i].suit.index() == suit {
                1nat
            } else {
                0nat
            },
{
    assert(cards.subrange(0, i + 1).drop_last() =~= cards.subrange(0, i));
}

/// Whether a card takes part in the search for the highest cards: its rank
/// is neither of the two set aside. (No card has rank 0: to set nothing
/// aside, pass 0.)
pub open spec fn eligible(rank: int, skip1: int, skip2: int) -> bool {
    rank != skip1 && rank != skip2
}

/// How many eligible cards of a run have a rank above `rank`.
pub open spec fn count_above(cards: Seq<Card>, rank: int, skip1: int, skip2: int) -> nat
    decreases cards.len(),
{
    if cards.len() == 0 {
        0
    } else {
        count_above(cards.drop_last(), rank, skip1, skip2) + if cards.last().rank > rank
            && eligible(cards.last().rank as int, skip1, skip2) {
            1nat
        } else {
            0nat
        }
    }
}

/// How many cards of `rank` are among the `k` highest eligible cards of a
/// run: as many as there are, as far as the higher cards leave room.
pub open spec fn top_count(cards: Seq<Card>, k: int, rank: int, skip1: int, skip2: int) -> int {
    let room = k - count_above(cards, rank, skip1, skip2);
    if !eligible(rank, skip1, skip2) || room <= 0 {
        0
    } else if room < count_rank(cards, rank) {
        room
    } else {
        count_rank(cards, rank) as int
    }
}

/// The cards above a rank are those above the next rank and those of the
/// next rank.
pub proof fn lemma_count_above_step(cards: Seq<Card>, rank: int, skip1: int, skip2: int)
    ensures
        count_above(cards, rank - 1, skip1, skip2) == count_above(cards, rank, skip1, skip2)
            + if eligible(rank, skip1, skip2) {
            count_rank(cards, rank)
        } else {
            0nat
        },
    decreases cards.len(),
{
    if cards.len() > 0 {
        lemma_count_above_step(cards.drop_last(), rank, skip1, skip2);
    }
}

/// No card of a hand has a rank above the ace.
pub proof fn lemma_none_above_ace(cards: Seq<Card>, skip1: int, skip2: int)
    requires
        all_playable(cards),
    ensures
        count_above(cards, 14, skip1, skip2) == 0,
    decreases cards.len(),
{
    if cards.len() > 0 {
        assert(playable(cards[cards.len() - 1]));
        assert forall|i: int| 0 <= i < cards.drop_last().len() implies playable(
            #[trigger] cards.drop_last()[i],
        ) by {
            assert(playable(cards[i]));
        }
        lemma_none_above_ace(cards.drop_last(), skip1, skip2);
    }
}

/// Whether a run of cards continues another run with cards of a hand: it
/// starts with the other run, and each further card is among the cards of
/// the hand.
pub open spec fn continued_from(after: Seq<Card>, before: Seq<Card>, hand: Seq<Card>) -> bool {
    &&& before.len() <= after.len()
    &&& after.subrange(0, before.len() as int) == before
    &&& forall|i: int| before.len() <= i < after.len() ==> hand.contains(#[trigger] after[i])
}

/// A run that continues a run that continues a third continues the third.
pub proof fn lemma_continued_twice(
    last: Seq<Card>,
    middle: Seq<Card>,
    first: Seq<Card>,
    hand: Seq<Card>,
)
    requires
        continued_from(last, middle, hand),
        continued_from(middle, first, hand),
    ensures
        continued_from(last, first, hand),
{
    assert(last.subrange(0, first.len() as int) =~= middle.subrange(0, first.len() as int));
    assert forall|i: int| first.len() <= i < last.len() implies hand.contains(
        #[trigger] last[i],
    ) by {
        if i < middle.len() {
            assert(last.subrange(0, middle.len() as int)[i] == middle[i]);
        }
    }
}

/// The first cards of the given rank of a run, in their order, at most
/// `limit` of them.
pub open spec fn firsts(cards: Seq<Card>, rank: int, limit: int) -> Seq<Card>
    decreases cards.len(),
{
    if cards.len() == 0 {
        Seq::empty()
    } else {
        let before = firsts(cards.drop_last(), rank, limit);
        if cards.last().rank == rank && before.len() < limit {
            before.push(cards.last())
        } else {
            before
        }
    }
}

/// The `k` highest eligible cards of a run with a rank of at least
/// `down_to`: rank by rank from the ace downwards, within a rank in the
/// order of the run.
pub open spec fn highest_cards(
    cards: Seq<Card>,
    k: int,
    down_to: int,
    skip1: int,
    skip2: int,
) -> Seq<Card>
    decreases 15 - down_to,
{
    if down_to > 14 {
        Seq::empty()
    } else {
        let above = highest_cards(cards, k, down_to + 1, skip1, skip2);
        if eligible(down_to, skip1, skip2) {
            above + firsts(cards, down_to, k - above.len())
        } else {
            above
        }
    }
}

/// The first cards of a rank are as many as there are cards of that rank,
/// up to the limit.
pub proof fn lemma_firsts_len(cards: Seq<Card>, rank: int, limit: int)
    requires
        0 <= limit,
    ensures
        firsts(cards, rank, limit).len() == min(count_rank(cards, rank) as int, limit),
    decreases cards.len(),
{
    if cards.len() > 0 {
        lemma_firsts_len(cards.drop_last(), rank, limit);
    }
}

/// Once the limit is reached, further cards add nothing to the first cards
/// of a rank.
pub proof fn lemma_firsts_full(cards: Seq<Card>, rank: int, limit: int, i: int)
    requires
        0 <= i <= cards.len(),
        firsts(cards.subrange(0, i), rank, limit).len() >= limit,
    ensures
        firsts(cards, rank, limit) == firsts(cards.subrange(0, i), rank, limit),
    decreases cards.len() - i,
{
    if i < cards.len() {
        assert(cards.subrange(0, i + 1).drop_last() =~= cards.subrange(0, i));
        lemma_firsts_full(cards, rank, limit, i + 1);
    } else {
        assert(cards.subrange(0, i) =~= cards);
    }
}

/// Whether two or more cards of a run have the given rank.
pub open spec fn is_group(cards: Seq<Card>, rank: int) -> bool {
    1 <= rank <= 14 && count_rank(cards, rank) >= 2
}

/// Whether the cards of `rank` come before those of `other` when groups are
/// compared: more cards first, and among as many cards the higher rank first.
pub open spec fn outranks(cards: Seq<Card>, rank: int, other: int) -> bool {
    count_rank(cards, rank) > count_rank(cards, other) || (count_rank(cards, rank) == count_rank(
        cards,
        other,
    ) && rank > other)
}

/// Whether `rank` is the first group of a run among the ranks other than
/// `skip`.
pub open spec fn is_first_group(cards: Seq<Card>, rank: int, skip: int) -> bool {
    &&& rank != skip
    &&& is_group(cards, rank)
    &&& forall|other: int|
        1 <= other <= 14 && other != skip && other != rank ==> #[trigger] outranks(
            cards,
            rank,
            other,
        )
}

/// The first group of a run among the ranks other than `skip`; 0 where
/// there is none.
pub open spec fn first_group(cards: Seq<Card>, skip: int) -> int {
    if exists|rank: int| #[trigger] is_first_group(cards, rank, skip) {
        choose|rank: int| #[trigger] is_first_group(cards, rank, skip)
    } else {
        0
    }
}

/// A run has at most one first group.
pub proof fn lemma_first_group_is(cards: Seq<Card>, rank: int, skip: int)
    requires
        is_first_group(cards, rank, skip),
    ensures
        first_group(cards, skip) == rank,
{
    let chosen = first_group(cards, skip);
    assert(is_first_group(cards, chosen, skip));
    if chosen != rank {
        assert(outranks(cards, rank, chosen));
        assert(outranks(cards, chosen, rank));
    }
}

/// A run without groups has no first group.
pub proof fn lemma_no_first_group(cards: Seq<Card>, skip: int)
    requires
        forall|rank: int| 1 <= rank <= 14 && rank != skip ==> count_rank(cards, rank) < 2,
    ensures
        first_group(cards, skip) == 0,
{
    if exists|rank: int| #[trigger] is_first_group(cards, rank, skip) {
        let rank = choose|rank: int| #[trigger] is_first_group(cards, rank, skip);
        assert(is_group(cards, rank));
    }
}

/// The smaller of two numbers.
pub open spec fn min(a: int, b: int) -> int {
    if a <= b {
        a
    } else {
        b
    }
}

/// The second group of a pair-type hand: the first group among the other
/// ranks, unless the first group has four cards, which leave room for one
/// more card only. Returns 0 where there is none.
pub open spec fn second_group(cards: Seq<Card>) -> int {
    let top = first_group(cards, 0);
    if top == 0 || count_rank(cards, top) >= 4 {
        0
    } else {
        first_group(cards, top)
    }
}

/// The strength of the pair-type hand of a run of cards: 8 for four of a
/// kind, 7 for a full house, 4 for three of a kind, 3 for two pair, 2 for one
/// pair, and 0 where no rank has two cards.
pub open spec fn pair_category(cards: Seq<Card>) -> nat {
    let top = first_group(cards, 0);
    if top == 0 {
        0
    } else if count_rank(cards, top) >= 4 {
        8
    } else if count_rank(cards, top) == 3 {
        if second_group(cards) != 0 {
            7
        } else {
            4
        }
    } else if second_group(cards) != 0 {
        3
    } else {
        2
    }
}

/// How many cards of `rank` are among the five cards of the pair-type hand:
/// the cards of the first group, then those of the second as far as there is
/// room, then the highest cards of other ranks.
pub open spec fn pair_hand_count(cards: Seq<Card>, rank: int) -> int {
    let top = first_group(cards, 0);
    let second = second_group(cards);
    let take1 = min(count_rank(cards, top) as int, 5);
    let take2 = if second != 0 {
        min(count_rank(cards, second) as int, 5 - take1)
    } else {
        0
    };
    if rank == top {
        take1
    } else if second != 0 && rank == second {
        take2
    } else {
        top_count(cards, 5 - take1 - take2, rank, top, second)
    }
}

/// The five cards of the pair-type hand: the cards of the first group, then
/// those of the second as far as there is room, then the highest cards of
/// other ranks.
pub open spec fn pair_hand_cards(cards: Seq<Card>) -> Seq<Card> {
    let top = first_group(cards, 0);
    let second = second_group(cards);
    let first = firsts(cards, top, 5);
    let groups = if second != 0 {
        first + firsts(cards, second, 5 - first.len())
    } else {
        first
    };
    groups + highest_cards(cards, 5 - groups.len(), 1, top, second)
}

/// The five highest cards, from the highest downwards.
pub open spec fn high_hand_cards(cards: Seq<Card>) -> Seq<Card> {
    highest_cards(cards, 5, 1, 0, 0)
}

/// The first card of each of the `n` ranks above slot `low`, from the
/// lowest upwards.
pub open spec fn straight_cards(cards: Seq<Card>, low: int, n: int) -> Seq<Card>
    decreases n,
{
    if n <= 0 {
        Seq::empty()
    } else {
        straight_cards(cards, low, n - 1) + firsts(cards, low + n, 1)
    }
}

/// How many cards of `rank` are among the five highest cards.
pub open spec fn high_hand_count(cards: Seq<Card>, rank: int) -> int {
    top_count(cards, 5, rank, 0, 0)
}

/// Whether the five slots from `low` upwards all hold a card.
pub open spec fn straight_from(cards: Seq<Card>, low: int) -> bool {
    &&& 0 <= low <= 9
    &&& count_slot(cards, low) > 0
    &&& count_slot(cards, low + 1) > 0
    &&& count_slot(cards, low + 2) > 0
    &&& count_slot(cards, low + 3) > 0
    &&& count_slot(cards, low + 4) > 0
}

/// The lowest slot of the highest straight that starts at `low` or below;
/// -1 where there is none.
pub open spec fn best_straight_upto(cards: Seq<Card>, low: int) -> int
    decreases low + 1,
{
    if low < 0 {
        -1
    } else if straight_from(cards, low) {
        low
    } else {
        best_straight_upto(cards, low - 1)
    }
}

/// The lowest slot of the highest straight; -1 where there is none.
pub open spec fn best_straight(cards: Seq<Card>) -> int {
    best_straight_upto(cards, 9)
}

/// How many cards of `rank` are among the cards of the highest straight: one
/// for each of its five ranks. An ace that ends the straight at its low end
/// is left out, so that this straight ranks lowest.
pub open spec fn straight_hand_count(cards: Seq<Card>, rank: int) -> int {
    let low = best_straight(cards);
    if low >= 0 && low + 1 <= rank <= low + 5 && count_rank(cards, rank) > 0 {
        1
    } else {
        0
    }
}

/// The cards of the highest straight: the first card of each of its ranks,
/// from the lowest upwards.
pub open spec fn straight_hand_cards(cards: Seq<Card>) -> Seq<Card> {
    straight_cards(cards, best_straight(cards), 5)
}

/// The cards of a run that have the suit with the given index.
pub open spec fn of_suit(cards: Seq<Card>, suit: int) -> Seq<Card> {
    cards.filter(|card: Card| card.suit.index() == suit)
}

/// The suit of the flush: the first suit of which there are five cards; -1
/// where there is none.
pub open spec fn flush_suit(cards: Seq<Card>) -> int {
    if count_suit(cards, 0) >= 5 {
        0
    } else if count_suit(cards, 1) >= 5 {
        1
    } else if count_suit(cards, 2) >= 5 {
        2
    } else if count_suit(cards, 3) >= 5 {
        3
    } else {
        -1
    }
}

/// How many cards of `rank` are among the five highest cards of the flush.
pub open spec fn flush_hand_count(cards: Seq<Card>, rank: int) -> int {
    high_hand_count(of_suit(cards, flush_suit(cards)), rank)
}

/// The five highest cards of the flush, from the highest downwards.
pub open spec fn flush_hand_cards(cards: Seq<Card>) -> Seq<Card> {
    high_hand_cards(of_suit(cards, flush_suit(cards)))
}

/// Whether there are five cards of a suit, and a straight among them.
pub open spec fn straight_flush_in(cards: Seq<Card>, suit: int) -> bool {
    count_suit(cards, suit) >= 5 && best_straight(of_suit(cards, suit)) >= 0
}

/// The suit of the straight flush: the first suit that holds one; -1 where
/// there is none.
pub open spec fn straight_flush_suit(cards: Seq<Card>) -> int {
    if straight_flush_in(cards, 0) {
        0
    } else if straight_flush_in(cards, 1) {
        1
    } else if straight_flush_in(cards, 2) {
        2
    } else if straight_flush_in(cards, 3) {
        3
    } else {
        -1
    }
}

/// How many cards of `rank` are among the cards of the straight flush.
pub open spec fn straight_flush_hand_count(cards: Seq<Card>, rank: int) -> int {
    straight_hand_count(of_suit(cards, straight_flush_suit(cards)), rank)
}

/// The cards of the straight flush, from the lowest upwards.
pub open spec fn straight_flush_hand_cards(cards: Seq<Card>) -> Seq<Card> {
    straight_hand_cards(of_suit(cards, straight_flush_suit(cards)))
}

/// The cards of one suit among the first `i + 1` cards of a run.
pub proof fn lemma_of_suit_prefix(cards: Seq<Card>, suit: int, i: int)
    requires
        0 <= i < cards.len(),
    ensures
        of_suit(cards.subrange(0, i + 1), suit) == if cards[i].suit.index() == suit {
            of_suit(cards.subrange(0, i), suit).push(cards[i])
        } else {
            of_suit(cards.subrange(0, i), suit)
        },
{
    reveal(Seq::filter);
    assert(cards.subrange(0, i + 1).drop_last() =~= cards.subrange(0, i));
}

/// The cards of one suit are as many as the count of the suit says, and
/// all have that suit.
pub proof fn lemma_of_suit_count(cards: Seq<Card>, suit: int)
    ensures
        of_suit(cards, suit).len() == count_suit(cards, suit),
        count_suit(of_suit(cards, suit), suit) == count_suit(cards, suit),
    decreases cards.len(),
{
    reveal(Seq::filter);
    if cards.len() > 0 {
        lemma_of_suit_count(cards.drop_last(), suit);
        if cards.last().suit.index() == suit {
            lemma_count_push(of_suit(cards.drop_last(), suit), cards.last());
        }
    }
}

/// How many cards of `rank` the slot counts of an array record. The aces
/// that slot 0 holds are no cards of rank 1.
pub open spec fn slot_rank_count(counts: Seq<u8>, rank: int) -> int {
    if rank == 1 {
        if counts[0] >= counts[13] {
            counts[0] - counts[13]
        } else {
            0
        }
    } else {
        counts[rank - 1] as int
    }
}

/// The comparison of two hands by their groups, from `count` cards of
/// `rank` downwards: groups of more cards come first, and among groups of as
/// many cards those of higher rank. The first group that only one hand has
/// decides for that hand (1 for the first hand, -1 for the second); 0 where
/// the hands have the same groups.
pub open spec fn group_sign(a: Seq<u8>, b: Seq<u8>, count: int, rank: int) -> int
    decreases count, rank,
{
    if count < 2 {
        0
    } else if rank < 1 {
        group_sign(a, b, count - 1, 14)
    } else if slot_rank_count(a, rank) == count && slot_rank_count(b, rank) != count {
        1
    } else if slot_rank_count(a, rank) != count && slot_rank_count(b, rank) == count {
        -1
    } else {
        group_sign(a, b, count, rank - 1)
    }
}

/// The comparison of two hands card by card, from `rank` downwards: the
/// highest rank of which one hand has more cards decides for that hand.
pub open spec fn rank_sign(a: Seq<u8>, b: Seq<u8>, rank: int) -> int
    decreases rank,
{
    if rank < 1 {
        0
    } else if slot_rank_count(a, rank) > slot_rank_count(b, rank) {
        1
    } else if slot_rank_count(a, rank) < slot_rank_count(b, rank) {
        -1
    } else {
        rank_sign(a, b, rank - 1)
    }
}

/// The comparison of two hands of one kind by their slot counts: first by
/// their groups, then card by card. 1 where the first hand is better, -1
/// where the second is, 0 where neither is.
pub open spec fn compare_counts(a: Seq<u8>, b: Seq<u8>) -> int {
    if group_sign(a, b, 255, 14) != 0 {
        group_sign(a, b, 255, 14)
    } else {
        rank_sign(a, b, 14)
    }
}

/// Comparing two hands by their groups the other way round gives the
/// opposite result.
pub proof fn lemma_group_sign_flips(a: Seq<u8>, b: Seq<u8>, count: int, rank: int)
    ensures
        group_sign(a, b, count, rank) == -group_sign(b, a, count, rank),
    decreases count, rank,
{
    if count >= 2 {
        if rank < 1 {
            lemma_group_sign_flips(a, b, count - 1, 14);
        } else {
            lemma_group_sign_flips(a, b, count, rank - 1);
        }
    }
}

/// Comparing two hands card by card the other way round gives the opposite
/// result.
pub proof fn lemma_rank_sign_flips(a: Seq<u8>, b: Seq<u8>, rank: int)
    ensures
        rank_sign(a, b, rank) == -rank_sign(b, a, rank),
    decreases rank,
{
    if rank >= 1 {
        lemma_rank_sign_flips(a, b, rank - 1);
    }
}

/// Comparing two hands of one kind the other way round gives the opposite
/// result: if one hand is better, the other is worse.
pub proof fn lemma_compare_counts_flips(a: Seq<u8>, b: Seq<u8>)
    ensures
        compare_counts(a, b) == -compare_counts(b, a),
{
    lemma_group_sign_flips(a, b, 255, 14);
    lemma_rank_sign_flips(a, b, 14);
}

/// Groups of more cards than either hand has of any rank decide nothing.
pub proof fn lemma_group_sign_skip(a: Seq<u8>, b: Seq<u8>, count: int, rank: int, top: int)
    requires
        forall|r: int| 1 <= r <= 14 ==> #[trigger] slot_rank_count(a, r) <= top,
        forall|r: int| 1 <= r <= 14 ==> #[trigger] slot_rank_count(b, r) <= top,
        count > top || (count == top && rank == 14),
        rank <= 14,
    ensures
        group_sign(a, b, count, rank) == group_sign(a, b, top, 14),
    decreases count, rank,
{
    if count > top && count >= 2 {
        if rank < 1 {
            lemma_group_sign_skip(a, b, count - 1, 14, top);
        } else {
            lemma_group_sign_skip(a, b, count, rank - 1, top);
        }
    }
}

/// How many cards of `rank` the slot counts record.
pub fn slot_count(counts: &[u8; 14], rank: u8) -> (count: u8)
    requires
        1 <= rank <= 14,
    ensures
        count == slot_rank_count(counts@, rank as int),
{
    if rank == 1 {
        if counts[0] >= counts[13] {
            counts[0] - counts[13]
        } else {
            0
        }
    } else {
        counts[(rank - 1) as usize]
    }
}

/// The greatest number of cards that the slot counts record of any rank.
pub fn greatest_count(counts: &[u8; 14]) -> (top: u8)
    ensures
        forall|r: int| 1 <= r <= 14 ==> #[trigger] slot_rank_count(counts@, r) <= top,
        exists|r: int| 1 <= r <= 14 && #[trigger] slot_rank_count(counts@, r) == top,
{
    let mut top: u8 = slot_count(counts, 1);
    let mut rank: u8 = 2;
    while rank <= 14
        invariant
            2 <= rank <= 15,
            forall|r: int| 1 <= r < rank ==> #[trigger] slot_rank_count(counts@, r) <= top,
            exists|r: int| 1 <= r < rank && #[trigger] slot_rank_count(counts@, r) == top,
        decreases 15 - rank,
    {
        let count = slot_count(counts, rank);
        if count > top {
            top = count;
        }
        rank += 1;
    }
    top
}

/// The cards of a hand, with the number of cards in each rank slot and in
/// each suit.
#[derive(Debug)]
pub struct CardArray {
    pub rank_counts: [u8; 14],
    pub suit_counts: [u8; 4],
    pub cards: Vec<Card>,
}

impl CardArray {
    /// Whether the counts are those of the cards, and the cards can be part
    /// of a hand.
    pub open spec fn wf(&self) -> bool {
        &&& self.cards@.len() <= 255
        &&& all_playable(self.cards@)
        &&& forall|slot: int|
            0 <= slot < 14 ==> #[trigger] self.rank_counts@[slot] == count_slot(self.cards@, slot)
        &&& forall|suit: int|
            0 <= suit < 4 ==> #[trigger] self.suit_counts@[suit] == count_suit(self.cards@, suit)
    }

    /// An array without cards.
    pub fn new() -> (array: CardArray)
        ensures
            array.wf(),
            array.cards@ == Seq::<Card>::empty(),
    {
        let rank_counts: [u8; 14] = [0, 0, 0, 0, 0, 0, 0, 0, 0, 0, 0, 0, 0, 0];
        let suit_counts: [u8; 4] = [0, 0, 0, 0];
        let array = CardArray { rank_counts, suit_counts, cards: Vec::new() };
        proof {
            assert forall|slot: int| 0 <= slot < 14 implies #[trigger] array.rank_counts@[slot]
                == count_slot(array.cards@, slot) by {
                assert(count_rank(array.cards@, 1) == 0);
                assert(count_rank(array.cards@, 14) == 0);
                assert(count_rank(array.cards@, slot + 1) == 0);
            }
            assert forall|suit: int| 0 <= suit < 4 implies #[trigger] array.suit_counts@[suit]
                == count_suit(array.cards@, suit) by {
                assert(count_suit(array.cards@, suit) == 0);
            }
        }
        array
    }

    /// Adds a card and counts it.
    pub fn add_card(&mut self, card: &Card)
        requires
            old(self).wf(),
            playable(*card),
            old(self).cards@.len() < 255,
        ensures
            final(self).wf(),
            final(self).cards@ == old(self).cards@.push(*card),
    {
        proof {
            lemma_count_push(self.cards@, *card);
            lemma_count_bound(self.cards@);
        }
        let slot = (card.rank - 1) as usize;
        self.rank_counts[slot] = self.rank_counts[slot] + 1;
        if card.rank == 14 {
            self.rank_counts[0] = self.rank_counts[0] + 1;
        }
        let suit = card.suit.to_usize();
        self.suit_counts[suit] = self.suit_counts[suit] + 1;
        self.cards.push(*card);
    }

    /// The array of the given cards.
    pub fn from_vec(cards: &Vec<Card>) -> (array: CardArray)
        requires
            all_playable(cards@),
            cards@.len() <= 255,
        ensures
            array.wf(),
            array.cards@ == cards@,
    {
        let mut array = CardArray::new();
        let mut i: usize = 0;
        while i < cards.len()
            invariant
                i <= cards.len(),
                cards@.len() <= 255,
                all_playable(cards@),
                array.wf(),
                array.cards@ == cards@.subrange(0, i as int),
            decreases cards.len() - i,
        {
            array.add_card(&cards[i]);
            i += 1;
            assert(array.cards@ =~= cards@.subrange(0, i as int));
        }
        assert(cards@.subrange(0, i as int) =~= cards@);
        array
    }

    /// A copy of the array.
    pub fn copy(&self) -> (array: CardArray)
        ensures
            array.rank_counts@ == self.rank_counts@,
            array.suit_counts@ == self.suit_counts@,
            array.cards@ == self.cards@,
            self.wf() ==> array.wf(),
    {
        CardArray {
            rank_counts: self.rank_counts,
            suit_counts: self.suit_counts,
            cards: copy_cards(&self.cards),
        }
    }

    /// How many cards have the given rank.
    pub fn rank_count(&self, rank: u8) -> (count: u8)
        requires
            self.wf(),
            1 <= rank <= 14,
        ensures
            count == count_rank(self.cards@, rank as int),
    {
        assert(self.rank_counts@[0] == count_slot(self.cards@, 0));
        assert(self.rank_counts@[13] == count_slot(self.cards@, 13));
        assert(self.rank_counts@[rank - 1] == count_slot(self.cards@, rank - 1));
        if rank == 1 {
            self.rank_counts[0] - self.rank_counts[13]
        } else {
            self.rank_counts[(rank - 1) as usize]
        }
    }

    /// The first group among the ranks other than `skip`: the rank of which
    /// there are the most cards, at least two, and the highest such rank.
    /// Returns 0 where no rank has two cards.
    pub fn best_group(&self, skip: u8) -> (rank: u8)
        requires
            self.wf(),
        ensures
            rank == first_group(self.cards@, skip as int),
            rank != 0 ==> is_first_group(self.cards@, rank as int, skip as int),
            rank == 0 ==> forall|other: int|
                1 <= other <= 14 && other != skip ==> count_rank(self.cards@, other) < 2,
    {
        let mut best: u8 = 0;
        let mut best_count: u8 = 0;
        let mut rank: u8 = 1;
        while rank <= 14
            invariant
                1 <= rank <= 15,
                self.wf(),
                best < rank,
                best == 0 ==> best_count == 0 && forall|other: int|
                    1 <= other < rank && other != skip ==> count_rank(self.cards@, other) < 2,
                best != 0 ==> best != skip && best_count == count_rank(self.cards@, best as int)
                    && best_count >= 2 && forall|other: int|
                    1 <= other < rank && other != skip && other != best ==> #[trigger] outranks(
                        self.cards@,
                        best as int,
                        other,
                    ),
            decreases 15 - rank,
        {
            if rank != skip {
                let count = self.rank_count(rank);
                if count >= 2 && count >= best_count {
                    proof {
                        assert forall|other: int|
                            1 <= other < rank + 1 && other != skip
                                && other != rank implies #[trigger] outranks(
                            self.cards@,
                            rank as int,
                            other,
                        ) by {
                            if best != 0 && other != best {
                                assert(outranks(self.cards@, best as int, other));
                            }
                        }
                    }
                    best = rank;
                    best_count = count;
                } else if best != 0 {
                    assert(outranks(self.cards@, best as int, rank as int));
                }
            }
            rank += 1;
        }
        proof {
            if best != 0 {
                lemma_first_group_is(self.cards@, best as int, skip as int);
            } else {
                lemma_no_first_group(self.cards@, skip as int);
            }
        }
        best
    }

    /// Adds to `relevant_cards` the cards of the given rank, in their order,
    /// until it holds five cards.
    fn add_relevant_pair_cards(&self, relevant_cards: &mut CardArray, rank: u8)
        requires
            self.wf(),
            old(relevant_cards).wf(),
            old(relevant_cards).cards@.len() <= 5,
            1 <= rank <= 14,
        ensures
            final(relevant_cards).wf(),
            final(relevant_cards).cards@.len() == old(relevant_cards).cards@.len() + min(
                count_rank(self.cards@, rank as int) as int,
                5 - old(relevant_cards).cards@.len(),
            ),
            count_rank(final(relevant_cards).cards@, rank as int) == count_rank(
                old(relevant_cards).cards@,
                rank as int,
            ) + min(
                count_rank(self.cards@, rank as int) as int,
                5 - old(relevant_cards).cards@.len(),
            ),
            forall|other: int|
                other != rank ==> count_rank(final(relevant_cards).cards@, other) == count_rank(
                    old(relevant_cards).cards@,
                    other,
                ),
            forall|suit: int|
                count_suit(self.cards@, suit) == self.cards@.len() ==> count_suit(
                    final(relevant_cards).cards@,
                    suit,
                ) - count_suit(old(relevant_cards).cards@, suit)
                    == final(relevant_cards).cards@.len() - old(relevant_cards).cards@.len(),
            continued_from(final(relevant_cards).cards@, old(relevant_cards).cards@, self.cards@),
            final(relevant_cards).cards@ == old(relevant_cards).cards@ + firsts(
                self.cards@,
                rank as int,
                5 - old(relevant_cards).cards@.len(),
            ),
    {
        let ghost before = relevant_cards.cards@;
        let ghost room = 5 - before.len();
        assert(before.subrange(0, before.len() as int) =~= before);
        let mut i: usize = 0;
        proof {
            assert(self.cards@.subrange(0, 0) =~= Seq::<Card>::empty());
            assert(before + Seq::<Card>::empty() =~= before);
        }
        while i < self.cards.len()
            invariant
                i <= self.cards.len(),
                self.wf(),
                1 <= rank <= 14,
                relevant_cards.wf(),
                room == 5 - before.len(),
                0 <= room <= 5,
                relevant_cards.cards@.len() == before.len() + min(
                    count_rank(self.cards@.subrange(0, i as int), rank as int) as int,
                    room,
                ),
                count_rank(relevant_cards.cards@, rank as int) == count_rank(before, rank as int)
                    + min(
                    count_rank(self.cards@.subrange(0, i as int), rank as int) as int,
                    room,
                ),
                forall|other: int|
                    other != rank ==> count_rank(relevant_cards.cards@, other) == count_rank(
                        before,
                        other,
                    ),
                forall|suit: int|
                    count_suit(self.cards@, suit) == self.cards@.len() ==> count_suit(
                        relevant_cards.cards@,
                        suit,
                    ) - count_suit(before, suit) == relevant_cards.cards@.len() - before.len(),
                continued_from(relevant_cards.cards@, before, self.cards@),
                relevant_cards.cards@ == before + firsts(
                    self.cards@.subrange(0, i as int),
                    rank as int,
                    room,
                ),
            decreases self.cards.len() - i,
        {
            proof {
                lemma_count_prefix(self.cards@, i as int);
                assert(self.cards@.subrange(0, i + 1).drop_last() =~= self.cards@.subrange(
                    0,
                    i as int,
                ));
            }
            if self.cards[i].rank == rank && relevant_cards.cards.len() < 5 {
                proof {
                    let chosen = firsts(self.cards@.subrange(0, i as int), rank as int, room);
                    assert((before + chosen).push(self.cards@[i as int]) =~= before + chosen.push(
                        self.cards@[i as int],
                    ));
                    let grown = relevant_cards.cards@.push(self.cards@[i as int]);
                    assert(grown.subrange(0, before.len() as int)
                        =~= relevant_cards.cards@.subrange(0, before.len() as int));
                    assert(self.cards@.contains(self.cards@[i as int]));
                    lemma_count_push(relevant_cards.cards@, self.cards@[i as int]);
                    assert(playable(self.cards@[i as int]));
                    assert forall|suit: int|
                        count_suit(self.cards@, suit)
                            == self.cards@.len() implies self.cards@[i as int].suit.index()
                        == suit by {
                        lemma_all_of_suit(self.cards@, suit, i as int);
                    }
                }
                relevant_cards.add_card(&self.cards[i]);
            }
            i += 1;
        }
        assert(self.cards@.subrange(0, i as int) =~= self.cards@);
    }

    /// Adds to `relevant_cards` the highest cards whose rank is neither
    /// `skip1` nor `skip2`, until it holds five cards.
    fn fill_relevant_cards(&self, relevant_cards: &mut CardArray, skip1: u8, skip2: u8)
        requires
            self.wf(),
            old(relevant_cards).wf(),
            old(relevant_cards).cards@.len() <= 5,
            forall|rank: int|
                eligible(rank, skip1 as int, skip2 as int) ==> count_rank(
                    old(relevant_cards).cards@,
                    rank,
                ) == 0,
        ensures
            final(relevant_cards).wf(),
            final(relevant_cards).cards@.len() <= 5,
            forall|rank: int|
                1 <= rank <= 14 ==> #[trigger] count_rank(final(relevant_cards).cards@, rank)
                    == if eligible(rank, skip1 as int, skip2 as int) {
                    top_count(
                        self.cards@,
                        5 - old(relevant_cards).cards@.len(),
                        rank,
                        skip1 as int,
                        skip2 as int,
                    )
                } else {
                    count_rank(old(relevant_cards).cards@, rank) as int
                },
            forall|suit: int|
                count_suit(self.cards@, suit) == self.cards@.len() ==> count_suit(
                    final(relevant_cards).cards@,
                    suit,
                ) - count_suit(old(relevant_cards).cards@, suit)
                    == final(relevant_cards).cards@.len() - old(relevant_cards).cards@.len(),
            continued_from(final(relevant_cards).cards@, old(relevant_cards).cards@, self.cards@),
            final(relevant_cards).cards@ == old(relevant_cards).cards@ + highest_cards(
                self.cards@,
                5 - old(relevant_cards).cards@.len(),
                1,
                skip1 as int,
                skip2 as int,
            ),
    {
        let ghost before = relevant_cards.cards@;
        let ghost k = 5 - before.len();
        assert(before.subrange(0, before.len() as int) =~= before);
        assert(before + Seq::<Card>::empty() =~= before);
        let ghost skipped1 = skip1 as int;
        let ghost skipped2 = skip2 as int;
        let mut rank: u8 = 14;
        proof {
            lemma_none_above_ace(self.cards@, skipped1, skipped2);
        }
        while rank >= 1
            invariant
                0 <= rank <= 14,
                self.wf(),
                relevant_cards.wf(),
                k == 5 - before.len(),
                0 <= k <= 5,
                skipped1 == skip1 as int,
                skipped2 == skip2 as int,
                relevant_cards.cards@.len() == before.len() + min(
                    k,
                    count_above(self.cards@, rank as int, skipped1, skipped2) as int,
                ),
                forall|r: int|
                    rank < r <= 14 && eligible(r, skipped1, skipped2) ==> #[trigger] count_rank(
                        relevant_cards.cards@,
                        r,
                    ) == top_count(self.cards@, k, r, skipped1, skipped2),
                forall|r: int|
                    r <= rank && eligible(r, skipped1, skipped2) ==> #[trigger] count_rank(
                        relevant_cards.cards@,
                        r,
                    ) == 0,
                forall|r: int|
                    !eligible(r, skipped1, skipped2) ==> #[trigger] count_rank(relevant_cards.cards@, r)
                        == count_rank(before, r),
                forall|suit: int|
                    count_suit(self.cards@, suit) == self.cards@.len() ==> count_suit(
                        relevant_cards.cards@,
                        suit,
                    ) - count_suit(before, suit) == relevant_cards.cards@.len() - before.len(),
                continued_from(relevant_cards.cards@, before, self.cards@),
                relevant_cards.cards@ == before + highest_cards(self.cards@, k, rank + 1, skipped1, skipped2),
            decreases rank,
        {
            proof {
                lemma_count_above_step(self.cards@, rank as int, skipped1, skipped2);
            }
            if rank != skip1 && rank != skip2 {
                let ghost middle = relevant_cards.cards@;
                let ghost above = highest_cards(self.cards@, k, rank + 1, skipped1, skipped2);
                self.add_relevant_pair_cards(relevant_cards, rank);
                proof {
                    lemma_continued_twice(relevant_cards.cards@, middle, before, self.cards@);
                    let more = firsts(self.cards@, rank as int, k - above.len());
                    assert((before + above) + more =~= before + (above + more));
                }
            }
            rank -= 1;
        }
    }

    /// The pair-type hand of the cards: four of a kind, a full house, three
    /// of a kind, two pair or one pair, with its five cards; no hand where no
    /// rank has two cards.
    pub fn get_pair_type(&self) -> (hand: HandRank)
        requires
            self.wf(),
        ensures
            hand.category() == pair_category(self.cards@),
            !(hand is Absent) ==> hand.array().wf() && hand.array().cards@.len() <= 5,
            !(hand is Absent) ==> forall|rank: int|
                1 <= rank <= 14 ==> #[trigger] count_rank(hand.array().cards@, rank)
                    == pair_hand_count(self.cards@, rank),
            !(hand is Absent) ==> hand.array().cards@ == pair_hand_cards(self.cards@),
    {
        let top = self.best_group(0);
        if top == 0 {
            return HandRank::Absent;
        }
        let top_count = self.rank_count(top);
        let mut relevant_cards = CardArray::new();
        self.add_relevant_pair_cards(&mut relevant_cards, top);
        assert(relevant_cards.cards@ =~= firsts(self.cards@, top as int, 5));
        let second = if top_count >= 4 {
            0
        } else {
            self.best_group(top)
        };
        if second != 0 {
            self.add_relevant_pair_cards(&mut relevant_cards, second);
        }
        let ghost taken = relevant_cards.cards@;
        self.fill_relevant_cards(&mut relevant_cards, top, second);
        let category: u8 = if top_count >= 4 {
            8
        } else if top_count == 3 {
            if second != 0 {
                7
            } else {
                4
            }
        } else if second != 0 {
            3
        } else {
            2
        };
        proof {
            assert(second == second_group(self.cards@));
            assert forall|rank: int| 1 <= rank <= 14 implies #[trigger] count_rank(
                relevant_cards.cards@,
                rank,
            ) == pair_hand_count(self.cards@, rank) by {
                assert(count_rank(Seq::<Card>::empty(), rank) == 0);
            }
        }
        HandRank::of_category(category, relevant_cards)
    }

    /// The high-card hand of the cards: the five highest cards.
    pub fn get_high_card(&self) -> (hand: HandRank)
        requires
            self.wf(),
        ensures
            hand is HighCard,
            hand.array().wf(),
            hand.array().cards@.len() <= 5,
            forall|rank: int|
                1 <= rank <= 14 ==> #[trigger] count_rank(hand.array().cards@, rank)
                    == high_hand_count(self.cards@, rank),
            forall|suit: int|
                count_suit(self.cards@, suit) == self.cards@.len() ==> count_suit(
                    hand.array().cards@,
                    suit,
                ) == hand.array().cards@.len(),
            hand.array().cards@ == high_hand_cards(self.cards@),
    {
        let mut relevant_cards = CardArray::new();
        assert forall|suit: int| count_suit(relevant_cards.cards@, suit) == 0 by {}
        self.fill_relevant_cards(&mut relevant_cards, 0, 0);
        assert(relevant_cards.cards@ =~= high_hand_cards(self.cards@));
        HandRank::HighCard(relevant_cards)
    }

    /// Whether the five slots from `low` upwards all hold a card.
    pub fn has_straight_from(&self, low: usize) -> (found: bool)
        requires
            self.wf(),
            low <= 9,
        ensures
            found == straight_from(self.cards@, low as int),
    {
        assert(self.rank_counts@[low as int] == count_slot(self.cards@, low as int));
        assert(self.rank_counts@[low + 1] == count_slot(self.cards@, low + 1));
        assert(self.rank_counts@[low + 2] == count_slot(self.cards@, low + 2));
        assert(self.rank_counts@[low + 3] == count_slot(self.cards@, low + 3));
        assert(self.rank_counts@[low + 4] == count_slot(self.cards@, low + 4));
        self.rank_counts[low] > 0 && self.rank_counts[low + 1] > 0 && self.rank_counts[low + 2]
            > 0 && self.rank_counts[low + 3] > 0 && self.rank_counts[low + 4] > 0
    }

    /// Adds to `relevant_cards` the first card of the given rank, if there
    /// is one.
    fn add_first_card_of_rank(&self, relevant_cards: &mut CardArray, rank: u8)
        requires
            self.wf(),
            old(relevant_cards).wf(),
            old(relevant_cards).cards@.len() < 255,
        ensures
            final(relevant_cards).wf(),
            final(relevant_cards).cards@.len() <= old(relevant_cards).cards@.len() + 1,
            forall|other: int| #[trigger]
                count_rank(final(relevant_cards).cards@, other) == count_rank(
                    old(relevant_cards).cards@,
                    other,
                ) + if other == rank && count_rank(self.cards@, other) > 0 {
                    1nat
                } else {
                    0nat
                },
            final(relevant_cards).cards@ == old(relevant_cards).cards@ + firsts(
                self.cards@,
                rank as int,
                1,
            ),
    {
        let mut i: usize = 0;
        proof {
            assert(self.cards@.subrange(0, 0) =~= Seq::<Card>::empty());
        }
        while i < self.cards.len()
            invariant
                i <= self.cards.len(),
                self.wf(),
                *relevant_cards == *old(relevant_cards),
                relevant_cards.wf(),
                relevant_cards.cards@.len() < 255,
                count_rank(self.cards@.subrange(0, i as int), rank as int) == 0,
            decreases self.cards.len() - i,
        {
            proof {
                lemma_count_prefix(self.cards@, i as int);
                lemma_firsts_len(self.cards@.subrange(0, i as int), rank as int, 1);
                assert(self.cards@.subrange(0, i + 1).drop_last() =~= self.cards@.subrange(
                    0,
                    i as int,
                ));
            }
            if self.cards[i].rank == rank {
                proof {
                    lemma_count_push(relevant_cards.cards@, self.cards@[i as int]);
                    assert(playable(self.cards@[i as int]));
                    lemma_count_grows(self.cards@, i as int + 1, rank as int);
                    let found = firsts(self.cards@.subrange(0, i + 1), rank as int, 1);
                    assert(found =~= seq![self.cards@[i as int]]);
                    lemma_firsts_full(self.cards@, rank as int, 1, i + 1);
                    assert(relevant_cards.cards@.push(self.cards@[i as int])
                        =~= relevant_cards.cards@ + found);
                }
                relevant_cards.add_card(&self.cards[i]);
                return ;
            }
            i += 1;
        }
        proof {
            assert(self.cards@.subrange(0, i as int) =~= self.cards@);
            lemma_firsts_len(self.cards@, rank as int, 1);
            assert(relevant_cards.cards@ + firsts(self.cards@, rank as int, 1)
                =~= relevant_cards.cards@);
        }
    }

    /// The highest straight among the cards, with its cards in rising order;
    /// no hand where there is no straight.
    pub fn get_straight(&self) -> (hand: HandRank)
        requires
            self.wf(),
        ensures
            best_straight(self.cards@) >= 0 ==> hand is Straight,
            best_straight(self.cards@) < 0 ==> hand is Absent,
            hand is Straight ==> hand.array().wf() && hand.array().cards@.len() <= 5,
            hand is Straight ==> forall|rank: int|
                1 <= rank <= 14 ==> #[trigger] count_rank(hand.array().cards@, rank)
                    == straight_hand_count(self.cards@, rank),
            hand is Straight ==> hand.array().cards@ == straight_hand_cards(self.cards@),
    {
        let mut low: usize = 10;
        while low > 0
            invariant
                low <= 10,
                self.wf(),
                best_straight(self.cards@) == best_straight_upto(self.cards@, low - 1),
            decreases low,
        {
            low -= 1;
            if self.has_straight_from(low) {
                let mut relevant_cards = CardArray::new();
                let mut k: usize = 0;
                while k < 5
                    invariant
                        k <= 5,
                        low <= 9,
                        self.wf(),
                        relevant_cards.wf(),
                        relevant_cards.cards@.len() <= k,
                        relevant_cards.cards@ == straight_cards(self.cards@, low as int, k as int),
                        forall|rank: int| #[trigger]
                            count_rank(relevant_cards.cards@, rank) == if low + 1 <= rank < low
                                + 1 + k && count_rank(self.cards@, rank) > 0 {
                                1nat
                            } else {
                                0nat
                            },
                    decreases 5 - k,
                {
                    self.add_first_card_of_rank(&mut relevant_cards, (low + 1 + k) as u8);
                    k += 1;
                }
                return HandRank::Straight(relevant_cards);
            }
        }
        HandRank::Absent
    }

    /// The cards of the suit with the given index, in their order.
    pub fn cards_of_suit(&self, suit: usize) -> (array: CardArray)
        requires
            self.wf(),
        ensures
            array.wf(),
            array.cards@ == of_suit(self.cards@, suit as int),
    {
        let mut array = CardArray::new();
        let mut i: usize = 0;
        proof {
            reveal(Seq::filter);
            assert(self.cards@.subrange(0, 0) =~= Seq::<Card>::empty());
            assert(of_suit(Seq::<Card>::empty(), suit as int) =~= Seq::<Card>::empty());
        }
        while i < self.cards.len()
            invariant
                i <= self.cards.len(),
                self.wf(),
                array.wf(),
                array.cards@ == of_suit(self.cards@.subrange(0, i as int), suit as int),
                array.cards@.len() <= i,
            decreases self.cards.len() - i,
        {
            proof {
                lemma_of_suit_prefix(self.cards@, suit as int, i as int);
                assert(playable(self.cards@[i as int]));
            }
            if self.cards[i].suit.to_usize() == suit {
                array.add_card(&self.cards[i]);
            }
            i += 1;
        }
        assert(self.cards@.subrange(0, i as int) =~= self.cards@);
        array
    }

    /// The flush among the cards: the five highest cards of the first suit
    /// of which there are five; no hand where there is no such suit.
    pub fn get_flush(&self) -> (hand: HandRank)
        requires
            self.wf(),
        ensures
            flush_suit(self.cards@) >= 0 ==> hand is Flush,
            flush_suit(self.cards@) < 0 ==> hand is Absent,
            hand is Flush ==> hand.array().wf() && hand.array().cards@.len() <= 5,
            hand is Flush ==> forall|rank: int|
                1 <= rank <= 14 ==> #[trigger] count_rank(hand.array().cards@, rank)
                    == flush_hand_count(self.cards@, rank),
            hand is Flush ==> count_suit(hand.array().cards@, flush_suit(self.cards@))
                == hand.array().cards@.len(),
            hand is Flush ==> hand.array().cards@ == flush_hand_cards(self.cards@),
    {
        let mut suit: usize = 0;
        while suit < 4
            invariant
                suit <= 4,
                self.wf(),
                forall|other: int| 0 <= other < suit ==> count_suit(self.cards@, other) < 5,
            decreases 4 - suit,
        {
            assert(self.suit_counts@[suit as int] == count_suit(self.cards@, suit as int));
            if self.suit_counts[suit] >= 5 {
                let suited = self.cards_of_suit(suit);
                proof {
                    lemma_of_suit_count(self.cards@, suit as int);
                    assert(count_suit(Seq::<Card>::empty(), suit as int) == 0);
                }
                let hand = suited.get_high_card();
                return HandRank::Flush(hand.array_of());
            }
            suit += 1;
        }
        HandRank::Absent
    }

    /// The straight flush among the cards: the highest straight within the
    /// first suit that holds one; no hand where no suit does.
    pub fn get_straight_flush(&self) -> (hand: HandRank)
        requires
            self.wf(),
        ensures
            straight_flush_suit(self.cards@) >= 0 ==> hand is StraightFlush,
            straight_flush_suit(self.cards@) < 0 ==> hand is Absent,
            hand is StraightFlush ==> hand.array().wf() && hand.array().cards@.len() <= 5,
            hand is StraightFlush ==> forall|rank: int|
                1 <= rank <= 14 ==> #[trigger] count_rank(hand.array().cards@, rank)
                    == straight_flush_hand_count(self.cards@, rank),
            hand is StraightFlush ==> hand.array().cards@ == straight_flush_hand_cards(
                self.cards@,
            ),
    {
        let mut suit: usize = 0;
        while suit < 4
            invariant
                suit <= 4,
                self.wf(),
                forall|other: int| 0 <= other < suit ==> !straight_flush_in(self.cards@, other),
            decreases 4 - suit,
        {
            assert(self.suit_counts@[suit as int] == count_suit(self.cards@, suit as int));
            if self.suit_counts[suit] >= 5 {
                let suited = self.cards_of_suit(suit);
                let straight = suited.get_straight();
                if straight.is_straight() {
                    return HandRank::StraightFlush(straight.array_of());
                }
            }
            suit += 1;
        }
        HandRank::Absent
    }

    /// Renders the cards of the array.
    pub fn to_string(&self) -> (s: String)
        ensures
            s@ == cards_text(self.cards@),
    {
        cards_to_string(&self.cards)
    }

    /// The comparison of two hands by their groups.
    pub fn group_sign(&self, other: &CardArray) -> (sign: i8)
        ensures
            sign == group_sign(self.rank_counts@, other.rank_counts@, 255, 14),
    {
        let ghost a = self.rank_counts@;
        let ghost b = other.rank_counts@;
        let top_a = greatest_count(&self.rank_counts);
        let top_b = greatest_count(&other.rank_counts);
        let top = if top_a >= top_b {
            top_a
        } else {
            top_b
        };
        proof {
            lemma_group_sign_skip(a, b, 255, 14, top as int);
        }
        let mut count: u8 = top;
        while count >= 2
            invariant
                count <= top,
                a == self.rank_counts@,
                b == other.rank_counts@,
                group_sign(a, b, 255, 14) == group_sign(a, b, count as int, 14),
            decreases count,
        {
            let mut rank: u8 = 14;
            while rank >= 1
                invariant
                    rank <= 14,
                    count >= 2,
                    a == self.rank_counts@,
                    b == other.rank_counts@,
                    group_sign(a, b, 255, 14) == group_sign(a, b, count as int, rank as int),
                decreases rank,
            {
                let in_self = slot_count(&self.rank_counts, rank) == count;
                let in_other = slot_count(&other.rank_counts, rank) == count;
                if in_self && !in_other {
                    return 1;
                } else if !in_self && in_other {
                    return -1;
                }
                rank -= 1;
            }
            count -= 1;
        }
        0
    }

    /// The comparison of two hands of one kind: 1 where `self` is better, -1
    /// where `other` is, 0 where neither is.
    pub fn compare_with(&self, other: &CardArray) -> (sign: i8)
        ensures
            sign == compare_counts(self.rank_counts@, other.rank_counts@),
    {
        let groups = self.group_sign(other);
        if groups != 0 {
            return groups;
        }
        let ghost a = self.rank_counts@;
        let ghost b = other.rank_counts@;
        let mut rank: u8 = 14;
        while rank >= 1
            invariant
                rank <= 14,
                a == self.rank_counts@,
                b == other.rank_counts@,
                group_sign(a, b, 255, 14) == 0,
                rank_sign(a, b, 14) == rank_sign(a, b, rank as int),
            decreases rank,
        {
            let mine = slot_count(&self.rank_counts, rank);
            let theirs = slot_count(&other.rank_counts, rank);
            if mine > theirs {
                return 1;
            } else if mine < theirs {
                return -1;
            }
            rank -= 1;
        }
        0
    }

    /// The comparison of two hands by their groups alone: nothing where they
    /// have the same groups.
    pub fn partial_compare_pairs(&self, other: &CardArray) -> (r: Option<Ordering>)
        ensures
            r == (if group_sign(self.rank_counts@, other.rank_counts@, 255, 14) > 0 {
                Some(Ordering::Greater)
            } else if group_sign(self.rank_counts@, other.rank_counts@, 255, 14) < 0 {
                Some(Ordering::Less)
            } else {
                None
            }),
    {
        let sign = self.group_sign(other);
        if sign > 0 {
            Some(Ordering::Greater)
        } else if sign < 0 {
            Some(Ordering::Less)
        } else {
            None
        }
    }

    /// Whether two arrays have the same counts. The order of the cards plays
    /// no part.
    pub fn same_counts(&self, other: &CardArray) -> (same: bool)
        ensures
            same == (self.rank_counts@ == other.rank_counts@ && self.suit_counts@
                == other.suit_counts@),
    {
        let mut i: usize = 0;
        while i < 14
            invariant
                i <= 14,
                forall|j: int| 0 <= j < i ==> self.rank_counts@[j] == other.rank_counts@[j],
            decreases 14 - i,
        {
            if self.rank_counts[i] != other.rank_counts[i] {
                return false;
            }
            i += 1;
        }
        assert(self.rank_counts@ =~= other.rank_counts@);
        let mut k: usize = 0;
        while k < 4
            invariant
                k <= 4,
                self.rank_counts@ == other.rank_counts@,
                forall|j: int| 0 <= j < k ==> self.suit_counts@[j] == other.suit_counts@[j],
            decreases 4 - k,
        {
            if self.suit_counts[k] != other.suit_counts[k] {
                return false;
            }
            k += 1;
        }
        assert(self.suit_counts@ =~= other.suit_counts@);
        true
    }
}

impl Clone for CardArray {
    fn clone(&self) -> (array: CardArray)
        ensures
            array.rank_counts@ == self.rank_counts@,
            array.suit_counts@ == self.suit_counts@,
            array.cards@ == self.cards@,
    {
        self.copy()
    }
}

impl PartialEq for CardArray {
    fn eq(&self, other: &CardArray) -> (same: bool) {
        self.same_counts(other)
    }
}

impl Eq for CardArray {

}

impl PartialEqSpecImpl for CardArray {
    open spec fn obeys_eq_spec() -> bool {
        true
    }

    open spec fn eq_spec(&self, other: &CardArray) -> bool {
        self.rank_counts@ == other.rank_counts@ && self.suit_counts@ == other.suit_counts@
    }
}

impl PartialOrd for CardArray {
    fn partial_cmp(&self, other: &CardArray) -> (r: Option<Ordering>) {
        let sign = self.compare_with(other);
        if sign > 0 {
            Some(Ordering::Greater)
        } else if sign < 0 {
            Some(Ordering::Less)
        } else {
            Some(Ordering::Equal)
        }
    }
}

impl PartialOrdSpecImpl for CardArray {
    open spec fn obeys_partial_cmp_spec() -> bool {
        true
    }

    open spec fn partial_cmp_spec(&self, other: &CardArray) -> Option<Ordering> {
        if compare_counts(self.rank_counts@, other.rank_counts@) > 0 {
            Some(Ordering::Greater)
        } else if compare_counts(self.rank_counts@, other.rank_counts@) < 0 {
            Some(Ordering::Less)
        } else {
            Some(Ordering::Equal)
        }
    }
}


/// Where all cards of a run have one suit, each of them has it.
pub proof fn lemma_all_of_suit(cards: Seq<Card>, suit: int, i: int)
    requires
        count_suit(cards, suit) == cards.len(),
        0 <= i < cards.len(),
    ensures
        cards[i].suit.index() == suit,
    decreases cards.len(),
{
    lemma_count_bound(cards.drop_last());
    assert(count_suit(cards.drop_last(), suit) <= cards.drop_last().len());
    assert(cards.last().suit.index() == suit);
    if i < cards.len() - 1 {
        lemma_all_of_suit(cards.drop_last(), suit, i);
    }
}


/// A rank that occurs among the first cards of a run occurs in the run.
pub proof fn lemma_count_grows(cards: Seq<Card>, i: int, rank: int)
    requires
        0 <= i <= cards.len(),
    ensures
        count_rank(cards.subrange(0, i), rank) <= count_rank(cards, rank),
    decreases cards.len() - i,
{
    if i < cards.len() {
        lemma_count_prefix(cards, i);
        lemma_count_grows(cards, i + 1, rank);
    } else {
        assert(cards.subrange(0, i) =~= cards);
    }
}

} // verus!
