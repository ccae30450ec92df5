//! The cards that have not been dealt.

use vstd::prelude::*;
use rand::rngs::StdRng;
use rand::seq::SliceRandom;
use crate::board::{cards_equal, copy_cards};
use crate::card::Card;
use crate::card_array::{all_playable, playable};
use crate::suit::Suit;

verus! {

/// `rand::rngs::StdRng`, the seedable random number generator of the `rand`
/// crate, which shuffles decks. Nothing is said of what is inside it.
#[verifier::external_type_specification]
#[verifier::external_body]
pub struct ExStdRng(rand::rngs::StdRng);

/// Shuffles cards in place with `rand::seq::SliceRandom::shuffle`, which only
/// swaps elements: the same cards are there afterwards, each as often as
/// before. Nothing is claimed of their order.
#[verifier::external_body]
fn shuffle_cards(cards: &mut Vec<Card>, rng: &mut StdRng)
    ensures
        final(cards)@.to_multiset() == old(cards)@.to_multiset(),
{
    cards.shuffle(rng);
}

/// Cards that are some order of cards that can be part of hands can be part
/// of hands themselves, and are as many.
pub proof fn lemma_shuffled_playable(shuffled: Seq<Card>, fresh: Seq<Card>)
    requires
        shuffled.to_multiset() == fresh.to_multiset(),
        all_playable(fresh),
    ensures
        all_playable(shuffled),
        shuffled.len() == fresh.len(),
        forall|i: int| 0 <= i < shuffled.len() ==> fresh.contains(#[trigger] shuffled[i]),
{
    broadcast use vstd::seq_lib::to_multiset_contains;

    shuffled.to_multiset_ensures();
    fresh.to_multiset_ensures();
    assert forall|i: int| 0 <= i < shuffled.len() implies fresh.contains(
        #[trigger] shuffled[i],
    ) && playable(shuffled[i]) by {
        assert(shuffled.contains(shuffled[i]));
        assert(shuffled.to_multiset().count(shuffled[i]) > 0);
        assert(fresh.contains(shuffled[i]));
        let j = choose|j: int| 0 <= j < fresh.len() && fresh[j] == shuffled[i];
        assert(playable(fresh[j]));
    }
}

/// The 52 cards of a standard deck: ranks from two up to the ace, and within
/// each rank spades, hearts, diamonds, clubs.
pub open spec fn standard_deck() -> Seq<Card> {
    Seq::new(52, |k: int| Card { rank: (2 + k / 4) as u8, suit: Suit::real_suits()[k % 4] })
}

/// The cards of a run without every copy of one card, in their order.
pub open spec fn without_card(cards: Seq<Card>, card: Card) -> Seq<Card> {
    cards.filter(|c: Card| c != card)
}

/// A stack of cards. Cards are drawn from its end.
#[derive(Debug, PartialEq)]
pub struct Deck {
    cards: Vec<Card>,
}

impl View for Deck {
    type V = Seq<Card>;

    closed spec fn view(&self) -> Seq<Card> {
        self.cards@
    }
}

impl Clone for Deck {
    fn clone(&self) -> (deck: Deck)
        ensures
            deck@ == self@,
    {
        Deck { cards: copy_cards(&self.cards) }
    }
}

impl Deck {
    /// A standard deck of 52 cards.
    pub fn new() -> (deck: Deck)
        ensures
            deck@ == standard_deck(),
    {
        let suits = Suit::to_vec();
        let mut cards: Vec<Card> = Vec::new();
        let mut rank: u8 = 2;
        while rank < 15
            invariant
                2 <= rank <= 15,
                suits@ == Suit::real_suits(),
                cards@ == standard_deck().subrange(0, 4 * (rank - 2)),
            decreases 15 - rank,
        {
            let mut i: usize = 0;
            while i < 4
                invariant
                    2 <= rank < 15,
                    i <= 4,
                    suits@ == Suit::real_suits(),
                    cards@ == standard_deck().subrange(0, 4 * (rank - 2) + i),
                decreases 4 - i,
            {
                proof {
                    let k = 4 * (rank - 2) + i;
                    assert(k / 4 == rank - 2 && k % 4 == i as int);
                }
                cards.push(Card::new(rank, suits[i]));
                i += 1;
                assert(cards@ =~= standard_deck().subrange(0, 4 * (rank - 2) + i));
            }
            rank += 1;
        }
        assert(standard_deck().subrange(0, 52) =~= standard_deck());
        Deck { cards }
    }

    /// The deck that holds the given cards; the last one is drawn first.
    pub fn new_from_cards(cards: Vec<Card>) -> (deck: Deck)
        ensures
            deck@ == cards@,
    {
        Deck { cards }
    }

    /// A deck without cards.
    pub fn new_empty() -> (deck: Deck)
        ensures
            deck@ == Seq::<Card>::empty(),
    {
        Deck { cards: Vec::new() }
    }

    /// Shuffles the deck: it holds the same cards afterwards, in some order.
    pub fn shuffle(&mut self, rng: &mut StdRng)
        ensures
            final(self)@.to_multiset() == old(self)@.to_multiset(),
            final(self)@.len() == old(self)@.len(),
    {
        proof {
            old(self)@.to_multiset_ensures();
        }
        shuffle_cards(&mut self.cards, rng);
        proof {
            self@.to_multiset_ensures();
        }
    }

    /// Reverses the order of the cards.
    pub fn reverse(&mut self)
        ensures
            final(self)@ == old(self)@.reverse(),
    {
        let n = self.cards.len();
        let mut reversed: Vec<Card> = Vec::new();
        let mut i: usize = 0;
        while i < n
            invariant
                i <= n,
                n == self.cards.len(),
                reversed@ == self.cards@.reverse().subrange(0, i as int),
            decreases n - i,
        {
            reversed.push(self.cards[n - 1 - i]);
            i += 1;
            assert(reversed@ =~= self.cards@.reverse().subrange(0, i as int));
        }
        assert(self.cards@.reverse().subrange(0, n as int) =~= self.cards@.reverse());
        self.cards = reversed;
    }

    /// Takes the last card off the deck, if there is one.
    pub fn draw(&mut self) -> (card: Option<Card>)
        ensures
            match card {
                Some(c) => old(self)@.len() > 0 && c == old(self)@.last() && final(self)@ == old(
                    self,
                )@.drop_last(),
                None => old(self)@.len() == 0 && final(self)@ == old(self)@,
            },
    {
        self.cards.pop()
    }

    /// The cards of the deck.
    pub fn to_vec(&self) -> (cards: Vec<Card>)
        ensures
            cards@ == self@,
    {
        copy_cards(&self.cards)
    }

    /// The number of cards.
    pub fn len(&self) -> (n: usize)
        ensures
            n == self@.len(),
    {
        self.cards.len()
    }

    /// An iterator over the cards, from the one that is drawn last.
    pub fn iter(&self) -> (cards: core::slice::Iter<'_, Card>)
        ensures
            vstd::std_specs::slice::into_iter_elts(cards) == self@,
    {
        broadcast use vstd::std_specs::slice::axiom_spec_slice_iter;

        let cards = self.cards.as_slice().iter();
        assert(self.cards@.as_ref().unref() =~= self.cards@);
        cards
    }

    /// The card at an index, if the index is in range.
    pub fn get(&self, index: usize) -> (card: Option<Card>)
        ensures
            card == (if index < self@.len() {
                Some(self@[index as int])
            } else {
                None
            }),
    {
        if index < self.cards.len() {
            Some(self.cards[index])
        } else {
            None
        }
    }

    /// Takes every copy of a card out of the deck; the others keep their order.
    pub fn remove(&mut self, card: &Card)
        ensures
            final(self)@ == without_card(old(self)@, *card),
    {
        let mut kept: Vec<Card> = Vec::new();
        let mut i: usize = 0;
        proof {
            reveal(Seq::filter);
            assert(self.cards@.subrange(0, 0) =~= Seq::<Card>::empty());
        }
        while i < self.cards.len()
            invariant
                i <= self.cards.len(),
                kept@ == without_card(self.cards@.subrange(0, i as int), *card),
            decreases self.cards.len() - i,
        {
            proof {
                reveal(Seq::filter);
                let next = self.cards@.subrange(0, i + 1);
                assert(next.drop_last() =~= self.cards@.subrange(0, i as int));
            }
            if self.cards[i] != *card {
                kept.push(self.cards[i]);
            }
            i += 1;
        }
        assert(self.cards@.subrange(0, i as int) =~= self.cards@);
        self.cards = kept;
    }

    /// Whether two decks hold the same cards in the same order.
    pub fn same_as(&self, other: &Deck) -> (same: bool)
        ensures
            same == (self@ == other@),
    {
        cards_equal(&self.cards, &other.cards)
    }
}

} // verus!
