//! Weighted sets of hole cards.

use vstd::prelude::*;
use vstd::string::*;
use crate::error::ParseError;
use crate::hole_cards::HoleCards;
use crate::text::{find_from, first_index};
use crate::weight::{weight_of_text, Weight, BILLION};

verus! {

/// A hand with its weight.
pub type Entry = (HoleCards, Weight);

/// The place of the first entry for a hand; the number of entries where
/// there is none.
pub open spec fn position(entries: Seq<Entry>, hand: HoleCards) -> int
    decreases entries.len(),
{
    if entries.len() == 0 {
        0
    } else if entries[0].0 == hand {
        0
    } else {
        1 + position(entries.subrange(1, entries.len() as int), hand)
    }
}

/// Whether no hand has two entries.
pub open spec fn distinct_hands(entries: Seq<Entry>) -> bool {
    forall|i: int, j: int|
        0 <= i < j < entries.len() ==> (#[trigger] entries[i]).0 != (#[trigger] entries[j]).0
}

/// The entries with the given weight for the given hand: in place of the
/// entry that the hand has already, or at the end.
pub open spec fn with_entry(entries: Seq<Entry>, hand: HoleCards, weight: Weight) -> Seq<Entry> {
    if position(entries, hand) < entries.len() {
        entries.update(position(entries, hand), (hand, weight))
    } else {
        entries.push((hand, weight))
    }
}

/// The entries with the given weight for each of the given hands.
pub open spec fn with_hands(entries: Seq<Entry>, hands: Seq<HoleCards>, weight: Weight) -> Seq<
    Entry,
>
    decreases hands.len(),
{
    if hands.len() == 0 {
        entries
    } else {
        with_entry(with_hands(entries, hands.drop_last(), weight), hands.last(), weight)
    }
}

/// The entries with all of the further entries, the later ones taking
/// precedence.
pub open spec fn with_entries(entries: Seq<Entry>, more: Seq<Entry>) -> Seq<Entry>
    decreases more.len(),
{
    if more.len() == 0 {
        entries
    } else {
        with_entry(with_entries(entries, more.drop_last()), more.last().0, more.last().1)
    }
}

/// The entries with those of weighted hands, the later ones taking precedence.
pub open spec fn with_weighted(entries: Seq<Entry>, more: Seq<(Weight, HoleCards)>) -> Seq<Entry>
    decreases more.len(),
{
    if more.len() == 0 {
        entries
    } else {
        with_entry(with_weighted(entries, more.drop_last()), more.last().1, more.last().0)
    }
}

/// The entries with, for each of the further entries, its weight for each
/// hand that its cards stand for.
pub open spec fn with_expanded(entries: Seq<Entry>, more: Seq<Entry>) -> Seq<Entry>
    decreases more.len(),
{
    if more.len() == 0 {
        entries
    } else {
        with_hands(
            with_expanded(entries, more.drop_last()),
            more.last().0.hands(),
            more.last().1,
        )
    }
}

/// The place of the first entry for a hand holds that hand, and no entry
/// before it does.
pub proof fn lemma_position(entries: Seq<Entry>, hand: HoleCards)
    ensures
        0 <= position(entries, hand) <= entries.len(),
        position(entries, hand) < entries.len() ==> entries[position(entries, hand)].0 == hand,
        forall|i: int| 0 <= i < position(entries, hand) ==> (#[trigger] entries[i]).0 != hand,
    decreases entries.len(),
{
    if entries.len() > 0 && entries[0].0 != hand {
        let rest = entries.subrange(1, entries.len() as int);
        lemma_position(rest, hand);
        assert forall|i: int| 0 <= i < position(entries, hand) implies (#[trigger] entries[i]).0
            != hand by {
            if i > 0 {
                assert(rest[i - 1] == entries[i]);
            }
        }
    }
}

/// The place of the first entry for a hand is the only place that holds the
/// hand and has no entry for it before.
pub proof fn lemma_position_is(entries: Seq<Entry>, hand: HoleCards, k: int)
    requires
        0 <= k <= entries.len(),
        k < entries.len() ==> entries[k].0 == hand,
        forall|i: int| 0 <= i < k ==> (#[trigger] entries[i]).0 != hand,
    ensures
        position(entries, hand) == k,
{
    lemma_position(entries, hand);
    let p = position(entries, hand);
    if p < k {
        assert(entries[p].0 != hand);
    }
}

/// The weight of a hand among the entries, if it has one.
pub open spec fn weight_in(entries: Seq<Entry>, hand: HoleCards) -> Option<Weight> {
    if position(entries, hand) < entries.len() {
        Some(entries[position(entries, hand)].1)
    } else {
        None
    }
}

/// After the weight of a hand is set, the hand has that weight and every
/// other hand has the weight that it had before.
pub proof fn lemma_weight_after_set(
    entries: Seq<Entry>,
    hand: HoleCards,
    weight: Weight,
    other: HoleCards,
)
    ensures
        weight_in(with_entry(entries, hand, weight), other) == if other == hand {
            Some(weight)
        } else {
            weight_in(entries, other)
        },
{
    let after = with_entry(entries, hand, weight);
    lemma_position(entries, hand);
    lemma_position(entries, other);
    let p = position(entries, hand);
    let q = position(entries, other);
    if other == hand {
        assert forall|i: int| 0 <= i < p implies (#[trigger] after[i]).0 != hand by {
            assert(entries[i].0 != hand);
        }
        lemma_position_is(after, hand, p);
    } else {
        assert forall|i: int| 0 <= i < q implies (#[trigger] after[i]).0 != other by {
            assert(entries[i].0 != other);
        }
        if q < entries.len() {
            lemma_position_is(after, other, q);
        } else {
            lemma_position_is(after, other, after.len() as int);
        }
    }
}

/// Setting the weight of a hand leaves no hand with two entries.
pub proof fn lemma_with_entry_distinct(entries: Seq<Entry>, hand: HoleCards, weight: Weight)
    requires
        distinct_hands(entries),
    ensures
        distinct_hands(with_entry(entries, hand, weight)),
{
    lemma_position(entries, hand);
    let p = position(entries, hand);
    let after = with_entry(entries, hand, weight);
    assert forall|i: int, j: int| 0 <= i < j < after.len() implies (#[trigger] after[i]).0 != (
    #[trigger] after[j]).0 by {
        if p < entries.len() {
            assert(after[i].0 == entries[i].0);
            assert(after[j].0 == entries[j].0);
        } else if j == entries.len() {
            assert(entries[i].0 != hand);
        }
    }
}

/// What one element of range notation stands for.
pub enum Element {
    /// A hand with a weight above zero.
    Hand(HoleCards, Weight),
    /// A hand with weight zero, which is left out of the range.
    LeftOut,
    /// Text before the colon that names no hand.
    BadHand(Seq<char>),
    /// Text after the colon that writes no weight.
    BadWeight(Seq<char>),
}

/// What range notation stands for.
pub enum Notation {
    /// The entries of the range.
    Entries(Seq<Entry>),
    /// Text before a colon that names no hand.
    BadHand(Seq<char>),
    /// Text after a colon that writes no weight.
    BadWeight(Seq<char>),
}

/// The text of an element that names its hand: what comes before its first
/// colon.
pub open spec fn hand_text(element: Seq<char>) -> Seq<char> {
    element.subrange(0, first_index(element, ':'))
}

/// The text of an element that writes its weight: what comes between its
/// first colon and its second, or its end. Nothing where it has no colon.
pub open spec fn weight_text(element: Seq<char>) -> Option<Seq<char>> {
    let colon = first_index(element, ':');
    if colon < element.len() {
        let rest = element.subrange(colon + 1, element.len() as int);
        Some(rest.subrange(0, first_index(rest, ':')))
    } else {
        None
    }
}

/// What an element of range notation stands for: a hand, and a weight where
/// a colon follows the hand, else weight one.
pub open spec fn element_of_text(element: Seq<char>) -> Element {
    match HoleCards::of_text(hand_text(element)) {
        None => Element::BadHand(hand_text(element)),
        Some(hand) => match weight_text(element) {
            None => Element::Hand(hand, Weight::of_value(BILLION as nat)),
            Some(text) => match weight_of_text(text) {
                None => Element::BadWeight(text),
                Some(value) => if value == 0 {
                    Element::LeftOut
                } else {
                    Element::Hand(hand, Weight::of_value(value))
                },
            },
        },
    }
}

/// What range notation stands for, added to entries that are there already:
/// elements between semicolons, read from left to right; of two elements for
/// one hand the later one counts. The first element that is malformed makes
/// the notation malformed.
pub open spec fn notation_of_text(s: Seq<char>, entries: Seq<Entry>) -> Notation
    decreases s.len(),
{
    let end = first_index(s, ';');
    match element_of_text(s.subrange(0, end)) {
        Element::BadHand(text) => Notation::BadHand(text),
        Element::BadWeight(text) => Notation::BadWeight(text),
        element => {
            let next = match element {
                Element::Hand(hand, weight) => with_entry(entries, hand, weight),
                _ => entries,
            };
            if 0 <= end < s.len() {
                notation_of_text(s.subrange(end + 1, s.len() as int), next)
            } else {
                Notation::Entries(next)
            }
        },
    }
}

/// A set of hole cards, each with a weight. The hands keep the order in
/// which they were first added.
#[derive(Debug)]
pub struct Range {
    range: Vec<Entry>,
}

impl View for Range {
    type V = Seq<Entry>;

    closed spec fn view(&self) -> Seq<Entry> {
        self.range@
    }
}

impl Clone for Range {
    fn clone(&self) -> (range: Range)
        ensures
            range@ == self@,
    {
        proof {
            use_type_invariant(self);
        }
        Range { range: self.to_vec() }
    }
}

impl Range {
    #[verifier::type_invariant]
    spec fn no_hand_twice(self) -> bool {
        distinct_hands(self.range@)
    }

    /// A range without hands.
    pub fn new_empty() -> (range: Range)
        ensures
            range@ == Seq::<Entry>::empty(),
    {
        Range { range: Vec::new() }
    }

    /// The range of the given hands, each with weight one.
    pub fn new_pure_range(range: Vec<HoleCards>) -> (result: Range)
        ensures
            result@ == with_hands(Seq::empty(), range@, Weight::full()),
    {
        let mut result = Range::new_empty();
        let mut i: usize = 0;
        assert(range@.subrange(0, 0) =~= Seq::<HoleCards>::empty());
        while i < range.len()
            invariant
                i <= range.len(),
                result@ == with_hands(Seq::empty(), range@.subrange(0, i as int), Weight::full()),
            decreases range.len() - i,
        {
            proof {
                assert(range@.subrange(0, i + 1).drop_last() =~= range@.subrange(0, i as int));
            }
            result.insert(range[i], Weight::one());
            i += 1;
        }
        assert(range@.subrange(0, i as int) =~= range@);
        result
    }

    /// The range of the given hands with their weights; of two entries for
    /// one hand the later one counts.
    pub fn new(range: Vec<(Weight, HoleCards)>) -> (result: Range)
        ensures
            result@ == with_weighted(Seq::empty(), range@),
    {
        let mut result = Range::new_empty();
        let mut i: usize = 0;
        assert(range@.subrange(0, 0) =~= Seq::<(Weight, HoleCards)>::empty());
        while i < range.len()
            invariant
                i <= range.len(),
                result@ == with_weighted(Seq::empty(), range@.subrange(0, i as int)),
            decreases range.len() - i,
        {
            proof {
                assert(range@.subrange(0, i + 1).drop_last() =~= range@.subrange(0, i as int));
            }
            result.insert(range[i].1, range[i].0);
            i += 1;
        }
        assert(range@.subrange(0, i as int) =~= range@);
        result
    }

    /// Reads one element of range notation.
    pub fn element_from_string(element: &str) -> (r: Result<Option<Entry>, ParseError>)
        ensures
            match element_of_text(element@) {
                Element::Hand(hand, weight) => r == Ok::<Option<Entry>, ParseError>(
                    Some((hand, weight)),
                ),
                Element::LeftOut => r == Ok::<Option<Entry>, ParseError>(None),
                Element::BadHand(text) => r matches Err(ParseError::InvalidHoleCards(t)) && t@
                    == text,
                Element::BadWeight(text) => r matches Err(ParseError::InvalidWeight(t)) && t@
                    == text,
            },
    {
        let n = element.unicode_len();
        let colon = find_from(element, 0, ':');
        assert(element@.subrange(0, n as int) =~= element@);
        let hand = match HoleCards::new_from_string(element.substring_char(0, colon)) {
            Ok(hand) => hand,
            Err(e) => {
                return Err(e);
            },
        };
        if colon == n {
            return Ok(Some((hand, Weight::one())));
        }
        let end = find_from(element, colon + 1, ':');
        proof {
            let rest = element@.subrange(colon + 1, n as int);
            assert(rest.subrange(0, end - colon - 1) =~= element@.subrange(
                colon + 1,
                end as int,
            ));
        }
        match Weight::from_str(element.substring_char(colon + 1, end)) {
            Ok(weight) => {
                if weight.is_zero() {
                    Ok(None)
                } else {
                    Ok(Some((hand, weight)))
                }
            },
            Err(e) => Err(e),
        }
    }

    /// Reads a range from its notation: elements between semicolons, each a
    /// hand or a class of hands, with a weight after a colon where it is not
    /// one. Elements of weight zero are left out. The first malformed element
    /// is reported with its text.
    pub fn new_from_string(range_str: &str) -> (r: Result<Range, ParseError>)
        ensures
            match notation_of_text(range_str@, Seq::empty()) {
                Notation::Entries(entries) => r matches Ok(range) && range@ == entries,
                Notation::BadHand(text) => r matches Err(ParseError::InvalidHoleCards(t)) && t@
                    == text,
                Notation::BadWeight(text) => r matches Err(ParseError::InvalidWeight(t)) && t@
                    == text,
            },
    {
        let n = range_str.unicode_len();
        let ghost s = range_str@;
        let mut range = Range::new_empty();
        let mut start: usize = 0;
        assert(s.subrange(0, n as int) =~= s);
        loop
            invariant
                start <= n,
                n == s.len(),
                s == range_str@,
                notation_of_text(s, Seq::empty()) == notation_of_text(
                    s.subrange(start as int, n as int),
                    range@,
                ),
            decreases n - start,
        {
            let end = find_from(range_str, start, ';');
            proof {
                let tail = s.subrange(start as int, n as int);
                assert(tail.subrange(0, end - start) =~= s.subrange(start as int, end as int));
                if end < n {
                    assert(tail.subrange(end - start + 1, tail.len() as int) =~= s.subrange(
                        end + 1,
                        n as int,
                    ));
                }
            }
            match Range::element_from_string(range_str.substring_char(start, end)) {
                Ok(Some(entry)) => {
                    range.insert(entry.0, entry.1);
                },
                Ok(None) => {},
                Err(e) => {
                    return Err(e);
                },
            }
            if end < n {
                start = end + 1;
            } else {
                return Ok(range);
            }
        }
    }

    /// Sets the weight of a hand: in place where the range holds the hand
    /// already, else at the end.
    pub fn insert(&mut self, hand: HoleCards, weight: Weight)
        ensures
            final(self)@ == with_entry(old(self)@, hand, weight),
    {
        let mut taken = Range::new_empty();
        core::mem::swap(self, &mut taken);
        proof {
            use_type_invariant(&taken);
            lemma_with_entry_distinct(taken.range@, hand, weight);
        }
        let Range { range: mut entries } = taken;
        let ghost before = entries@;
        let mut i: usize = 0;
        while i < entries.len()
            invariant
                i <= entries.len(),
                entries@ == before,
                before == old(self)@,
                distinct_hands(with_entry(before, hand, weight)),
                forall|j: int| 0 <= j < i ==> (#[trigger] entries@[j]).0 != hand,
            decreases entries.len() - i,
        {
            if entries[i].0 == hand {
                proof {
                    lemma_position_is(before, hand, i as int);
                }
                entries[i] = (hand, weight);
                *self = Range { range: entries };
                return ;
            }
            i += 1;
        }
        proof {
            lemma_position_is(before, hand, i as int);
        }
        entries.push((hand, weight));
        *self = Range { range: entries };
    }

    /// The weight of a hand, if the range holds it.
    pub fn get(&self, hand: &HoleCards) -> (weight: Option<Weight>)
        ensures
            weight == weight_in(self@, *hand),
    {
        let mut i: usize = 0;
        while i < self.range.len()
            invariant
                i <= self.range.len(),
                forall|j: int| 0 <= j < i ==> (#[trigger] self.range@[j]).0 != *hand,
            decreases self.range.len() - i,
        {
            if self.range[i].0 == *hand {
                proof {
                    lemma_position_is(self.range@, *hand, i as int);
                }
                return Some(self.range[i].1);
            }
            i += 1;
        }
        proof {
            lemma_position_is(self.range@, *hand, i as int);
        }
        None
    }

    /// The number of hands.
    pub fn len(&self) -> (n: usize)
        ensures
            n == self@.len(),
    {
        self.range.len()
    }

    /// An iterator over the hands with their weights, in the order in which
    /// they were first added.
    pub fn iter(&self) -> (entries: core::slice::Iter<'_, Entry>)
        ensures
            vstd::std_specs::slice::into_iter_elts(entries) == self@,
    {
        broadcast use vstd::std_specs::slice::axiom_spec_slice_iter;

        let entries = self.range.as_slice().iter();
        assert(self.range@.as_ref().unref() =~= self.range@);
        entries
    }

    /// The hands with their weights, in the order in which they were first
    /// added.
    pub fn to_vec(&self) -> (entries: Vec<Entry>)
        ensures
            entries@ == self@,
            distinct_hands(entries@),
    {
        proof {
            use_type_invariant(self);
        }
        let mut entries: Vec<Entry> = Vec::new();
        let mut i: usize = 0;
        while i < self.range.len()
            invariant
                i <= self.range.len(),
                entries@ == self.range@.subrange(0, i as int),
            decreases self.range.len() - i,
        {
            entries.push(self.range[i]);
            i += 1;
            assert(entries@ =~= self.range@.subrange(0, i as int));
        }
        assert(self.range@.subrange(0, i as int) =~= self.range@);
        entries
    }

    /// Takes over the entries of another range; where both hold a hand, the
    /// weight of the other range counts.
    pub fn extend(&mut self, other: &Range)
        ensures
            final(self)@ == with_entries(old(self)@, other@),
    {
        let mut i: usize = 0;
        assert(other@.subrange(0, 0) =~= Seq::<Entry>::empty());
        while i < other.range.len()
            invariant
                i <= other.range.len(),
                self@ == with_entries(old(self)@, other@.subrange(0, i as int)),
            decreases other.range.len() - i,
        {
            proof {
                assert(other@.subrange(0, i + 1).drop_last() =~= other@.subrange(0, i as int));
            }
            self.insert(other.range[i].0, other.range[i].1);
            i += 1;
        }
        assert(other@.subrange(0, i as int) =~= other@);
    }

    /// Sets the weight of each of the given hands.
    pub fn insert_all(&mut self, hands: &Vec<HoleCards>, weight: Weight)
        ensures
            final(self)@ == with_hands(old(self)@, hands@, weight),
    {
        let mut i: usize = 0;
        assert(hands@.subrange(0, 0) =~= Seq::<HoleCards>::empty());
        while i < hands.len()
            invariant
                i <= hands.len(),
                self@ == with_hands(old(self)@, hands@.subrange(0, i as int), weight),
            decreases hands.len() - i,
        {
            proof {
                assert(hands@.subrange(0, i + 1).drop_last() =~= hands@.subrange(0, i as int));
            }
            self.insert(hands[i], weight);
            i += 1;
        }
        assert(hands@.subrange(0, i as int) =~= hands@);
    }

    /// The range in which each class of hands is replaced by the hands of
    /// the class, with the weight of the class.
    pub fn expand_meta_suits(&self) -> (expanded: Range)
        ensures
            expanded@ == with_expanded(Seq::empty(), self@),
    {
        let mut expanded = Range::new_empty();
        let mut i: usize = 0;
        assert(self@.subrange(0, 0) =~= Seq::<Entry>::empty());
        while i < self.range.len()
            invariant
                i <= self.range.len(),
                expanded@ == with_expanded(Seq::empty(), self@.subrange(0, i as int)),
            decreases self.range.len() - i,
        {
            proof {
                assert(self@.subrange(0, i + 1).drop_last() =~= self@.subrange(0, i as int));
            }
            let hands = self.range[i].0.expand();
            expanded.insert_all(&hands, self.range[i].1);
            i += 1;
        }
        assert(self@.subrange(0, i as int) =~= self@);
        expanded
    }
}

} // verus!
