use rand::rngs::StdRng;
use rand::SeedableRng;
use rustysolver::board::Board;
use rustysolver::card::Card;
use rustysolver::card_array::{greatest_count, slot_count, CardArray};
use rustysolver::deck::Deck;
use rustysolver::hand_rank::{calculate_hand_rank, player_wins, HandRank};
use rustysolver::hole_cards::HoleCards;
use rustysolver::suit::Suit;
use std::cmp::Ordering;

fn card(text: &str) -> Card {
    let mut chars = text.chars();
    let rank = Card::rank_from_char(chars.next().unwrap()).unwrap();
    let suit = Suit::from_char(chars.next().unwrap()).unwrap();
    Card::new(rank, suit)
}

fn cards(text: &str) -> Vec<Card> {
    text.split_whitespace().map(card).collect()
}

fn array(text: &str) -> CardArray {
    CardArray::from_vec(&cards(text))
}

fn hand(text: &str) -> HoleCards {
    let both = cards(text);
    HoleCards::new(&both[0], &both[1]).unwrap()
}

fn showdown(player: &str, opponent: &str, board: &str) -> Option<bool> {
    player_wins(hand(player), hand(opponent), Board::from_vec(cards(board)))
}

#[test]
fn a_pair_of_aces_is_one_pair() {
    let hand = array("As Ah Kd Qc 2c").get_pair_type();
    assert!(hand.is_one_pair());
    assert_eq!(hand.get_card_array().cards, cards("As Ah Kd Qc 2c"));
    assert_eq!(hand.get_card_array().rank_counts[13], 2);
    assert_eq!(hand.get_card_array().rank_counts[0], 2);
    assert!(array("As Ah Ad Qc 2c").get_pair_type().is_three_of_a_kind());
    assert!(array("As Ah Ad Ac 2c").get_pair_type().is_four_of_a_kind());
}

#[test]
fn no_pair_is_no_pair_type() {
    assert!(array("As Kh 9d Qc 2c").get_pair_type().is_none());
    assert!(CardArray::new().get_pair_type().is_none());
}

#[test]
fn pair_types_take_groups_then_kickers() {
    let two_pair = array("Qs Ah Kd Qc Jc Kc As").get_pair_type();
    assert!(two_pair.is_two_pair());
    assert_eq!(two_pair.get_card_array().cards, cards("Ah As Kd Kc Qs"));
    let full_house = array("8c 3c 3d 8s 3h 8h 2c").get_pair_type();
    assert!(full_house.is_full_house());
    assert_eq!(full_house.get_card_array().cards, cards("8c 8s 8h 3c 3d"));
    let quads = array("3c Kd 3d 8s 3h 3s 2c").get_pair_type();
    assert!(quads.is_four_of_a_kind());
    assert_eq!(quads.get_card_array().cards, cards("3c 3d 3h 3s Kd"));
    let quads_over_trips = array("3c Kd 3d Ks 3h 3s Kc").get_pair_type();
    assert!(quads_over_trips.is_four_of_a_kind());
    assert_eq!(quads_over_trips.get_card_array().cards, cards("3c 3d 3h 3s Kd"));
    let trips = array("3c Kd 3d 8s 3h 9s 2c").get_pair_type();
    assert!(trips.is_three_of_a_kind());
    assert_eq!(trips.get_card_array().cards, cards("3c 3d 3h Kd 9s"));
    let pair = array("2c 3d").get_pair_type();
    assert!(pair.is_none());
    let small = array("2c 2d").get_pair_type();
    assert!(small.is_one_pair());
    assert_eq!(small.get_card_array().cards, cards("2c 2d"));
}

#[test]
fn five_of_a_rank_count_as_four_of_a_kind() {
    let hand = array("3c 3d 3h 3s 3c Kd").get_pair_type();
    assert!(hand.is_four_of_a_kind());
    assert_eq!(hand.get_card_array().cards, cards("3c 3d 3h 3s 3c"));
}

#[test]
fn high_card_takes_the_five_highest() {
    let hand = array("2c Ad 9h Ts 3s Kc 8d").get_high_card();
    assert!(hand.is_high_card());
    assert_eq!(hand.get_card_array().cards, cards("Ad Kc Ts 9h 8d"));
    assert_eq!(array("2c Ad").get_high_card().get_card_array().cards, cards("Ad 2c"));
    assert_eq!(CardArray::new().get_high_card().get_card_array().cards, cards(""));
}

#[test]
fn straights_reach_up_to_the_ace() {
    let hand = array("Ks Ah Td Qc Jc 2c").get_straight();
    assert!(hand.is_straight());
    assert_eq!(hand.get_card_array().cards, cards("Td Jc Qc Ks Ah"));
}

#[test]
fn a_straight_down_to_the_ace_leaves_the_ace_out() {
    let hand = array("As 4h 2d 5c 3c Kc").get_straight();
    assert!(hand.is_straight());
    assert_eq!(hand.get_card_array().cards, cards("2d 3c 4h 5c"));
}

#[test]
fn the_highest_straight_is_found() {
    let hand = array("As 2h 3d 4c 5c 6c 7d").get_straight();
    assert_eq!(hand.get_card_array().cards, cards("3d 4c 5c 6c 7d"));
    assert!(array("As 2h 3d 4c 6c 7c 8d").get_straight().is_none());
    assert!(array("As Kh Qd Jc").get_straight().is_none());
}

#[test]
fn a_flush_takes_the_five_highest_of_its_suit() {
    let hand = array("2c Ac 9c Ts Kc Jc Qc").get_flush();
    assert!(hand.is_flush());
    assert_eq!(hand.get_card_array().cards, cards("Ac Kc Qc Jc 9c"));
    assert_eq!(hand.get_card_array().suit_counts[Suit::Clubs.to_usize()], 5);
    assert!(array("2c Ac 9c Ts Kc Jd Qd").get_flush().is_none());
}

#[test]
fn a_straight_flush_needs_the_straight_in_one_suit() {
    let hand = array("2c 3c 4c 5c 6c 7d 8d").get_straight_flush();
    assert!(hand.is_straight_flush());
    assert_eq!(hand.get_card_array().cards, cards("2c 3c 4c 5c 6c"));
    assert!(array("2c 3c 4c 5c 6d 7c 9c").get_straight_flush().is_none());
    let wheel = array("Ac 2c 3c 4c 5c Kd Kh").get_straight_flush();
    assert!(wheel.is_straight_flush());
    assert_eq!(wheel.get_card_array().cards, cards("2c 3c 4c 5c"));
}

#[test]
fn the_best_hand_is_the_strongest_kind() {
    let kinds: Vec<u8> = [
        ("2c 3c", "4c 5c 6c Kd Kh"),
        ("Kc Ks", "4c 5c 6c Kd Kh"),
        ("Kc 4s", "4c 5c 4h Kd Kh"),
        ("Ac 9c", "4c 5c 6c Kd Kh"),
        ("7d 8d", "4c 5c 6c Kd Kh"),
        ("Ks 8d", "4c 5c 7c Kd Kh"),
        ("5s 8d", "4c 5c 7c Kd Kh"),
        ("Qs 8d", "4c 5c 7c Kd Kh"),
        ("Qs 8d", "4c 5c 7c Kd Jh"),
    ]
    .iter()
    .map(|(hole, board)| calculate_hand_rank(&hand(hole), &Board::from_vec(cards(board))).to_u8())
    .collect();
    assert_eq!(kinds, vec![9, 8, 7, 6, 5, 4, 3, 2, 1]);
}

#[test]
fn the_higher_straight_flush_wins() {
    assert_eq!(showdown("2c 3c", "7c 8c", "3c 4c 5c 6c Ac"), Some(false));
    assert_eq!(showdown("7c 8c", "2c 3c", "3c 4c 5c 6c Ac"), Some(true));
}

#[test]
fn the_higher_straight_wins() {
    assert_eq!(showdown("2c Kc", "8d Jd", "3c 4d 5d 6s 7c"), Some(false));
    assert_eq!(showdown("2c Kc", "9d Jd", "3c 4s 5s 6s 7c"), None);
    assert_eq!(showdown("Ac Kd", "6d Jd", "2c 3s 4s 5d 9c"), Some(false));
    assert_eq!(showdown("Ac Kd", "Ad Jd", "2c 3s 4s 5d 9c"), None);
    assert_eq!(showdown("Ac Kd", "9d 8d", "Tc Js Qs 2d 2c"), Some(true));
}

#[test]
fn kickers_decide_between_equal_groups() {
    assert_eq!(showdown("5c 4c", "4d 2d", "3c 3d 3h 7c Ks"), None);
    assert_eq!(showdown("8c 4c", "4d 2d", "3c 3d 3h 7c Ks"), Some(true));
    assert_eq!(showdown("7c 3c", "7d 4s", "Ad Kh Qc 7s 8c"), None);
    assert_eq!(showdown("7c 5c", "7d 6s", "Ad Kh 2c 7s 3d"), Some(false));
    assert_eq!(showdown("Kc 9c", "7h 8d", "3c 3d 3h 3s 2c"), Some(true));
    assert_eq!(showdown("Ac 3c", "4c 2d", "6s 5h 8s 9c Tc"), Some(true));
    assert_eq!(showdown("Ac Ad", "Kc Kd", "6s 5h 8s 9c Tc"), Some(true));
    assert_eq!(showdown("Ac Kd", "Ad Kc", "As Kh 8s 9c Tc"), None);
    assert_eq!(showdown("Ac Qd", "Kd Kc", "As Qh 8s 9c 9d"), Some(true));
}

#[test]
fn a_flush_counts_five_cards_only() {
    assert_eq!(showdown("2c 3d", "7h 8d", "Ac Kc Qc Jc 9c"), None);
    assert_eq!(showdown("Tc 3d", "7h 8d", "Ac Kc Qc Jc 9c"), Some(true));
    assert_eq!(showdown("2c 3d", "7c 8d", "Ac Kc Qc Jc 9d"), Some(false));
}

#[test]
fn one_card_hands_compare_by_rank() {
    let low = HoleCards::new_with_ranks(1, 1);
    let middle = HoleCards::new_with_ranks(2, 2);
    let high = HoleCards::new_with_ranks(3, 3);
    assert_eq!(player_wins(low, middle, Board::new()), Some(false));
    assert_eq!(player_wins(high, middle, Board::new()), Some(true));
    assert_eq!(player_wins(high, low, Board::new()), Some(true));
    assert_eq!(player_wins(middle, middle, Board::new()), None);
}

#[test]
fn hands_compare_by_kind_then_cards() {
    let flush = HandRank::Flush(array("Ac Kc Qc Jc 9c"));
    let lower_flush = HandRank::Flush(array("Ac Kc Qc Jc 8c"));
    let straight = HandRank::Straight(array("Td Jc Qc Ks Ah"));
    assert_eq!(flush.compare_with(&lower_flush), 1);
    assert_eq!(lower_flush.compare_with(&flush), -1);
    assert_eq!(flush.compare_with(&straight), 1);
    assert_eq!(straight.compare_with(&straight), 0);
    assert_eq!(HandRank::Absent.compare_with(&HandRank::Absent), 0);
    assert_eq!(HandRank::Absent.compare_with(&straight), -1);
    assert_eq!(flush.partial_cmp(&lower_flush), Some(Ordering::Greater));
    assert_eq!(HandRank::Absent.partial_cmp(&HandRank::Absent), Some(Ordering::Equal));
    assert!(flush == lower_flush);
    assert!(flush != straight);
    assert!(lower_flush < flush);
}

#[test]
fn hands_render_with_their_kind() {
    assert_eq!(HandRank::Flush(array("Ac Kc Qc Jc 9c")).to_string(), "Flush: A♣K♣Q♣J♣9♣");
    assert_eq!(HandRank::StraightFlush(CardArray::new()).to_string(), "Straight flush: ");
    assert_eq!(HandRank::OnePair(array("2c 2d")).to_string(), "One pair: 2♣2♦");
    assert_eq!(HandRank::Absent.to_string(), "None");
    let labels: Vec<&str> = (1..=9)
        .map(|category| HandRank::of_category(category, CardArray::new()).label())
        .collect();
    assert_eq!(
        labels,
        vec![
            "High card",
            "One pair",
            "Two pair",
            "Three of a kind",
            "Straight",
            "Flush",
            "Full house",
            "Four of a kind",
            "Straight flush"
        ]
    );
}

#[test]
fn hands_give_and_take_their_cards() {
    let mut hand = HandRank::TwoPair(array("2c 2d 3c 3d"));
    assert_eq!(hand.to_u8(), 3);
    assert!(!hand.is_none());
    assert!(HandRank::Absent.is_none());
    assert_eq!(HandRank::Absent.to_u8(), 0);
    hand.set_card_array(array("9c 9d 3c 3d Ah"));
    assert!(hand.is_two_pair());
    assert_eq!(hand.get_card_array().cards, cards("9c 9d 3c 3d Ah"));
    assert_eq!(hand.array_of().cards, cards("9c 9d 3c 3d Ah"));
}

#[test]
fn card_arrays_count_what_they_hold() {
    let hand = array("Ac Kc 2d 2h As");
    assert_eq!(hand.rank_counts, [2, 2, 0, 0, 0, 0, 0, 0, 0, 0, 0, 0, 1, 2]);
    assert_eq!(hand.suit_counts, [1, 1, 1, 2]);
    assert_eq!(hand.rank_count(14), 2);
    assert_eq!(hand.rank_count(2), 2);
    assert_eq!(hand.rank_count(1), 0);
    assert_eq!(hand.rank_count(13), 1);
    assert_eq!(slot_count(&hand.rank_counts, 1), 0);
    assert_eq!(slot_count(&hand.rank_counts, 14), 2);
    assert_eq!(greatest_count(&hand.rank_counts), 2);
    assert_eq!(hand.best_group(0), 14);
    assert_eq!(hand.best_group(14), 2);
    assert_eq!(hand.best_group(2), 14);
    assert_eq!(array("Ac Kc").best_group(0), 0);
    assert_eq!(hand.to_string(), "A♣K♣2♦2♥A♠");
    assert_eq!(hand.cards_of_suit(3).cards, cards("Ac Kc"));
    assert_eq!(hand.cards_of_suit(1).cards, cards("As"));
    assert!(hand.has_straight_from(0) == false);
    assert!(array("Ac 2c 3d 4h 5s").has_straight_from(0));
    assert!(!array("Ac 2c 3d 4h 5s").has_straight_from(1));
    let copy = hand.copy();
    assert_eq!(copy.cards, hand.cards);
    assert_eq!(copy, hand);
    assert_eq!(hand.clone(), hand);
}

#[test]
fn card_arrays_are_equal_whatever_the_order() {
    assert_eq!(array("Ac Kc 2d"), array("2d Ac Kc"));
    assert!(array("Ac Kc 2d").same_counts(&array("Kc 2d Ac")));
    assert_ne!(array("Ac Kc 2d"), array("Ac Kc 2h"));
    assert_ne!(array("Ac Kc 2d"), array("Ac Kc 3d"));
}

#[test]
fn card_arrays_compare_groups_before_single_cards() {
    let pair = array("2c 2d 3h 4s 5c");
    let cards_only = array("Ac Kd Qh Js 9c");
    assert_eq!(pair.compare_with(&cards_only), 1);
    assert_eq!(cards_only.compare_with(&pair), -1);
    assert_eq!(pair.group_sign(&cards_only), 1);
    assert_eq!(cards_only.group_sign(&cards_only), 0);
    assert_eq!(pair.partial_compare_pairs(&cards_only), Some(Ordering::Greater));
    assert_eq!(cards_only.partial_compare_pairs(&pair), Some(Ordering::Less));
    assert_eq!(cards_only.partial_compare_pairs(&cards_only), None);
    assert_eq!(array("9c 9d 3h 3s 5c").compare_with(&array("8c 8d 7h 7s Ac")), 1);
    assert_eq!(array("9c 9d 3h 3s 5c").compare_with(&array("9h 9s 3c 3d 6c")), -1);
    assert_eq!(array("3c 3d 3h 2s 2c").compare_with(&array("Ac Ad Kh Ks Qc")), 1);
    assert_eq!(array("Ac Ad").compare_with(&array("Ah As")), 0);
    assert_eq!(array("Ac Ad").partial_cmp(&array("Ah As")), Some(Ordering::Equal));
    assert!(array("Kc Kd") < array("Ah As"));
    assert_eq!(CardArray::new().compare_with(&CardArray::new()), 0);
}

#[test]
fn a_fresh_deck_has_every_card_once() {
    let deck = Deck::new();
    let all = deck.to_vec();
    assert_eq!(all.len(), 52);
    assert_eq!(deck.len(), 52);
    assert_eq!(all[0], card("2s"));
    assert_eq!(all[1], card("2h"));
    assert_eq!(all[2], card("2d"));
    assert_eq!(all[3], card("2c"));
    assert_eq!(all[4], card("3s"));
    assert_eq!(all[51], card("Ac"));
    for (i, one) in all.iter().enumerate() {
        assert_eq!(one.rank as usize, 2 + i / 4);
        assert!(all.iter().filter(|other| *other == one).count() == 1);
    }
    assert_eq!(deck.iter().cloned().collect::<Vec<Card>>(), all);
}

#[test]
fn a_deck_is_drawn_from_its_end() {
    let mut deck = Deck::new_from_cards(cards("2c 3c 4c"));
    assert_eq!(deck.get(0), Some(card("2c")));
    assert_eq!(deck.get(3), None);
    assert_eq!(deck.draw(), Some(card("4c")));
    assert_eq!(deck.to_vec(), cards("2c 3c"));
    deck.reverse();
    assert_eq!(deck.to_vec(), cards("3c 2c"));
    assert_eq!(deck.draw(), Some(card("2c")));
    assert_eq!(deck.draw(), Some(card("3c")));
    assert_eq!(deck.draw(), None);
    assert_eq!(deck, Deck::new_empty());
    assert!(deck.same_as(&Deck::new_empty()));
    assert_eq!(deck.len(), 0);
}

#[test]
fn a_deck_loses_every_copy_of_a_removed_card() {
    let mut deck = Deck::new_from_cards(cards("2c 3c 2c 4c 2d"));
    deck.remove(&card("2c"));
    assert_eq!(deck.to_vec(), cards("3c 4c 2d"));
    deck.remove(&card("Ah"));
    assert_eq!(deck.to_vec(), cards("3c 4c 2d"));
    assert_eq!(deck.clone(), deck);
    assert!(!deck.same_as(&Deck::new_from_cards(cards("3c 2d 4c"))));
}

#[test]
fn shuffling_keeps_the_cards_and_changes_their_order() {
    let fresh = Deck::new();
    let mut deck = Deck::new();
    let mut rng = StdRng::seed_from_u64(0);
    deck.shuffle(&mut rng);
    assert_ne!(deck.to_vec(), fresh.to_vec());
    let mut sorted = deck.to_vec();
    sorted.sort_by_key(|one| (one.rank, 3 - Suit::to_vec().iter().position(|s| *s == one.suit).unwrap()));
    let mut expected = fresh.to_vec();
    expected.sort_by_key(|one| (one.rank, 3 - Suit::to_vec().iter().position(|s| *s == one.suit).unwrap()));
    assert_eq!(sorted, expected);
    let mut again = Deck::new();
    again.shuffle(&mut StdRng::seed_from_u64(0));
    assert_eq!(again, deck);
}
