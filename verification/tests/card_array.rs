use rustysolver::card::Card;
use rustysolver::card_array::CardArray;
use rustysolver::suit::Suit;

#[test]
fn test_card_array() {
    let card_array = CardArray::new();
    assert_eq!(card_array.rank_counts, [0; 14]);
    assert_eq!(card_array.suit_counts, [0; 4]);
}

#[test]
fn test_add_ace_of_spades() {
    let mut card_array = CardArray::new();
    card_array.add_card(&Card::new(14, Suit::Spades));
    assert_eq!(card_array.rank_counts[13], 1);
    assert_eq!(card_array.rank_counts[0], 1);
}

#[test]
fn test_add_2_hearths() {
    let mut card_array = CardArray::new();
    card_array.add_card(&Card::new(2, Suit::Hearts));
    card_array.add_card(&Card::new(2, Suit::Hearts));
    assert_eq!(card_array.rank_counts[1], 2);
    assert_eq!(card_array.suit_counts[Suit::Hearts.to_usize()], 2);
}

#[test]
fn test_is_flush() {
    let mut card_array = CardArray::new();
    card_array.add_card(&Card::new(2, Suit::Hearts));
    card_array.add_card(&Card::new(3, Suit::Hearts));
    card_array.add_card(&Card::new(4, Suit::Hearts));
    card_array.add_card(&Card::new(5, Suit::Hearts));
    card_array.add_card(&Card::new(6, Suit::Hearts));
    assert_eq!(card_array.get_flush().is_flush(), true);
}

#[test]
fn test_is_not_flush() {
    let mut card_array = CardArray::new();
    card_array.add_card(&Card::new(2, Suit::Hearts));
    card_array.add_card(&Card::new(3, Suit::Hearts));
    card_array.add_card(&Card::new(4, Suit::Hearts));
    card_array.add_card(&Card::new(5, Suit::Hearts));
    card_array.add_card(&Card::new(6, Suit::Spades));
    assert_eq!(card_array.get_flush().is_flush(), false);
}

#[test]
fn test_wheel_straight() {
    let mut card_array = CardArray::new();
    card_array.add_card(&Card::new(2, Suit::Hearts));
    card_array.add_card(&Card::new(3, Suit::Hearts));
    card_array.add_card(&Card::new(4, Suit::Hearts));
    card_array.add_card(&Card::new(5, Suit::Hearts));
    card_array.add_card(&Card::new(14, Suit::Spades));
    assert_eq!(card_array.get_straight().is_straight(), true);
}

#[test]
fn test_straight_card_array() {
    let mut card_array = CardArray::new();
    card_array.add_card(&Card::new(3, Suit::Hearts));
    card_array.add_card(&Card::new(2, Suit::Hearts));
    card_array.add_card(&Card::new(3, Suit::Hearts));
    card_array.add_card(&Card::new(4, Suit::Hearts));
    card_array.add_card(&Card::new(5, Suit::Hearts));
    card_array.add_card(&Card::new(5, Suit::Hearts));
    card_array.add_card(&Card::new(6, Suit::Spades));

    let straight = card_array.get_straight();
    let expected = vec![
        Card::new(2, Suit::Hearts),
        Card::new(3, Suit::Hearts),
        Card::new(4, Suit::Hearts),
        Card::new(5, Suit::Hearts),
        Card::new(6, Suit::Spades),
    ];

    assert_eq!(straight.get_card_array().cards, expected,
        "Expected: {} Got: {}", CardArray::from_vec(&expected).to_string(), straight.get_card_array().to_string());
}

#[test]
fn test_finding_best_straight() {
    let mut card_array = CardArray::new();
    card_array.add_card(&Card::new(2, Suit::Hearts));
    card_array.add_card(&Card::new(3, Suit::Hearts));
    card_array.add_card(&Card::new(4, Suit::Hearts));
    card_array.add_card(&Card::new(5, Suit::Hearts));
    card_array.add_card(&Card::new(6, Suit::Spades));
    card_array.add_card(&Card::new(7, Suit::Spades));

    let straight = card_array.get_straight();
    let expected = vec![
        Card::new(3, Suit::Hearts),
        Card::new(4, Suit::Hearts),
        Card::new(5, Suit::Hearts),
        Card::new(6, Suit::Spades),
        Card::new(7, Suit::Spades),
    ];

    assert_eq!(straight.get_card_array().cards, expected,
        "Expected: {} Got: {}", CardArray::from_vec(&expected).to_string(), straight.get_card_array().to_string());
}

#[test]
fn test_not_straight() {
    let mut card_array = CardArray::new();
    card_array.add_card(&Card::new(2, Suit::Hearts));
    card_array.add_card(&Card::new(3, Suit::Hearts));
    card_array.add_card(&Card::new(4, Suit::Hearts));
    card_array.add_card(&Card::new(5, Suit::Hearts));
    card_array.add_card(&Card::new(7, Suit::Spades));
    assert_eq!(card_array.get_straight().is_straight(), false);
}

#[test]
fn test_straight_flush() {
    let mut card_array = CardArray::new();
    card_array.add_card(&Card::new(2, Suit::Hearts));
    card_array.add_card(&Card::new(3, Suit::Hearts));
    card_array.add_card(&Card::new(4, Suit::Hearts));
    card_array.add_card(&Card::new(5, Suit::Hearts));
    card_array.add_card(&Card::new(6, Suit::Hearts));
    assert_eq!(card_array.get_straight_flush().is_straight_flush(), true);
}

#[test]
fn test_not_straight_flush() {
    let mut card_array = CardArray::new();
    card_array.add_card(&Card::new(2, Suit::Hearts));
    card_array.add_card(&Card::new(3, Suit::Hearts));
    card_array.add_card(&Card::new(4, Suit::Hearts));
    card_array.add_card(&Card::new(5, Suit::Hearts));
    card_array.add_card(&Card::new(7, Suit::Hearts));
    assert_eq!(card_array.get_straight_flush().is_straight_flush(), false);
}

#[test]
fn test_pair_detection() {
    let mut card_array = CardArray::new();
    card_array.add_card(&Card::new(2, Suit::Hearts));
    card_array.add_card(&Card::new(2, Suit::Spades));
    card_array.add_card(&Card::new(3, Suit::Hearts));
    card_array.add_card(&Card::new(4, Suit::Hearts));
    card_array.add_card(&Card::new(5, Suit::Hearts));
    assert_eq!(card_array.get_pair_type().is_one_pair(), true);
}

#[test]
fn test_two_pair_detection() {
    let mut card_array = CardArray::new();
    card_array.add_card(&Card::new(2, Suit::Hearts));
    card_array.add_card(&Card::new(2, Suit::Spades));
    card_array.add_card(&Card::new(3, Suit::Hearts));
    card_array.add_card(&Card::new(3, Suit::Spades));
    card_array.add_card(&Card::new(5, Suit::Hearts));
    assert_eq!(card_array.get_pair_type().is_two_pair(), true);
}

#[test]
fn test_trips_detection() {
    let mut card_array = CardArray::new();
    card_array.add_card(&Card::new(2, Suit::Hearts));
    card_array.add_card(&Card::new(2, Suit::Spades));
    card_array.add_card(&Card::new(2, Suit::Clubs));
    card_array.add_card(&Card::new(3, Suit::Hearts));
    card_array.add_card(&Card::new(5, Suit::Hearts));
    assert_eq!(card_array.get_pair_type().is_three_of_a_kind(), true);
}

#[test]
fn test_full_house_detection() {
    let mut card_array = CardArray::new();
    card_array.add_card(&Card::new(2, Suit::Hearts));
    card_array.add_card(&Card::new(2, Suit::Spades));
    card_array.add_card(&Card::new(2, Suit::Clubs));
    card_array.add_card(&Card::new(3, Suit::Hearts));
    card_array.add_card(&Card::new(3, Suit::Spades));
    assert_eq!(card_array.get_pair_type().is_full_house(), true);
}

#[test]
fn test_four_of_a_kind_detection() {
    let mut card_array = CardArray::new();
    card_array.add_card(&Card::new(2, Suit::Hearts));
    card_array.add_card(&Card::new(2, Suit::Spades));
    card_array.add_card(&Card::new(2, Suit::Clubs));
    card_array.add_card(&Card::new(2, Suit::Diamonds));
    card_array.add_card(&Card::new(3, Suit::Hearts));
    assert_eq!(card_array.get_pair_type().is_four_of_a_kind(), true);
}

#[test]
fn test_four_of_a_kind_detection_from_quad_trip_board() {
    let mut card_array = CardArray::new();
    card_array.add_card(&Card::new(2, Suit::Hearts));
    card_array.add_card(&Card::new(2, Suit::Spades));
    card_array.add_card(&Card::new(2, Suit::Clubs));
    card_array.add_card(&Card::new(3, Suit::Diamonds));
    card_array.add_card(&Card::new(3, Suit::Hearts));
    card_array.add_card(&Card::new(3, Suit::Hearts));
    card_array.add_card(&Card::new(3, Suit::Hearts));
    assert_eq!(card_array.get_pair_type().is_four_of_a_kind(), true);
}

#[test]
fn test_four_of_a_kind_detection_from_quad_trip_board_reversed() {
    let mut card_array = CardArray::new();
    card_array.add_card(&Card::new(3, Suit::Hearts));
    card_array.add_card(&Card::new(3, Suit::Hearts));
    card_array.add_card(&Card::new(3, Suit::Hearts));
    card_array.add_card(&Card::new(3, Suit::Diamonds));
    card_array.add_card(&Card::new(2, Suit::Hearts));
    card_array.add_card(&Card::new(2, Suit::Spades));
    card_array.add_card(&Card::new(2, Suit::Clubs));
    assert_eq!(card_array.get_pair_type().is_four_of_a_kind(), true);
}

