use rustysolver::card::Card;
use rustysolver::error::ParseError;
use rustysolver::hole_cards::HoleCards;
use rustysolver::suit::Suit;

#[test]
fn hole_cards_test_new() {
    let card1 = Card::new(2, Suit::Diamonds);
    let card2 = Card::new(1, Suit::Diamonds);
    let hole_cards = HoleCards::new(&card1, &card2).unwrap();
    assert_eq!(hole_cards.card1, card1);
    assert_eq!(hole_cards.card2, card2);
}

#[test]
fn test_cmp_same_hole_cards() {
    let hole_cards1 = HoleCards::new_with_ranks(1, 2);
    let hole_cards2 = HoleCards::new_with_ranks(1, 2);
    assert_eq!(hole_cards1 < hole_cards2, false);
}

#[test]
fn test_cmp_same_hole_cards_different_order() {
    let hole_cards1 = HoleCards::new_with_ranks(1, 2);
    let hole_cards2 = HoleCards::new_with_ranks(2, 1);
    assert_eq!(hole_cards1, hole_cards2);
}

#[test]
fn test_cmp_different_hole_cards() {
    let hole_cards1 = HoleCards::new_with_ranks(1, 2);
    let hole_cards2 = HoleCards::new_with_ranks(2, 3);
    assert_eq!(hole_cards1 < hole_cards2, true);
}

#[test]
fn test_cmp_pocket_pairs() {
    let hole_cards1 = HoleCards::new_with_ranks(1, 1);
    let hole_cards2 = HoleCards::new_with_ranks(2, 2);
    assert_eq!(hole_cards1 < hole_cards2, true);
}

#[test]
fn test_ahad_from_string() {
    let hole_cards_str = "AhAd";
    let hole_cards = HoleCards::new_from_string(hole_cards_str).unwrap();
    assert_eq!(hole_cards.card1, Card::new(14, Suit::Hearts));
    assert_eq!(hole_cards.card2, Card::new(14, Suit::Diamonds));
}

#[test]
fn test_ahkh_from_string() {
    let hole_cards_str = "AhKh";
    let hole_cards = HoleCards::new_from_string(hole_cards_str).unwrap();
    assert_eq!(hole_cards.card1, Card::new(14, Suit::Hearts));
    assert_eq!(hole_cards.card2, Card::new(13, Suit::Hearts));
}

#[test]
fn test_aa_from_string() {
    let hole_cards_str = "AA";
    let hole_cards = HoleCards::new_from_string(hole_cards_str).unwrap();
    assert_eq!(hole_cards.card1, Card::new(14, Suit::Offsuit));
    assert_eq!(hole_cards.card2, Card::new(14, Suit::Offsuit));
}

#[test]
fn test_aks_from_string() {
    let hole_cards_str = "AKs";
    let hole_cards = HoleCards::new_from_string(hole_cards_str).unwrap();
    assert_eq!(hole_cards.card1, Card::new(14, Suit::Suited));
    assert_eq!(hole_cards.card2, Card::new(13, Suit::Suited));
}

#[test]
fn test_72o_from_string() {
    let hole_cards_str = "72o";
    let hole_cards = HoleCards::new_from_string(hole_cards_str).unwrap();
    assert_eq!(hole_cards.card1, Card::new(7, Suit::Offsuit));
    assert_eq!(hole_cards.card2, Card::new(2, Suit::Offsuit));
}

#[test]
fn test_AsKs_from_string() {
    let hole_cards_str = "AsKs";
    let hole_cards = HoleCards::new_from_string(hole_cards_str).unwrap();
    assert_eq!(hole_cards.card1, Card::new(14, Suit::Spades));
    assert_eq!(hole_cards.card2, Card::new(13, Suit::Spades));
}

#[test]
fn test_creating_invalid_hole_cards() {
    let card1 = Card::new(2, Suit::Offsuit);
    let card2 = Card::new(1, Suit::Hearts);
    assert_eq!(
        HoleCards::new(&card1, &card2),
        Err(ParseError::MismatchedSuitMarkers(card1, card2))
    );
}

#[test]
fn test_expand_offsuit() {
    let hole_cards = HoleCards::new(
        &Card::new(2, Suit::Offsuit),
        &Card::new(1, Suit::Offsuit),
    ).unwrap();
    let expanded_hole_cards = hole_cards.expand();
    assert_eq!(expanded_hole_cards.len(), 12);
    for cards in expanded_hole_cards {
        assert!(cards.card1.suit != cards.card2.suit);
        assert!(cards.card1.suit != Suit::Offsuit);
        assert!(cards.card2.suit != Suit::Offsuit);
        assert!(cards.card1.suit != Suit::Suited);
        assert!(cards.card2.suit != Suit::Suited);
    }
}

#[test]
fn test_expand_suited() {
    let hole_cards = HoleCards::new(
        &Card::new(2, Suit::Suited),
        &Card::new(1, Suit::Suited),
    ).unwrap();
    let expanded_hole_cards = hole_cards.expand();
    assert_eq!(expanded_hole_cards.len(), 4);
    for cards in expanded_hole_cards {
        assert_eq!(cards.card1.suit, cards.card2.suit);
        assert!(cards.card1.suit != Suit::Offsuit);
        assert!(cards.card2.suit != Suit::Offsuit);
        assert!(cards.card1.suit != Suit::Suited);
        assert!(cards.card2.suit != Suit::Suited);
    }
}

