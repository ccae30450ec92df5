use rustysolver::card::Card;
use rustysolver::error::ParseError;
use rustysolver::suit::Suit;

#[test]
fn test_same_suit_order() {
    let c1 = Card::new(2, Suit::Diamonds);
    let c2 = Card::new(3, Suit::Diamonds);
    assert!(c1 < c2);
}

#[test]
fn test_different_suit_order() {
    let c1 = Card::new(2, Suit::Diamonds);
    let c2 = Card::new(3, Suit::Clubs);
    assert!(c1 < c2);
}

#[test]
fn test_same_rank_order() {
    let c1 = Card::new(2, Suit::Spades);
    let c2 = Card::new(2, Suit::Hearts);
    assert!(c1 < c2);
}

#[test]
fn test_same_card() {
    let c1 = Card::new(2, Suit::Spades);
    let c2 = Card::new(2, Suit::Spades);
    assert_eq!(c1, c2);
}

#[test]
fn test_rank_from_char() {
    assert_eq!(Card::rank_from_char('A'), Ok(14));
    assert_eq!(Card::rank_from_char('K'), Ok(13));
    assert_eq!(Card::rank_from_char('Q'), Ok(12));
    assert_eq!(Card::rank_from_char('J'), Ok(11));
    assert_eq!(Card::rank_from_char('T'), Ok(10));
    assert_eq!(Card::rank_from_char('2'), Ok(2));
    assert_eq!(Card::rank_from_char('9'), Ok(9));
    assert_eq!(Card::rank_from_char('X'), Err(ParseError::InvalidRank('X')));
}

