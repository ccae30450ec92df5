use rustysolver::card::Card;
use rustysolver::hole_cards::HoleCards;
use rustysolver::suit::Suit;
use rustysolver::player::Player;
use rustysolver::player_cards::PlayerCards;

#[test]
fn player_cards_test_player_cards() {
    let placeholder = Card { rank: 0, suit: Suit::Offsuit };
    let ip = HoleCards { card1: placeholder, card2: placeholder };
    let oop = HoleCards::new_with_rank(1);
    let player_cards = PlayerCards::new(ip.clone(), oop.clone());
    assert_eq!(player_cards.get(Player::IP), ip);
    assert_eq!(player_cards.get(Player::OOP), oop);
}

