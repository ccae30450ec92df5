use rustysolver::action::Action;
use rustysolver::bet::Bet;
use rustysolver::board::Board;
use rustysolver::deal::Deal;
use rustysolver::deck::Deck;
use rustysolver::game::Game;
use rustysolver::history::History;
use rustysolver::history_node::HistoryNode;
use rustysolver::hole_cards::HoleCards;
use rustysolver::kuhn::Kuhn;
use rustysolver::leduc::Leduc;
use rustysolver::node::Node;
use rustysolver::player::Player;
use rustysolver::player_cards::PlayerCards;
use rustysolver::street::Street;
use rustysolver::weight::Weight;

#[test]
fn an_action_hands_the_turn_to_the_other_player() {
    let deal = Deal::new(
        PlayerCards::new(HoleCards::new_with_rank(1), HoleCards::new_with_rank(2)),
        Deck::new_empty(),
        (Weight::one(), Weight::one()),
        History::new(),
    );
    let node = Node::new(&Kuhn::new(), deal);
    let next_node = node.next_action_node(&Kuhn::new(), Action::Bet(Bet::P(50)));
    assert_eq!(next_node.player, Player::IP);
    assert_eq!(next_node.actions, Kuhn::new().legal_actions(&History::new_from_vec(vec![HistoryNode::Action(Action::Bet(Bet::P(50)))])));
}

#[test]
fn node_test_player_cards() {
    let ip_cards = HoleCards::new_with_rank(1);
    let oop_cards = HoleCards::new_with_rank(2);
    let deal = Deal::new(
        PlayerCards::new(ip_cards.clone(), oop_cards.clone()),
        Deck::new_empty(),
        (Weight::one(), Weight::one()),
        History::new(),
    );
    let node = Node::new(&Kuhn::new(), deal);
    assert_eq!(node.player_cards(), oop_cards);
    assert_eq!(node.opponent_cards(), ip_cards);

    let next_node = node.next_action_node(&Kuhn::new(), Action::Check);
    assert_eq!(next_node.player_cards(), ip_cards);
    assert_eq!(next_node.opponent_cards(), oop_cards);
}

#[test]
fn test_next_street_node() {
    let deal = Deal::new(
        PlayerCards::new(HoleCards::new_with_rank(1), HoleCards::new_with_rank(2)),
        Deck::new_empty(),
        (Weight::one(), Weight::one()),
        History::new(),
    );
    let node = Node::new(&Leduc::new(), deal);
    let next_node = node.next_street_node(&Leduc::new(), Street::Flop(Board::new()));
    assert_eq!(next_node.history.street().is_flop(), true);
    assert_eq!(next_node.player, Player::OOP);
    assert_eq!(next_node.actions, Leduc::new().legal_actions(
        &History::new_from_vec(vec![HistoryNode::Street(Street::Flop(Board::new()))])));
}

#[test]
fn test_fold_is_terminal_in_2_street_game() {
    let deal = Deal::new(
        PlayerCards::new(HoleCards::new_with_rank(1), HoleCards::new_with_rank(2)),
        Deck::new_empty(),
        (Weight::one(), Weight::one()),
        History::new(),
    );
    let node = Node::new(&Leduc::new(), deal);
    let next_node = node.next_action_node(&Leduc::new(), Action::Fold);
    assert_eq!(next_node.is_terminal(&Leduc::new()), true);
}


#[test]
fn a_showdown_needs_cards_of_real_suits() {
    let kuhn = Kuhn::new();
    let deals = kuhn.generate_deals();
    assert_eq!(deals.len(), 6);
    for deal in deals {
        let node = Node::new(&kuhn, deal);
        assert!(node.is_showdown_ready());
        assert!(node.next_action_node(&kuhn, Action::Check).is_showdown_ready());
    }
    let deal = Deal::new(
        PlayerCards::new(HoleCards::new_with_rank(1), HoleCards::new_with_rank(2)),
        Deck::new_empty(),
        (Weight::one(), Weight::one()),
        History::new(),
    );
    assert!(!Node::new(&kuhn, deal).is_showdown_ready());
}
