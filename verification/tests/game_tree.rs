use rustysolver::game::Game;
use rustysolver::game_tree::GameTree;
use rustysolver::history::History;
use rustysolver::history_node::HistoryNode;
use rustysolver::action::Action;
use rustysolver::bet::Bet;
use rustysolver::hole_cards::HoleCards;
use rustysolver::info_state::InfoState;
use rustysolver::kuhn::Kuhn;
use rustysolver::player::Player;

#[test]
fn test_kuhn_build() {
    let kuhn = Kuhn::new();
    let mut kuhn_tree = GameTree::new(kuhn, 0.0);
    kuhn_tree.build();
    assert_eq!(kuhn_tree.len(), 12);
}

#[test]
fn rows_are_as_long_as_the_legal_actions() {
    let mut tree = GameTree::new(Kuhn::new(), 0i64);
    tree.build();
    for i in 0..tree.len() {
        let arity = tree.game().legal_actions(&tree.key(i).history).len();
        assert_eq!(tree.regrets(i).len(), arity);
        assert_eq!(tree.strategy_sum(i).len(), arity);
        assert_eq!(tree.arity(i), arity);
        assert_eq!(arity, 2);
        assert!(tree.regrets(i).iter().all(|x| *x == 0));
        assert!(tree.strategy_sum(i).iter().all(|x| *x == 0));
    }
}

#[test]
fn building_twice_gives_the_same_table() {
    let mut tree = GameTree::new(Kuhn::new(), 0u8);
    tree.build();
    let keys: Vec<InfoState> = (0..tree.len()).map(|i| tree.key(i).clone()).collect();
    let lengths: Vec<usize> = (0..tree.len()).map(|i| tree.arity(i)).collect();
    tree.set_regret(3, 1, 7);
    tree.build();
    let again: Vec<InfoState> = (0..tree.len()).map(|i| tree.key(i).clone()).collect();
    let lengths_again: Vec<usize> = (0..tree.len()).map(|i| tree.arity(i)).collect();
    assert_eq!(keys, again);
    assert_eq!(lengths, lengths_again);
    assert_eq!(tree.regrets(3)[1], 0);
}

#[test]
fn kuhn_table_lists_states_in_walk_order() {
    let mut tree = GameTree::new(Kuhn::new(), 0u8);
    tree.build();
    let rendered: Vec<String> = (0..tree.len()).map(|i| tree.key(i).to_string()).collect();
    assert_eq!(
        rendered,
        vec![
            "OOP2♦2♦",
            "IP3♦3♦X",
            "OOP2♦2♦XB50",
            "IP3♦3♦B50",
            "OOP3♦3♦",
            "IP2♦2♦X",
            "OOP3♦3♦XB50",
            "IP2♦2♦B50",
            "OOP1♦1♦",
            "OOP1♦1♦XB50",
            "IP1♦1♦X",
            "IP1♦1♦B50",
        ]
    );
}

#[test]
fn table_finds_states_by_value() {
    let mut tree = GameTree::new(Kuhn::new(), 0u8);
    tree.build();
    let after_check = History::new_from_vec(vec![HistoryNode::Action(Action::Check)]);
    let state = InfoState::new(Player::IP, HoleCards::new_with_ranks(2, 2), after_check);
    let index = tree.index_of(&state).unwrap();
    assert_eq!(*tree.key(index), state);
    let after_raise =
        History::new_from_vec(vec![HistoryNode::Action(Action::Raise(Bet::P(50)))]);
    let unknown = InfoState::new(Player::IP, HoleCards::new_with_ranks(2, 2), after_raise);
    assert_eq!(tree.index_of(&unknown), None);
    assert_eq!(tree.index_of(&InfoState::new_empty()), None);
}

#[test]
fn table_rows_take_numbers() {
    let mut tree = GameTree::new(Kuhn::new(), 0.0f64);
    tree.build();
    tree.set_regret(0, 1, 2.5);
    tree.set_strategy_sum(11, 0, -1.0);
    assert_eq!(*tree.regrets(0), vec![0.0, 2.5]);
    assert_eq!(*tree.strategy_sum(0), vec![0.0, 0.0]);
    assert_eq!(*tree.strategy_sum(11), vec![-1.0, 0.0]);
    assert_eq!(*tree.regrets(11), vec![0.0, 0.0]);
}

#[test]
fn reports_list_states_by_player_hand_and_history() {
    let mut tree = GameTree::new(Kuhn::new(), 0u8);
    tree.build();
    let rendered: Vec<String> =
        tree.report_order().iter().map(|place| tree.key(*place).to_string()).collect();
    assert_eq!(
        rendered,
        vec![
            "IP1♦1♦X",
            "IP1♦1♦B50",
            "IP2♦2♦X",
            "IP2♦2♦B50",
            "IP3♦3♦X",
            "IP3♦3♦B50",
            "OOP1♦1♦",
            "OOP1♦1♦XB50",
            "OOP2♦2♦",
            "OOP2♦2♦XB50",
            "OOP3♦3♦",
            "OOP3♦3♦XB50",
        ]
    );
    let empty: GameTree<Kuhn, u8> = GameTree::new(Kuhn::new(), 0);
    assert_eq!(empty.report_order(), Vec::<usize>::new());
}
