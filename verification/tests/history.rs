use rustysolver::action::Action;
use rustysolver::bet::Bet;
use rustysolver::board::Board;
use rustysolver::history::History;
use rustysolver::history_node::HistoryNode;
use rustysolver::street::Street;

#[test]
fn history_test_new() {
    let history = History::new();
    assert_eq!(history.to_vec(), Vec::<HistoryNode>::new());
    assert_eq!(*history.street(), Street::Preflop);
}

#[test]
fn test_new_from_vec() {
    let history = History::new_from_vec(vec![HistoryNode::Action(Action::Check)]);
    assert_eq!(history.to_vec(), vec![HistoryNode::Action(Action::Check)]);
    assert_eq!(*history.street(), Street::Preflop);
}

#[test]
fn test_is_empty_terminal() {
    let history = History::new();
    assert_eq!(history.is_terminal(), false);
}

#[test]
fn test_is_single_action_terminal() {
    let mut history = History::new();
    history.push_action(Action::Check);
    assert_eq!(history.is_terminal(), false);
}

#[test]
fn test_is_xx_terminal() {
    let mut history = History::new();
    history.push_action(Action::Check);
    history.push_action(Action::Check);
    assert_eq!(history.is_terminal(), true);
}

#[test]
fn test_is_fold_terminal() {
    let mut history = History::new();
    history.push_action(Action::Fold);
    history.push_action(Action::Fold);
    assert_eq!(history.is_terminal(), true);
}

#[test]
fn test_is_call_terminal() {
    let mut history = History::new();
    history.push_action(Action::Fold);
    history.push_action(Action::Call);
    assert_eq!(history.is_terminal(), true);
}

#[test]
fn test_is_bet_terminal() {
    let mut history = History::new();
    history.push_action(Action::Fold);
    history.push_action(Action::Bet(Bet::P(50)));
    assert_eq!(history.is_terminal(), false);
}

#[test]
fn test_is_check_terminal() {
    let mut history = History::new();
    history.push_action(Action::Fold);
    history.push_action(Action::Check);
    assert_eq!(history.is_terminal(), false);
}

#[test]
fn test_is_raise_terminal() {
    let mut history = History::new();
    history.push_action(Action::Fold);
    history.push_action(Action::Raise(Bet::P(50)));
    assert_eq!(history.is_terminal(), false);
}

#[test]
fn test_new_preflop_from_vec() {
    let history = History::new_from_vec(vec![HistoryNode::Action(Action::Check)]);
    assert_eq!(history.to_vec(), vec![HistoryNode::Action(Action::Check)]);
    assert_eq!(*history.street(), Street::Preflop);
}

#[test]
fn test_new_flop_from_vec() {
    let history = History::new_from_vec(vec![
        HistoryNode::Action(Action::Check),
        HistoryNode::Street(Street::Flop(Board::new()))]
    );
    assert_eq!(history.street().is_flop(), true);
}

#[test]
fn test_new_turn_from_vec() {
    let history = History::new_from_vec(vec![
        HistoryNode::Action(Action::Check),
        HistoryNode::Street(Street::Flop(Board::new())),
        HistoryNode::Street(Street::Turn(Board::new()))]
    );
    assert_eq!(history.street().is_turn(), true);
}

#[test]
fn test_new_river_from_vec() {
    let history = History::new_from_vec(vec![
        HistoryNode::Action(Action::Check),
        HistoryNode::Street(Street::Flop(Board::new())),
        HistoryNode::Street(Street::Turn(Board::new())),
        HistoryNode::Street(Street::River(Board::new()))]
    );
    assert_eq!(history.street().is_river(), true);
}

