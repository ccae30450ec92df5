use rustysolver::action::Action;
use rustysolver::bet::Bet;
use rustysolver::board::Board;
use rustysolver::card::Card;
use rustysolver::history::History;
use rustysolver::history_node::HistoryNode;
use rustysolver::hole_cards::HoleCards;
use rustysolver::info_state::InfoState;
use rustysolver::player::Player;
use rustysolver::report::{
    compare_actions, compare_bets, compare_cards, compare_hands, compare_histories,
    compare_nodes, compare_numbers, compare_runs, compare_states, compare_streets, lengths_of,
    rank_of_action, rank_of_street, rendered_length, report_order,
};
use rustysolver::street::Street;
use rustysolver::suit::Suit;

fn diamonds(ranks: &[u8]) -> Vec<Card> {
    ranks.iter().map(|rank| Card::new(*rank, Suit::Diamonds)).collect()
}

fn history(actions: &[Action]) -> History {
    History::new_from_vec(actions.iter().map(|action| HistoryNode::Action(*action)).collect())
}

#[test]
fn numbers_and_bets_compare() {
    assert_eq!(compare_numbers(1, 2), -1);
    assert_eq!(compare_numbers(2, 2), 0);
    assert_eq!(compare_numbers(3, 2), 1);
    assert_eq!(compare_bets(Bet::C(9), Bet::P(1)), -1);
    assert_eq!(compare_bets(Bet::P(1), Bet::C(9)), 1);
    assert_eq!(compare_bets(Bet::C(2), Bet::C(4)), -1);
    assert_eq!(compare_bets(Bet::P(50), Bet::P(25)), 1);
    assert_eq!(compare_bets(Bet::P(50), Bet::P(50)), 0);
}

#[test]
fn actions_compare_by_kind_then_size() {
    let kinds = [
        Action::Fold,
        Action::Check,
        Action::Call,
        Action::Bet(Bet::P(1)),
        Action::Raise(Bet::C(1)),
        Action::Absent,
    ];
    for (i, a) in kinds.iter().enumerate() {
        assert_eq!(rank_of_action(*a), i);
        for (j, b) in kinds.iter().enumerate() {
            assert_eq!(compare_actions(*a, *b), compare_numbers(i, j));
            assert_eq!(compare_actions(*a, *b) < 0, a < b);
        }
    }
    assert_eq!(compare_actions(Action::Bet(Bet::C(2)), Action::Bet(Bet::C(4))), -1);
    assert_eq!(compare_actions(Action::Raise(Bet::P(2)), Action::Raise(Bet::C(4))), 1);
}

#[test]
fn cards_and_runs_compare() {
    let low = Card::new(2, Suit::Hearts);
    let high = Card::new(2, Suit::Spades);
    assert_eq!(compare_cards(&high, &low), -1);
    assert_eq!(compare_cards(&low, &high), 1);
    assert_eq!(compare_cards(&low, &low), 0);
    assert_eq!(compare_runs(&diamonds(&[1, 2]), &diamonds(&[1, 2, 3])), -1);
    assert_eq!(compare_runs(&diamonds(&[1, 3]), &diamonds(&[1, 2, 3])), 1);
    assert_eq!(compare_runs(&diamonds(&[1, 2]), &diamonds(&[1, 2])), 0);
    assert_eq!(compare_runs(&diamonds(&[]), &diamonds(&[])), 0);
    assert_eq!(
        compare_hands(&HoleCards::new_with_ranks(3, 2), &HoleCards::new_with_ranks(3, 1)),
        1
    );
    assert_eq!(
        compare_hands(&HoleCards::new_with_ranks(2, 2), &HoleCards::new_with_ranks(3, 1)),
        -1
    );
}

#[test]
fn streets_and_entries_compare() {
    let flop = Street::Flop(Board::from_vec(diamonds(&[3])));
    let other = Street::Flop(Board::from_vec(diamonds(&[2])));
    let streets = [Street::Preflop, flop.clone(), Street::Turn(Board::new()), Street::River(Board::new()), Street::Absent];
    for (i, a) in streets.iter().enumerate() {
        assert_eq!(rank_of_street(a), i);
        for (j, b) in streets.iter().enumerate() {
            assert_eq!(compare_streets(a, b), compare_numbers(i, j));
        }
    }
    assert_eq!(compare_streets(&flop, &other), 1);
    assert_eq!(compare_streets(&other, &flop), -1);
    let action = HistoryNode::Action(Action::Absent);
    let street = HistoryNode::Street(Street::Preflop);
    assert_eq!(compare_nodes(&action, &street), -1);
    assert_eq!(compare_nodes(&street, &action), 1);
    assert_eq!(compare_nodes(&street, &street), 0);
    assert_eq!(compare_nodes(&HistoryNode::Action(Action::Fold), &action), -1);
    assert_eq!(compare_nodes(&HistoryNode::Street(flop), &HistoryNode::Street(other)), 1);
}

#[test]
fn histories_compare_entry_by_entry() {
    let bet = Action::Bet(Bet::P(50));
    assert_eq!(compare_histories(&history(&[]), &history(&[])), 0);
    assert_eq!(compare_histories(&history(&[]), &history(&[Action::Fold])), -1);
    assert_eq!(compare_histories(&history(&[Action::Check, bet]), &history(&[Action::Check])), 1);
    assert_eq!(compare_histories(&history(&[Action::Check, bet]), &history(&[bet])), -1);
    assert_eq!(compare_histories(&history(&[bet, Action::Call]), &history(&[bet, Action::Fold])), 1);
}

#[test]
fn states_compare_by_player_hand_length_and_history() {
    let bet = Action::Bet(Bet::P(50));
    let state = |player, rank, actions: &[Action]| {
        InfoState::new(player, HoleCards::new_with_ranks(rank, rank), history(actions))
    };
    let order = |a: &InfoState, b: &InfoState| {
        compare_states(a, rendered_length(a), b, rendered_length(b))
    };
    assert_eq!(rendered_length(&state(Player::IP, 1, &[Action::Check, bet])), 4);
    assert_eq!(rendered_length(&state(Player::IP, 1, &[])), 0);
    assert_eq!(order(&state(Player::IP, 3, &[bet]), &state(Player::OOP, 1, &[])), -1);
    assert_eq!(order(&state(Player::OOP, 1, &[]), &state(Player::IP, 3, &[bet])), 1);
    assert_eq!(order(&state(Player::IP, 2, &[bet]), &state(Player::IP, 3, &[])), -1);
    assert_eq!(order(&state(Player::IP, 2, &[bet]), &state(Player::IP, 2, &[Action::Check])), 1);
    assert_eq!(
        order(
            &state(Player::IP, 2, &[Action::Check, Action::Check, Action::Check]),
            &state(Player::IP, 2, &[bet])
        ),
        -1
    );
    assert_eq!(order(&state(Player::IP, 2, &[bet]), &state(Player::IP, 2, &[bet])), 0);
    let states = vec![
        state(Player::OOP, 2, &[Action::Check, bet]),
        state(Player::IP, 3, &[Action::Check]),
        state(Player::OOP, 2, &[]),
        state(Player::IP, 1, &[bet]),
        state(Player::IP, 1, &[Action::Check]),
        state(Player::IP, 3, &[Action::Check]),
    ];
    assert_eq!(lengths_of(&states), vec![4, 1, 0, 3, 1, 1]);
    assert_eq!(report_order(&states), vec![4, 3, 1, 5, 2, 0]);
    assert_eq!(report_order(&Vec::new()), Vec::<usize>::new());
}
