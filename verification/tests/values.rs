use rustysolver::action::Action;
use rustysolver::action_list::ActionList;
use rustysolver::bet::Bet;
use rustysolver::board::Board;
use rustysolver::card::Card;
use rustysolver::error::ParseError;
use rustysolver::history::History;
use rustysolver::history_node::HistoryNode;
use rustysolver::hole_cards::HoleCards;
use rustysolver::info_state::InfoState;
use rustysolver::player::Player;
use rustysolver::player_cards::PlayerCards;
use rustysolver::pot::{payoff_stake, street_sign, Sign, Stake};
use rustysolver::street::Street;
use rustysolver::suit::Suit;
use rustysolver::text::{decimal_string, find_from};

#[test]
fn suits_are_listed_spades_first() {
    assert_eq!(Suit::to_vec(), vec![Suit::Spades, Suit::Hearts, Suit::Diamonds, Suit::Clubs]);
}

#[test]
fn suits_render_as_symbols() {
    assert_eq!(Suit::Hearts.to_string(), "♥");
    assert_eq!(Suit::Spades.to_string(), "♠");
    assert_eq!(Suit::Diamonds.to_string(), "♦");
    assert_eq!(Suit::Clubs.to_string(), "♣");
    assert_eq!(Suit::Suited.to_string(), "u");
    assert_eq!(Suit::Offsuit.to_string(), "o");
}

#[test]
fn suits_are_read_from_symbols_and_letters() {
    for (text, suit) in [
        ("♥", Suit::Hearts),
        ("♠", Suit::Spades),
        ("♦", Suit::Diamonds),
        ("♣", Suit::Clubs),
        ("s", Suit::Spades),
        ("h", Suit::Hearts),
        ("d", Suit::Diamonds),
        ("c", Suit::Clubs),
        ("u", Suit::Suited),
        ("o", Suit::Offsuit),
    ] {
        assert_eq!(Suit::from_str(text), Ok(suit));
    }
    for text in ["", "x", "hh", "H", "♥♥"] {
        assert_eq!(Suit::from_str(text), Err(ParseError::InvalidSuit(text.to_string())));
    }
}

#[test]
fn suits_are_read_from_letters() {
    assert_eq!(Suit::from_char('s'), Ok(Suit::Spades));
    assert_eq!(Suit::from_char('h'), Ok(Suit::Hearts));
    assert_eq!(Suit::from_char('d'), Ok(Suit::Diamonds));
    assert_eq!(Suit::from_char('c'), Ok(Suit::Clubs));
    assert_eq!(Suit::from_char('u'), Err(ParseError::InvalidSuitChar('u')));
    assert_eq!(Suit::from_char('♥'), Err(ParseError::InvalidSuitChar('♥')));
}

#[test]
fn suits_have_indices_and_numbers() {
    assert_eq!(Suit::Hearts.to_usize(), 0);
    assert_eq!(Suit::Spades.to_usize(), 1);
    assert_eq!(Suit::Diamonds.to_usize(), 2);
    assert_eq!(Suit::Clubs.to_usize(), 3);
    assert_eq!(Suit::Suited.to_usize(), 4);
    assert_eq!(Suit::Offsuit.to_usize(), 5);
    assert_eq!(Suit::from_u8(0), Ok(Suit::Spades));
    assert_eq!(Suit::from_u8(1), Ok(Suit::Hearts));
    assert_eq!(Suit::from_u8(2), Ok(Suit::Diamonds));
    assert_eq!(Suit::from_u8(3), Ok(Suit::Clubs));
    assert_eq!(Suit::from_u8(4), Ok(Suit::Suited));
    assert_eq!(Suit::from_u8(5), Ok(Suit::Offsuit));
    assert_eq!(Suit::from_u8(6), Err(ParseError::InvalidSuitIndex(6)));
    assert_eq!(Suit::from_u8(255), Err(ParseError::InvalidSuitIndex(255)));
}

#[test]
fn numbers_render_in_decimal() {
    assert_eq!(decimal_string(0), "0");
    assert_eq!(decimal_string(7), "7");
    assert_eq!(decimal_string(10), "10");
    assert_eq!(decimal_string(125), "125");
    assert_eq!(decimal_string(4294967295), "4294967295");
}

#[test]
fn characters_are_found_from_a_start() {
    assert_eq!(find_from("AA;KK;QQ", 0, ';'), 2);
    assert_eq!(find_from("AA;KK;QQ", 3, ';'), 5);
    assert_eq!(find_from("AA;KK;QQ", 6, ';'), 8);
    assert_eq!(find_from("AA;KK;QQ", 8, ';'), 8);
    assert_eq!(find_from("♥♥;", 0, ';'), 2);
    assert_eq!(find_from("", 0, ';'), 0);
}

#[test]
fn cards_render_rank_then_suit() {
    assert_eq!(Card::new(14, Suit::Hearts).to_string(), "A♥");
    assert_eq!(Card::new(13, Suit::Spades).to_string(), "K♠");
    assert_eq!(Card::new(12, Suit::Diamonds).to_string(), "Q♦");
    assert_eq!(Card::new(11, Suit::Clubs).to_string(), "J♣");
    assert_eq!(Card::new(10, Suit::Clubs).to_string(), "T♣");
    assert_eq!(Card::new(9, Suit::Suited).to_string(), "9u");
    assert_eq!(Card::new(1, Suit::Offsuit).to_string(), "1o");
    assert_eq!(Card { rank: 0, suit: Suit::Diamonds }.to_string(), "0♦");
    assert_eq!(Card::new_with_rank(3), Card::new(3, Suit::Diamonds));
}

#[test]
fn cards_order_by_rank_then_suit() {
    let low = Card::new(2, Suit::Hearts);
    let high = Card::new(3, Suit::Offsuit);
    assert!(low < high);
    assert!(low.is_below(&high));
    assert!(!high.is_below(&low));
    assert!(Card::new(5, Suit::Clubs) < Card::new(5, Suit::Diamonds));
    assert!(Card::new(5, Suit::Diamonds) < Card::new(5, Suit::Spades));
    assert!(Card::new(5, Suit::Spades) < Card::new(5, Suit::Hearts));
    assert!(Card::new(5, Suit::Offsuit) < Card::new(5, Suit::Suited));
    assert!(!(Card::new(5, Suit::Hearts) < Card::new(5, Suit::Hearts)));
    assert!(Card::new(5, Suit::Hearts) >= Card::new(5, Suit::Hearts));
}

#[test]
fn bets_and_actions_render_as_in_keys() {
    assert_eq!(Bet::C(2).to_string(), "2c");
    assert_eq!(Bet::P(50).to_string(), "50");
    assert_eq!(Bet::P(125).to_string(), "125");
    assert_eq!(Action::Fold.to_string(), "F");
    assert_eq!(Action::Call.to_string(), "C");
    assert_eq!(Action::Check.to_string(), "X");
    assert_eq!(Action::Absent.to_string(), "-");
    assert_eq!(Action::Bet(Bet::P(50)).to_string(), "B50");
    assert_eq!(Action::Bet(Bet::C(4)).to_string(), "B4c");
    assert_eq!(Action::Raise(Bet::C(2)).to_string(), "R2c");
    assert_eq!(Action::Raise(Bet::P(0)).to_string(), "R0");
}

#[test]
fn bets_and_actions_are_ordered() {
    assert!(Bet::C(9) < Bet::P(1));
    assert!(Bet::P(25) < Bet::P(50));
    assert!(Action::Fold < Action::Check);
    assert!(Action::Check < Action::Call);
    assert!(Action::Call < Action::Bet(Bet::C(0)));
    assert!(Action::Bet(Bet::P(200)) < Action::Raise(Bet::C(0)));
    assert!(Action::Raise(Bet::P(1)) < Action::Absent);
}

#[test]
fn players_face_each_other() {
    assert_eq!(Player::IP.as_usize(), 0);
    assert_eq!(Player::OOP.as_usize(), 1);
    assert_eq!(Player::IP.opponent(), Player::OOP);
    assert_eq!(Player::OOP.opponent(), Player::IP);
    assert_eq!(Player::IP.to_string(), "IP");
    assert_eq!(Player::OOP.to_string(), "OOP");
}

#[test]
fn action_list_keeps_actions_in_order() {
    let mut list = ActionList::new();
    assert_eq!(list.len(), 0);
    assert_eq!(list.last(), None);
    assert_eq!(list.get(0), None);
    list.push(Action::Check);
    list.push(Action::Bet(Bet::P(50)));
    list.push(Action::Call);
    assert_eq!(list.len(), 3);
    assert_eq!(list.last(), Some(&Action::Call));
    assert_eq!(list.get(1), Some(&Action::Bet(Bet::P(50))));
    assert_eq!(list.get(3), None);
    assert_eq!(list.to_vec(), vec![Action::Check, Action::Bet(Bet::P(50)), Action::Call]);
    assert_eq!(list.iter().cloned().collect::<Vec<Action>>(), list.to_vec());
    assert_eq!(list.to_string(), "XB50C");
    assert_eq!(list.clone(), list);
}

#[test]
fn board_collects_cards() {
    let mut board = Board::new();
    assert_eq!(board.to_vec(), vec![]);
    assert_eq!(board.to_string(), "");
    board.push(Card::new(14, Suit::Diamonds));
    board.push(Card::new(11, Suit::Clubs));
    board.push(Card::new(2, Suit::Hearts));
    assert_eq!(board.to_string(), "A♦J♣2♥");
    assert_eq!(board.to_vec(), board.cards);
    assert_eq!(Board::from_vec(board.to_vec()), board);
    assert!(board.same_as(&board.clone()));
    assert!(!board.same_as(&Board::new()));
    assert!(!board.same_as(&Board::from_vec(vec![
        Card::new(14, Suit::Diamonds),
        Card::new(11, Suit::Clubs),
        Card::new(2, Suit::Spades),
    ])));
}

#[test]
fn streets_follow_one_another() {
    let ace = Card::new(14, Suit::Diamonds);
    let jack = Card::new(11, Suit::Clubs);
    let two = Card::new(2, Suit::Hearts);
    let flop = Street::Preflop.next_street(ace);
    assert_eq!(flop, Street::Flop(Board::from_vec(vec![ace])));
    let turn = flop.next_street(jack);
    assert_eq!(turn, Street::Turn(Board::from_vec(vec![ace, jack])));
    let river = turn.next_street(two);
    assert_eq!(river, Street::River(Board::from_vec(vec![ace, jack, two])));
    assert_eq!(river.board().to_vec(), vec![ace, jack, two]);
    assert_eq!(Street::Preflop.board().to_vec(), vec![]);
    assert_eq!(
        [Street::Absent.to_u8(), Street::Preflop.to_u8(), flop.to_u8(), turn.to_u8(), river.to_u8()],
        [0, 1, 2, 3, 4]
    );
    assert!(flop.is_flop() && !flop.is_turn() && !flop.is_river());
    assert!(turn.is_turn() && !turn.is_flop());
    assert!(river.is_river() && !Street::Preflop.is_river());
    assert_eq!(Street::Preflop.to_string(), "P");
    assert_eq!(flop.to_string(), "fA♦");
    assert_eq!(turn.to_string(), "tA♦J♣");
    assert_eq!(river.to_string(), "rA♦J♣2♥");
    assert!(river.same_as(&river.clone()));
    assert!(!river.same_as(&turn));
    assert!(!flop.same_as(&Street::Flop(Board::new())));
    assert!(Street::Absent.same_as(&Street::Absent));
}

#[test]
fn history_nodes_are_actions_or_streets() {
    let action = HistoryNode::Action(Action::Bet(Bet::C(2)));
    let street = HistoryNode::Street(Street::Flop(Board::from_vec(vec![Card::new(3, Suit::Diamonds)])));
    assert!(action.is_action() && !action.is_street());
    assert!(street.is_street() && !street.is_action());
    assert_eq!(action.get_action(), Action::Bet(Bet::C(2)));
    assert_eq!(street.get_action(), Action::Absent);
    assert_eq!(action.get_street(), Street::Absent);
    assert_eq!(street.get_street(), Street::Flop(Board::from_vec(vec![Card::new(3, Suit::Diamonds)])));
    assert_eq!(action.to_string(), "B2c");
    assert_eq!(street.to_string(), "f3♦");
    assert!(action.same_as(&action.clone()));
    assert!(!action.same_as(&street));
    assert!(street.same_as(&street.clone()));
}

#[test]
fn history_tracks_its_street() {
    let flop = Street::Flop(Board::from_vec(vec![Card::new(3, Suit::Diamonds)]));
    let mut history = History::new();
    assert_eq!(history.len(), 0);
    assert_eq!(history.last(), None);
    assert_eq!(history.last_action(), Action::Absent);
    history.push_action(Action::Bet(Bet::C(2)));
    history.push_action(Action::Call);
    assert_eq!(*history.street(), Street::Preflop);
    assert!(history.is_completing_action());
    assert!(!history.is_terminal_action());
    history.push_street(flop.clone());
    assert_eq!(*history.street(), flop);
    assert_eq!(history.last(), Some(&HistoryNode::Street(flop.clone())));
    assert_eq!(history.last_action(), Action::Absent);
    assert!(!history.is_completing_action());
    assert!(!history.is_terminal());
    history.push_action(Action::Check);
    assert!(!history.is_completing_action());
    history.push_action(Action::Check);
    assert!(history.is_completing_action());
    assert!(history.is_terminal());
    assert_eq!(history.len(), 5);
    assert_eq!(history.to_string(), "B2cCf3♦XX");
    assert_eq!(History::find_street(&history.to_vec()), flop);
    assert_eq!(History::new_from_vec(history.to_vec()), history);
    assert!(history.same_as(&history.clone()));
    assert!(!history.same_as(&History::new()));
    history.push_action(Action::Fold);
    assert!(history.is_terminal_action());
    assert!(!history.is_completing_action());
}

#[test]
fn a_single_fold_or_call_is_a_terminal_history() {
    let mut history = History::new();
    history.push_action(Action::Fold);
    assert!(history.is_terminal_action());
    assert!(history.is_terminal());
    let mut call = History::new();
    call.push_action(Action::Call);
    assert!(call.is_completing_action());
    assert!(call.is_terminal());
    let mut check = History::new();
    check.push_action(Action::Check);
    assert!(!check.is_terminal());
    check.push_action(Action::Check);
    assert!(check.is_terminal());
    assert!(!History::new().is_terminal());
}

#[test]
fn hole_cards_know_their_cards() {
    let hand = HoleCards::new(&Card::new(7, Suit::Clubs), &Card::new(12, Suit::Hearts)).unwrap();
    assert_eq!(hand.card1, Card::new(12, Suit::Hearts));
    assert_eq!(hand.card2, Card::new(7, Suit::Clubs));
    assert_eq!(hand.highest(), 12);
    assert_eq!(hand.cards(), [Card::new(12, Suit::Hearts), Card::new(7, Suit::Clubs)]);
    assert_eq!(hand.to_string(), "Q♥7♣");
    assert_eq!(hand.expand(), vec![hand]);
    assert_eq!(HoleCards::in_order(hand.card2, hand.card1), hand);
    assert_eq!(HoleCards::new_with_ranks(3, 9).highest(), 9);
}

#[test]
fn hole_cards_of_one_rank_order_by_suit() {
    let spade = Card::new(13, Suit::Spades);
    let heart = Card::new(13, Suit::Hearts);
    let hand = HoleCards::new(&spade, &heart).unwrap();
    assert_eq!((hand.card1, hand.card2), (heart, spade));
    assert_eq!(HoleCards::new(&heart, &spade), Ok(hand));
}

#[test]
fn hole_cards_reject_mixed_markers() {
    let marked = Card::new(9, Suit::Suited);
    let real = Card::new(9, Suit::Hearts);
    let other = Card::new(4, Suit::Offsuit);
    assert_eq!(HoleCards::new(&marked, &real), Err(ParseError::MismatchedSuitMarkers(real, marked)));
    assert_eq!(HoleCards::new(&real, &marked), Err(ParseError::MismatchedSuitMarkers(real, marked)));
    assert_eq!(HoleCards::new(&marked, &other), Err(ParseError::MismatchedSuitMarkers(marked, other)));
    assert!(HoleCards::new(&marked, &marked).is_ok());
    assert!(HoleCards::new(&other, &other).is_ok());
}

#[test]
fn hole_cards_expand_in_a_fixed_order() {
    let offsuit = HoleCards::new_from_string("AKo").unwrap().expand();
    let suits = [Suit::Spades, Suit::Hearts, Suit::Diamonds, Suit::Clubs];
    let mut expected = Vec::new();
    for first in suits {
        for second in suits {
            if first != second {
                expected.push(HoleCards::new(&Card::new(14, first), &Card::new(13, second)).unwrap());
            }
        }
    }
    assert_eq!(offsuit, expected);
    let suited = HoleCards::new_from_string("T9s").unwrap().expand();
    let expected: Vec<HoleCards> = suits
        .iter()
        .map(|suit| HoleCards::new(&Card::new(10, *suit), &Card::new(9, *suit)).unwrap())
        .collect();
    assert_eq!(suited, expected);
    assert_eq!(HoleCards::new_from_string("T9s").unwrap().expand_suited(), suited);
    assert_eq!(HoleCards::new_from_string("AKo").unwrap().expand_offsuit(), offsuit);
}

#[test]
fn hole_cards_notation_is_checked() {
    for text in ["", "A", "AK", "AAA", "AKx", "AhK", "AhKx", "AxKh", "1h2h", "A♥K♥", "AhKhQ", "akS", "aa"] {
        assert_eq!(
            HoleCards::new_from_string(text),
            Err(ParseError::InvalidHoleCards(text.to_string())),
            "{}",
            text
        );
    }
    assert_eq!(
        HoleCards::new_from_string("2c2d"),
        Ok(HoleCards::new(&Card::new(2, Suit::Diamonds), &Card::new(2, Suit::Clubs)).unwrap())
    );
    assert_eq!(
        HoleCards::new_from_string("9sTs"),
        Ok(HoleCards::new(&Card::new(10, Suit::Spades), &Card::new(9, Suit::Spades)).unwrap())
    );
    assert_eq!(
        HoleCards::new_from_string("7Ks"),
        Ok(HoleCards::new(&Card::new(13, Suit::Suited), &Card::new(7, Suit::Suited)).unwrap())
    );
}

#[test]
fn player_cards_render_both_hands() {
    let cards = PlayerCards::new(HoleCards::new_with_ranks(3, 3), HoleCards::new_with_ranks(1, 2));
    assert_eq!(cards.get(Player::IP), HoleCards::new_with_ranks(3, 3));
    assert_eq!(cards.get(Player::OOP), HoleCards::new_with_ranks(2, 1));
    assert_eq!(cards.to_string(), "3♦3♦|2♦1♦");
}

#[test]
fn info_states_render_as_keys() {
    let mut history = History::new();
    history.push_action(Action::Check);
    history.push_action(Action::Bet(Bet::P(50)));
    let state = InfoState::new(Player::OOP, HoleCards::new_with_ranks(1, 1), history);
    assert_eq!(state.to_string(), "OOP1♦1♦XB50");
    assert!(state.same_as(&state.clone()));
    assert_eq!(state.clone(), state);
    let other = InfoState::new(Player::IP, HoleCards::new_with_ranks(1, 1), state.history.clone());
    assert!(!state.same_as(&other));
    let empty = InfoState::new_empty();
    assert_eq!(empty.player, Player::OOP);
    assert_eq!(empty.hole_cards.card1, Card { rank: 0, suit: Suit::Diamonds });
    assert_eq!(empty.hole_cards.card2, Card { rank: 0, suit: Suit::Diamonds });
    assert_eq!(empty.history, History::new());
    assert_eq!(empty.to_string(), "OOP0♦0♦");
}

#[test]
fn stakes_are_zero_sum() {
    for player in [Player::IP, Player::OOP] {
        for won in [true, false] {
            let mine = payoff_stake(player, Some(won));
            let theirs = payoff_stake(player.opponent(), Some(!won));
            assert_eq!(mine.of, theirs.of);
            assert_eq!(mine.sign, theirs.sign.flip());
        }
        assert_eq!(payoff_stake(player, None), Stake { of: player, sign: Sign::Plus });
    }
    assert_eq!(payoff_stake(Player::IP, Some(true)), Stake { of: Player::OOP, sign: Sign::Plus });
    assert_eq!(payoff_stake(Player::IP, Some(false)), Stake { of: Player::IP, sign: Sign::Minus });
    assert_eq!(street_sign(Player::IP), Sign::Plus);
    assert_eq!(street_sign(Player::OOP), Sign::Minus);
    assert_eq!(Sign::Plus.flip(), Sign::Minus);
    assert_eq!(Sign::Minus.flip(), Sign::Plus);
}
