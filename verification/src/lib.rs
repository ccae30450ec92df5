//! Game-tree machinery for small two-player zero-sum poker games.
//!
//! The crate holds the exact, integer-only part of a solver that minimises
//! counterfactual regret:
//!
//! - cards, hands, boards, bets, actions and histories, with the renderings
//!   that make up the keys of information states;
//! - the showdown: the best hand among hole cards and board, and who wins;
//! - ranges of hands with weights counted in billionths, read from range
//!   notation;
//! - the rules of Kuhn poker, Leduc poker and hold'em from the flop onwards:
//!   decks, legal actions, deals;
//! - the nodes of the game tree and the steps of a walk over it;
//! - the table of information states, with a row of regrets and a row of
//!   strategy sums for each, over whatever numbers the solver computes with;
//! - the order in which reports list information states.
//!
//! Every executable function carries a contract that Verus proves. The one
//! exception is the wrapper in `deck` around the shuffle of the `rand`
//! crate, whose contract is taken on trust. Utilities, probabilities and
//! chips are floating-point numbers and stay with the caller.

pub mod error;
pub mod suit;
pub mod text;
pub mod card;
pub mod bet;
pub mod action;
pub mod player;
pub mod board;
pub mod street;
pub mod history_node;
pub mod history;
pub mod hole_cards;
pub mod player_cards;
pub mod info_state;
pub mod action_list;
pub mod deck;
pub mod weight;
pub mod range;
pub mod card_array;
pub mod hand_rank;
pub mod deal;
pub mod game;
pub mod node;
pub mod pot;
pub mod kuhn;
pub mod leduc;
pub mod postflop_holdem_config;
pub mod postflop_holdem;
pub mod tree_walker;
pub mod report;
pub mod game_tree;
