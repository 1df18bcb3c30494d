//! A chess engine core: an iterative-deepening, fail-hard alpha-beta search
//! in negamax form, a move-ordering heuristic with a killer table, and a
//! static evaluator over material, piece-square and pawn-structure terms.
//! Every search result is specified against `search::game_value`, the
//! unpruned negamax value of the game tree.  Legal move enumeration, move
//! application and terminal detection come from the `chess` crate through
//! the trusted boundary in `rules`; everything else is verified.

pub mod engine;
pub mod eval;
pub mod model;
pub mod order;
pub mod rules;
pub mod search;
pub mod tables;

pub use crate::engine::{
    alpha_beta_value, make_move, minimax_value, search_at_depth, static_eval, timed_move,
    try_make_move,
};
pub use crate::model::{KillerPair, Mv, Status, MATE_SCORE, MAX_DEPTH};
pub use crate::search::Info;
