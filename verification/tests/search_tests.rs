use std::str::FromStr;

use sheep_engine::{
    alpha_beta_value, make_move, minimax_value, search_at_depth, static_eval, timed_move,
    try_make_move, Info, Mv,
};

const START_FEN: &str = "rnbqkbnr/pppppppp/8/8/8/8/PPPPPPPP/RNBQKBNR w KQkq - 0 1";
const QUEEN_GRAB_FEN: &str = "k7/8/8/3q4/4P3/8/8/7K w - - 0 1";

fn legal_move_strings(fen: &str) -> Vec<String> {
    let board = chess::Board::from_str(fen).unwrap();
    chess::MoveGen::new_legal(&board).map(|m| m.to_string()).collect()
}

#[test]
fn depth_one_matches_brute_force() {
    let board = chess::Board::from_str(QUEEN_GRAB_FEN).unwrap();
    let mut best_val: i64 = i64::MIN;
    let mut best_mv = String::new();
    for m in chess::MoveGen::new_legal(&board) {
        let child = board.make_move_new(m);
        let v = -static_eval(&child.to_string()).unwrap();
        if v > best_val {
            best_val = v;
            best_mv = m.to_string();
        }
    }
    let (v, s) = search_at_depth(QUEEN_GRAB_FEN, 1).unwrap();
    assert_eq!(v, best_val);
    assert_eq!(s, best_mv);
    assert_eq!(s, "e4d5");
}

#[test]
fn alpha_beta_equals_plain_minimax() {
    for depth in 1..=3 {
        assert_eq!(
            alpha_beta_value(QUEEN_GRAB_FEN, depth),
            minimax_value(QUEEN_GRAB_FEN, depth)
        );
    }
    for depth in 1..=2 {
        assert_eq!(alpha_beta_value(START_FEN, depth), minimax_value(START_FEN, depth));
    }
    let italian = "r1bqkbnr/pppp1ppp/2n5/4p3/2B1P3/5N2/PPPP1PPP/RNBQK2R w KQkq - 4 4";
    for depth in 1..=2 {
        assert_eq!(alpha_beta_value(italian, depth), minimax_value(italian, depth));
    }
}

#[test]
fn depth_zero_search_is_static_evaluation() {
    for fen in [START_FEN, QUEEN_GRAB_FEN, "7k/5Q2/6K1/8/8/8/8/8 b - - 0 1"] {
        assert_eq!(alpha_beta_value(fen, 0), static_eval(fen));
        assert_eq!(minimax_value(fen, 0), static_eval(fen));
    }
}

#[test]
fn mate_in_one_is_found_and_carries_the_mate_score() {
    let fen = "6k1/5ppp/8/8/8/8/5PPP/R5K1 w - - 0 1";
    let (v, s) = search_at_depth(fen, 1).unwrap();
    assert_eq!(s, "a1a8");
    // The winner's total is the mate score; black keeps pawns worth 325.
    assert_eq!(v, 200_000_000 - 325);
    let board = chess::Board::from_str(fen).unwrap();
    let mv = chess::ChessMove::from_str(&s).unwrap();
    assert_eq!(board.make_move_new(mv).status(), chess::BoardStatus::Checkmate);
    // The mating move stays chosen when searching deeper.
    let (v2, s2) = search_at_depth(fen, 2).unwrap();
    assert_eq!(s2, "a1a8");
    assert!(v2 > 100_000_000);
}

#[test]
fn tiny_budget_still_returns_a_legal_move() {
    let s = timed_move(START_FEN, 0).unwrap();
    assert!(legal_move_strings(START_FEN).contains(&s));
    let s1 = timed_move(START_FEN, 1).unwrap();
    assert!(legal_move_strings(START_FEN).contains(&s1));
}

#[test]
fn killer_table_keeps_two_slots_newest_first() {
    let mut info = Info::init(None);
    assert_eq!(info.killers.len(), 257);
    let m1 = Mv { from: 12, to: 28, promo: 0 };
    let m2 = Mv { from: 6, to: 21, promo: 0 };
    let m3 = Mv { from: 1, to: 18, promo: 0 };
    info.update_killer(3, m1);
    assert_eq!(info.killers[3].slot0, Some(m1));
    assert_eq!(info.killers[3].slot1, None);
    info.update_killer(3, m2);
    assert_eq!(info.killers[3].slot0, Some(m2));
    assert_eq!(info.killers[3].slot1, Some(m1));
    info.update_killer(3, m3);
    assert_eq!(info.killers[3].slot0, Some(m3));
    assert_eq!(info.killers[3].slot1, Some(m2));
    assert_eq!(info.killers.len(), 257);
    // other depths stay empty
    assert_eq!(info.killers[4].slot0, None);
}

#[test]
fn returned_move_round_trips_through_the_rules_engine() {
    let fen = "r1bqkbnr/pppp1ppp/2n5/4p3/2B1P3/5N2/PPPP1PPP/RNBQK2R w KQkq - 4 4";
    let s = timed_move(fen, 200).unwrap();
    let board = chess::Board::from_str(fen).unwrap();
    let mv = chess::ChessMove::from_str(&s).unwrap();
    assert!(chess::MoveGen::new_legal(&board).any(|m| m == mv));
    let child = board.make_move_new(mv);
    assert_ne!(child.to_string(), board.to_string());
}

#[test]
fn promotion_moves_are_encoded_with_their_letter() {
    let fen = "1n2k3/P7/8/8/8/8/8/4K3 w - - 0 1";
    let (_, s) = search_at_depth(fen, 1).unwrap();
    assert_eq!(s, "a7b8q");
    let mv = chess::ChessMove::from_str(&s).unwrap();
    assert_eq!(mv.get_promotion(), Some(chess::Piece::Queen));
    assert_eq!(mv.to_string(), s);
}

#[test]
fn compute_best_move_is_deterministic() {
    let fen = "k7/8/8/3q4/4P3/8/8/7K w - - 0 1";
    let a = make_move(fen);
    let b = make_move(fen);
    assert_eq!(a, b);
    assert!(legal_move_strings(fen).contains(&a));
}

#[test]
fn malformed_or_terminal_positions_are_refused() {
    assert_eq!(try_make_move("not a position"), None);
    // a checkmated position has no legal move to compute
    assert_eq!(try_make_move("R6k/6pp/8/8/8/8/8/7K b - - 0 1"), None);
    // depths outside the driver's range are refused
    assert_eq!(search_at_depth(START_FEN, 0), None);
    assert_eq!(search_at_depth(START_FEN, 1000), None);
}

#[test]
fn fixed_depth_search_is_deterministic() {
    let fen = "r1bqkbnr/pppp1ppp/2n5/4p3/2B1P3/5N2/PPPP1PPP/RNBQK2R b KQkq - 4 4";
    assert_eq!(search_at_depth(fen, 2), search_at_depth(fen, 2));
}
