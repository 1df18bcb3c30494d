use std::str::FromStr;

use sheep_engine::static_eval;

const START_FEN: &str = "rnbqkbnr/pppppppp/8/8/8/8/PPPPPPPP/RNBQKBNR w KQkq - 0 1";

#[test]
fn startpos_is_balanced() {
    assert_eq!(static_eval(START_FEN), Some(0));
}

#[test]
fn lone_passed_pawn_exact_value() {
    // White pawn on e2: material 100, square bonus -20, passed-pawn bonus 15
    // at distance 6; white to move.
    assert_eq!(static_eval("4k3/8/8/8/8/8/4P3/4K3 w - - 0 1"), Some(95));
}

#[test]
fn lone_passed_pawn_mirrored_for_black() {
    // The mirrored position with black to move scores the same for black.
    assert_eq!(static_eval("4k3/4p3/8/8/8/8/8/4K3 b - - 0 1"), Some(95));
}

#[test]
fn score_is_from_mover_perspective() {
    // Same placement as above but white to move: black's pawn counts
    // against the mover.
    assert_eq!(static_eval("4k3/4p3/8/8/8/8/8/4K3 w - - 0 1"), Some(-95));
}

#[test]
fn doubled_pawns_are_penalized() {
    // Pawns on e2 and e4.  e2: 100 - 20 + 15 (still passed: only opposing
    // pawns block passedness) - 50 doubled = 45.  e4: 100 + 20 + 40 = 160.
    assert_eq!(static_eval("4k3/8/8/8/4P3/8/4P3/4K3 w - - 0 1"), Some(205));
}

#[test]
fn stalemate_scores_zero() {
    let fen = "7k/5Q2/6K1/8/8/8/8/8 b - - 0 1";
    let board = chess::Board::from_str(fen).unwrap();
    assert_eq!(board.status(), chess::BoardStatus::Stalemate);
    assert_eq!(static_eval(fen), Some(0));
}

#[test]
fn checkmate_forces_the_mate_score() {
    // Back-rank mate: black is checkmated; black's remaining material
    // (pawns g7 and h7, worth 125 + 120 with bonuses) stands against the
    // winner's total forced to the mate score.
    let fen = "R6k/6pp/8/8/8/8/8/7K b - - 0 1";
    let board = chess::Board::from_str(fen).unwrap();
    assert_eq!(board.status(), chess::BoardStatus::Checkmate);
    assert_eq!(static_eval(fen), Some(245 - 200_000_000));
}

#[test]
fn malformed_position_is_rejected() {
    assert_eq!(static_eval("this is not a position"), None);
}

#[test]
fn evaluation_is_deterministic() {
    let fen = "r1bqkbnr/pppp1ppp/2n5/4p3/2B1P3/5N2/PPPP1PPP/RNBQK2R w KQkq - 4 4";
    let a = static_eval(fen);
    let b = static_eval(fen);
    assert!(a.is_some());
    assert_eq!(a, b);
}
