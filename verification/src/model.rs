use vstd::prelude::*;

verus! {

/// Score granted to the winning side's total when the rules engine reports
/// checkmate.  It dominates every material or positional total, which the
/// bound lemmas in `eval` cap far below it.
pub const MATE_SCORE: i64 = 200_000_000;

/// Upper bound on the absolute value of one side's material, positional and
/// pawn-structure total (the true maximum is well below this).
pub const TOTAL_BOUND: i64 = 100_000;

/// Upper bound on the absolute value of any position score, checkmate
/// included.
pub const SCORE_BOUND: i64 = MATE_SCORE + 2 * TOTAL_BOUND;

/// Sits strictly below every reachable score; the maximum of an empty set of
/// move values.
pub const VALUE_FLOOR: i64 = -SCORE_BOUND - 1;

/// Window bound used as "infinity" for a full alpha-beta window; strictly
/// wider than any reachable score.
pub const WINDOW_BOUND: i64 = 1_000_000_000;

/// Deepest search depth the driver may attempt; the killer table is sized to
/// it.
pub const MAX_DEPTH: usize = 256;

/// A move: source and destination square in the rules engine's square
/// numbering (0 = a1, 7 = h1, 56 = a8, 63 = h8), and a promotion piece kind
/// code (0 = none, 2 = knight, 3 = bishop, 4 = rook, 5 = queen).
#[derive(Clone, Copy, PartialEq, Eq, Structural, Debug)]
pub struct Mv {
    pub from: u8,
    pub to: u8,
    pub promo: u8,
}

/// What the rules engine reports of a position: play goes on, the side to
/// move has no legal move but is not in check, or the side to move is
/// checkmated.
#[derive(Clone, Copy, PartialEq, Eq, Structural, Debug)]
pub enum Status {
    Ongoing,
    Stalemate,
    Checkmate,
}

/// Piece placement and side to move, decoded from a position's text
/// encoding.  `squares` has 64 entries in encoding order (index 0 = a8,
/// 7 = h8, 56 = a1, 63 = h1); each entry is a square code (see `code_ok`).
pub struct BoardRep {
    pub squares: Vec<u8>,
    pub white_to_move: bool,
}

/// The two killer slots of one search depth: quiet moves that caused a beta
/// cutoff at this depth, most recent first.
#[derive(Clone, Copy, PartialEq, Eq, Structural, Debug)]
pub struct KillerPair {
    pub slot0: Option<Mv>,
    pub slot1: Option<Mv>,
}

/// A square code: 0 is empty, 1-6 are white pawn, knight, bishop, rook,
/// queen, king, and 7-12 the same pieces in black.
pub open spec fn code_ok(c: u8) -> bool {
    c <= 12
}

/// The piece kind of a square code (1 = pawn .. 6 = king), or 0 for empty.
pub open spec fn kind_of_code(c: u8) -> u8 {
    if c >= 7 {
        (c - 6) as u8
    } else {
        c
    }
}

pub open spec fn is_white_code(c: u8) -> bool {
    1 <= c <= 6
}

pub open spec fn is_black_code(c: u8) -> bool {
    7 <= c <= 12
}

/// Whether a square code holds a piece of the given colour.
pub open spec fn code_has_color(c: u8, white: bool) -> bool {
    if white {
        is_white_code(c)
    } else {
        is_black_code(c)
    }
}

/// A well-formed move: squares on the board, promotion either absent or a
/// knight, bishop, rook or queen kind code.
pub open spec fn mv_ok(m: Mv) -> bool {
    m.from < 64 && m.to < 64 && (m.promo == 0 || (2 <= m.promo <= 5))
}

/// Index of a board square (0 = a1 numbering) within the encoding-order
/// placement (0 = a8 numbering).  The map is its own inverse.
pub open spec fn fen_index(s: int) -> int {
    (7 - s / 8) * 8 + s % 8
}

/// Fail-hard clamp of a value into a window.
pub open spec fn clamp(lo: int, hi: int, v: int) -> int {
    if v <= lo {
        lo
    } else if v >= hi {
        hi
    } else {
        v
    }
}

/// The view of a decoded placement: square codes and side to move.
pub open spec fn rep_view(r: BoardRep) -> (Seq<u8>, bool) {
    (r.squares@, r.white_to_move)
}

/// View of an optional decoded placement.
pub open spec fn rep_opt_view(r: Option<BoardRep>) -> Option<(Seq<u8>, bool)> {
    match r {
        None => None,
        Some(rep) => Some(rep_view(rep)),
    }
}

/// A placement sequence is well formed when it covers the 64 squares with
/// valid square codes.
pub open spec fn squares_ok(sq: Seq<u8>) -> bool {
    sq.len() == 64 && forall|i: int| 0 <= i < 64 ==> code_ok(#[trigger] sq[i])
}

/// Encoding-order index of a move's destination square, as exec code.
pub fn fen_index_of(s: u8) -> (r: u8)
    requires
        s < 64,
    ensures
        r == fen_index(s as int),
        r < 64,
{
    (7 - s / 8) * 8 + s % 8
}

/// Negating a clamped value flips and negates the window.
pub proof fn lemma_clamp_neg(lo: int, hi: int, v: int)
    requires
        lo <= hi,
    ensures
        -clamp(lo, hi, v) == clamp(-hi, -lo, -v),
{
}

} // verus!
