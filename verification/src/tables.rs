use vstd::prelude::*;

verus! {

/// Material worth of each piece kind, indexed by kind code (0 unused,
/// 1 = pawn .. 5 = queen; the king carries no material value).
pub const PIECE_WORTH: [i64; 7] = [0, 100, 320, 330, 500, 900, 0];

/// Positional bonus per square for a white pawn, in encoding order (index
/// 0 = a8 .. 63 = h1).  Black uses the vertically mirrored index.
pub const PAWN_PST: [i64; 64] = [
    0, 0, 0, 0, 0, 0, 0, 0,
    50, 50, 50, 50, 50, 50, 50, 50,
    10, 10, 20, 30, 30, 20, 10, 10,
    5, 5, 10, 25, 25, 10, 5, 5,
    0, 0, 0, 20, 20, 0, 0, 0,
    5, -5, -10, 0, 0, -10, -5, 5,
    5, 10, 10, -20, -20, 10, 10, 5,
    0, 0, 0, 0, 0, 0, 0, 0,
];

pub const KNIGHT_PST: [i64; 64] = [
    -50, -40, -30, -30, -30, -30, -40, -50,
    -40, -20, 0, 0, 0, 0, -20, -40,
    -30, 0, 10, 15, 15, 10, 0, -30,
    -30, 5, 15, 20, 20, 15, 5, -30,
    -30, 0, 15, 20, 20, 15, 0, -30,
    -30, 5, 10, 15, 15, 10, 5, -30,
    -40, -20, 0, 5, 5, 0, -20, -40,
    -50, -40, -30, -30, -30, -30, -40, -50,
];

pub const BISHOP_PST: [i64; 64] = [
    -20, -10, -10, -10, -10, -10, -10, -20,
    -10, 0, 0, 0, 0, 0, 0, -10,
    -10, 0, 5, 10, 10, 5, 0, -10,
    -10, 5, 5, 10, 10, 5, 5, -10,
    -10, 0, 10, 10, 10, 10, 0, -10,
    -10, 10, 10, 10, 10, 10, 10, -10,
    -10, 5, 0, 0, 0, 0, 5, -10,
    -20, -10, -10, -10, -10, -10, -10, -20,
];

pub const ROOK_PST: [i64; 64] = [
    0, 0, 0, 0, 0, 0, 0, 0,
    5, 10, 10, 10, 10, 10, 10, 5,
    -5, 0, 0, 0, 0, 0, 0, -5,
    -5, 0, 0, 0, 0, 0, 0, -5,
    -5, 0, 0, 0, 0, 0, 0, -5,
    -5, 0, 0, 0, 0, 0, 0, -5,
    -5, 0, 0, 0, 0, 0, 0, -5,
    0, 0, 0, 5, 5, 0, 0, 0,
];

pub const QUEEN_PST: [i64; 64] = [
    -20, -10, -10, -5, -5, -10, -10, -20,
    -10, 0, 0, 0, 0, 0, 0, -10,
    -10, 0, 5, 5, 5, 5, 0, -10,
    -5, 0, 5, 5, 5, 5, 0, -5,
    0, 0, 5, 5, 5, 5, 0, -5,
    -10, 5, 5, 5, 5, 5, 0, -10,
    -10, 0, 5, 0, 0, 0, 5, -10,
    -20, -10, -10, -5, -5, -10, -10, -20,
];

/// Capture-ordering matrix ("most valuable victim, least valuable
/// attacker"), flat-indexed by (attacker kind - 1) * 6 + victim kind - 1.
pub const MVV_LVA: [i64; 36] = [
    150, 250, 350, 450, 550, 650,
    140, 240, 340, 440, 540, 640,
    130, 230, 330, 430, 530, 630,
    120, 220, 320, 420, 520, 620,
    110, 210, 310, 410, 510, 610,
    100, 200, 300, 400, 500, 600,
];

/// Bonus for a passed pawn, indexed by its distance to the promotion rank
/// (closer is larger; distance 0 cannot occur).
pub const PASSED_PAWN_BONUS: [i64; 8] = [0, 140, 100, 60, 40, 25, 15, 10];

/// Penalty applied to a side for a pawn with an own pawn ahead of it on the
/// same file.
pub const DOUBLED_PAWN_PENALTY: i64 = 50;

/// Positional bonus of a piece kind on a placement-order square index; the
/// king and empty squares contribute nothing.
pub open spec fn pst_bonus(kind: u8, idx: int) -> int {
    if 0 <= idx < 64 {
        if kind == 1 {
            PAWN_PST[idx] as int
        } else if kind == 2 {
            KNIGHT_PST[idx] as int
        } else if kind == 3 {
            BISHOP_PST[idx] as int
        } else if kind == 4 {
            ROOK_PST[idx] as int
        } else if kind == 5 {
            QUEEN_PST[idx] as int
        } else {
            0
        }
    } else {
        0
    }
}

/// Material worth of a piece kind code; empty and out-of-range codes weigh
/// nothing.
pub open spec fn worth_of(kind: u8) -> int {
    if 1 <= kind <= 6 {
        PIECE_WORTH[kind as int] as int
    } else {
        0
    }
}

/// Every positional bonus lies within 50 points.
pub proof fn lemma_pst_bounded(kind: u8, idx: int)
    ensures
        -50 <= pst_bonus(kind, idx) <= 50,
{
}

/// Material worth is at most the queen's.
pub proof fn lemma_worth_bounded(kind: u8)
    ensures
        0 <= worth_of(kind) <= 900,
{
}

} // verus!
