use vstd::prelude::*;

use crate::model::{
    code_has_color, code_ok, fen_index, fen_index_of, kind_of_code,
    rep_opt_view, rep_view, squares_ok, BoardRep, Status, MATE_SCORE, TOTAL_BOUND,
};
use crate::tables::{
    lemma_pst_bounded, lemma_worth_bounded, pst_bonus, worth_of, BISHOP_PST,
    DOUBLED_PAWN_PENALTY, KNIGHT_PST, PASSED_PAWN_BONUS, PAWN_PST, PIECE_WORTH, QUEEN_PST,
    ROOK_PST,
};

verus! {

// ---------------------------------------------------------------------------
// Decoding the placement field of a position's text encoding.
//
// The decoder folds over the encoding byte by byte.  Its state is
// (placement done, squares decoded so far, side code, failed), where the
// side code is 0 until the side-to-move field is read, then 1 for white and
// 2 for black.
// ---------------------------------------------------------------------------

/// Square code of a placement letter, or 0 for any other byte.
pub open spec fn piece_code_of_byte(c: u8) -> u8 {
    if c == 80 {  // 'P'
        1
    } else if c == 78 {  // 'N'
        2
    } else if c == 66 {  // 'B'
        3
    } else if c == 82 {  // 'R'
        4
    } else if c == 81 {  // 'Q'
        5
    } else if c == 75 {  // 'K'
        6
    } else if c == 112 {  // 'p'
        7
    } else if c == 110 {  // 'n'
        8
    } else if c == 98 {  // 'b'
        9
    } else if c == 114 {  // 'r'
        10
    } else if c == 113 {  // 'q'
        11
    } else if c == 107 {  // 'k'
        12
    } else {
        0
    }
}

/// A run of empty squares.
pub open spec fn zero_run(n: int) -> Seq<u8> {
    Seq::new(if n >= 0 {
        n as nat
    } else {
        0
    }, |i: int| 0u8)
}

pub open spec fn parse_init() -> (bool, Seq<u8>, u8, bool) {
    (false, Seq::<u8>::empty(), 0u8, false)
}

/// One byte of the encoding folded into the decoder state.
pub open spec fn parse_step(st: (bool, Seq<u8>, u8, bool), c: u8) -> (bool, Seq<u8>, u8, bool) {
    if st.3 {
        st
    } else if !st.0 {
        if c == 32 {  // ' ': placement field ends
            (true, st.1, st.2, false)
        } else if 49 <= c <= 56 {  // '1'..'8': empty squares
            (false, st.1 + zero_run(c - 48), st.2, false)
        } else if c == 47 {  // '/': rank separator
            st
        } else if piece_code_of_byte(c) != 0 {
            (false, st.1.push(piece_code_of_byte(c)), st.2, false)
        } else {
            (st.0, st.1, st.2, true)
        }
    } else if st.2 == 0 {
        if c == 119 {  // 'w'
            (true, st.1, 1u8, false)
        } else if c == 98 {  // 'b'
            (true, st.1, 2u8, false)
        } else {
            (true, st.1, 0u8, true)
        }
    } else {
        st
    }
}

/// Decoder state after the first `n` bytes.
pub open spec fn parse_upto(f: Seq<u8>, n: int) -> (bool, Seq<u8>, u8, bool)
    decreases n,
{
    if n <= 0 {
        parse_init()
    } else {
        parse_step(parse_upto(f, n - 1), f[n - 1])
    }
}

/// What the text encoding holds: the 64 square codes in encoding order and
/// the side to move, or nothing for text this decoder rejects.
pub open spec fn parse_fen(f: Seq<u8>) -> Option<(Seq<u8>, bool)> {
    let st = parse_upto(f, f.len() as int);
    if !st.3 && st.0 && st.2 != 0 && st.1.len() == 64 {
        Some((st.1, st.2 == 1))
    } else {
        None
    }
}

/// Every code the decoder emits is a valid square code.
proof fn lemma_parse_codes(f: Seq<u8>, n: int)
    ensures
        forall|j: int|
            0 <= j < parse_upto(f, n).1.len() ==> code_ok(#[trigger] parse_upto(f, n).1[j]),
    decreases n,
{
    if n > 0 {
        lemma_parse_codes(f, n - 1);
        let prev = parse_upto(f, n - 1);
        let cur = parse_upto(f, n);
        assert forall|j: int| 0 <= j < cur.1.len() implies code_ok(cur.1[j]) by {
            if j < prev.1.len() {
                assert(code_ok(prev.1[j]));
            }
        }
    }
}

/// A decoded placement is well formed.
pub proof fn lemma_parse_squares_ok(f: Seq<u8>)
    requires
        parse_fen(f) is Some,
    ensures
        squares_ok(parse_fen(f).unwrap().0),
{
    lemma_parse_codes(f, f.len() as int);
}

/// Decode the placement and side-to-move fields of a position encoding.
pub fn parse_fen_bytes(f: &Vec<u8>) -> (r: Option<BoardRep>)
    ensures
        (r is Some) == (parse_fen(f@) is Some),
        r is Some ==> rep_view(r.unwrap()) == parse_fen(f@).unwrap(),
{
    let mut done: bool = false;
    let mut squares: Vec<u8> = Vec::new();
    let mut side: u8 = 0;
    let mut failed: bool = false;
    let mut i: usize = 0;
    proof {
        assert(squares@ =~= parse_init().1);
    }
    while i < f.len()
        invariant
            0 <= i <= f@.len(),
            done == parse_upto(f@, i as int).0,
            squares@ == parse_upto(f@, i as int).1,
            side == parse_upto(f@, i as int).2,
            failed == parse_upto(f@, i as int).3,
        decreases f@.len() - i,
    {
        let c = f[i];
        if failed {
            // state frozen
        } else if !done {
            if c == 32 {
                done = true;
            } else if 49 <= c && c <= 56 {
                let d = c - 48;
                let ghost pre = squares@;
                let mut k: u8 = 0;
                while k < d
                    invariant
                        0 <= k <= d,
                        squares@ == pre + zero_run(k as int),
                    decreases d - k,
                {
                    squares.push(0);
                    proof {
                        assert(pre + zero_run(k as int) + seq![0u8] =~= pre + zero_run(
                            k as int + 1,
                        ));
                    }
                    k = k + 1;
                }
                proof {
                    assert(squares@ =~= parse_upto(f@, i + 1).1);
                }
            } else if c == 47 {
                // rank separator
            } else {
                let code = piece_code_of(c);
                if code != 0 {
                    squares.push(code);
                } else {
                    failed = true;
                }
            }
        } else if side == 0 {
            if c == 119 {
                side = 1;
            } else if c == 98 {
                side = 2;
            } else {
                failed = true;
            }
        }
        i = i + 1;
    }
    if !failed && done && side != 0 && squares.len() == 64 {
        Some(BoardRep { squares, white_to_move: side == 1 })
    } else {
        None
    }
}

/// Exec counterpart of `piece_code_of_byte`.
fn piece_code_of(c: u8) -> (r: u8)
    ensures
        r == piece_code_of_byte(c),
{
    if c == 80 {
        1
    } else if c == 78 {
        2
    } else if c == 66 {
        3
    } else if c == 82 {
        4
    } else if c == 81 {
        5
    } else if c == 75 {
        6
    } else if c == 112 {
        7
    } else if c == 110 {
        8
    } else if c == 98 {
        9
    } else if c == 114 {
        10
    } else if c == 113 {
        11
    } else if c == 107 {
        12
    } else {
        0
    }
}

// ---------------------------------------------------------------------------
// Static evaluation.
// ---------------------------------------------------------------------------

/// Material and positional score a square contributes to one side's total.
pub open spec fn square_score(sq: Seq<u8>, i: int, white: bool) -> int {
    if 0 <= i < 64 && 0 <= i < sq.len() {
        let c = sq[i];
        if code_has_color(c, white) {
            let k = kind_of_code(c);
            let idx = if white {
                i
            } else {
                fen_index(i)
            };
            worth_of(k) + pst_bonus(k, idx)
        } else {
            0
        }
    } else {
        0
    }
}

/// The pawn code of a colour.
pub open spec fn pawn_code(white: bool) -> u8 {
    if white {
        1
    } else {
        7
    }
}

/// Whether placement index `j` lies strictly ahead of `i` on the way to the
/// given side's promotion rank.
pub open spec fn is_ahead(i: int, j: int, white: bool) -> bool {
    0 <= j < 64 && if white {
        j / 8 < i / 8
    } else {
        j / 8 > i / 8
    }
}

/// An own pawn stands ahead on the same file.
pub open spec fn doubled(sq: Seq<u8>, i: int, white: bool) -> bool {
    exists|j: int| is_ahead(i, j, white) && j % 8 == i % 8 && sq[j] == pawn_code(white)
}

/// No opposing pawn stands ahead on this or an adjacent file.
pub open spec fn passed(sq: Seq<u8>, i: int, white: bool) -> bool {
    forall|j: int|
        (is_ahead(i, j, white) && -1 <= j % 8 - i % 8 <= 1) ==> #[trigger] sq[j] != pawn_code(
            !white,
        )
}

/// Ranks left to the promotion rank.
pub open spec fn promo_distance(i: int, white: bool) -> int {
    if white {
        i / 8
    } else {
        7 - i / 8
    }
}

/// Pawn-structure adjustment a square contributes to one side's total.
pub open spec fn pawn_adjust(sq: Seq<u8>, i: int, white: bool) -> int {
    if 0 <= i < 64 && 0 <= i < sq.len() && sq[i] == pawn_code(white) {
        (if doubled(sq, i, white) {
            -(DOUBLED_PAWN_PENALTY as int)
        } else {
            0
        }) + (if passed(sq, i, white) {
            PASSED_PAWN_BONUS[promo_distance(i, white)] as int
        } else {
            0
        })
    } else {
        0
    }
}

/// Everything one square contributes to one side's total.
pub open spec fn cell_total(sq: Seq<u8>, i: int, white: bool) -> int {
    square_score(sq, i, white) + pawn_adjust(sq, i, white)
}

/// One side's total over the first `n` squares.
pub open spec fn side_sum(sq: Seq<u8>, white: bool, n: int) -> int
    decreases n,
{
    if n <= 0 {
        0
    } else {
        side_sum(sq, white, n - 1) + cell_total(sq, n - 1, white)
    }
}

/// One side's whole material, positional and pawn-structure total.
pub open spec fn side_total(sq: Seq<u8>, white: bool) -> int {
    side_sum(sq, white, 64)
}

/// Score of a decoded position from the side to move's perspective.  On
/// checkmate the winner's total is forced to the mate score.
pub open spec fn board_score(sq: Seq<u8>, white_to_move: bool, mated: bool) -> int {
    let wt = if mated && !white_to_move {
        MATE_SCORE as int
    } else {
        side_total(sq, true)
    };
    let bt = if mated && white_to_move {
        MATE_SCORE as int
    } else {
        side_total(sq, false)
    };
    if white_to_move {
        wt - bt
    } else {
        bt - wt
    }
}

/// Score of a position given its decoded placement and the rules engine's
/// status report: stalemate is a draw, checkmate dominates everything, and
/// an undecodable encoding scores bare mate or zero.
pub open spec fn node_score_rep(rep: Option<(Seq<u8>, bool)>, st: Status) -> int {
    if st == Status::Stalemate {
        0
    } else {
        match rep {
            None => if st == Status::Checkmate {
                -(MATE_SCORE as int)
            } else {
                0
            },
            Some(r) => board_score(r.0, r.1, st == Status::Checkmate),
        }
    }
}

/// One square's contribution is small.
proof fn lemma_cell_total_bound(sq: Seq<u8>, i: int, white: bool)
    ensures
        -1150 <= cell_total(sq, i, white) <= 1150,
{
    if 0 <= i < 64 && 0 <= i < sq.len() {
        let c = sq[i];
        if code_has_color(c, white) {
            lemma_worth_bounded(kind_of_code(c));
            lemma_pst_bounded(kind_of_code(c), if white {
                i
            } else {
                fen_index(i)
            });
        }
    }
}

proof fn lemma_side_sum_bound(sq: Seq<u8>, white: bool, n: int)
    requires
        n >= 0,
    ensures
        -1150 * n <= side_sum(sq, white, n) <= 1150 * n,
    decreases n,
{
    if n > 0 {
        lemma_side_sum_bound(sq, white, n - 1);
        lemma_cell_total_bound(sq, n - 1, white);
    }
}

/// A side's total never approaches the mate score.
pub proof fn lemma_side_total_bound(sq: Seq<u8>, white: bool)
    ensures
        -TOTAL_BOUND <= side_total(sq, white) <= TOTAL_BOUND,
{
    lemma_side_sum_bound(sq, white, 64);
}

/// Position scores are bounded, mate scores keep their magnitude, and
/// anything short of mate stays far below it.
pub proof fn lemma_node_score_bound(rep: Option<(Seq<u8>, bool)>, st: Status)
    ensures
        -(MATE_SCORE + TOTAL_BOUND) <= node_score_rep(rep, st) <= MATE_SCORE + TOTAL_BOUND,
        st != Status::Checkmate ==> -2 * TOTAL_BOUND <= node_score_rep(rep, st) <= 2
            * TOTAL_BOUND,
        st == Status::Checkmate ==> node_score_rep(rep, st) <= -(MATE_SCORE - TOTAL_BOUND),
{
    match rep {
        None => {},
        Some(r) => {
            lemma_side_total_bound(r.0, true);
            lemma_side_total_bound(r.0, false);
        },
    }
}

/// Exec counterpart of `kind_of_code`.
fn kind_of(c: u8) -> (k: u8)
    ensures
        k == kind_of_code(c),
{
    if c >= 7 {
        c - 6
    } else {
        c
    }
}

/// Exec positional lookup.
fn pst_lookup(kind: u8, idx: usize) -> (r: i64)
    requires
        idx < 64,
    ensures
        r == pst_bonus(kind, idx as int),
{
    if kind == 1 {
        PAWN_PST[idx]
    } else if kind == 2 {
        KNIGHT_PST[idx]
    } else if kind == 3 {
        BISHOP_PST[idx]
    } else if kind == 4 {
        ROOK_PST[idx]
    } else if kind == 5 {
        QUEEN_PST[idx]
    } else {
        0
    }
}

/// Exec material lookup.
fn worth_lookup(kind: u8) -> (r: i64)
    ensures
        r == worth_of(kind),
{
    if 1 <= kind && kind <= 6 {
        PIECE_WORTH[kind as usize]
    } else {
        0
    }
}

/// One side's total of a decoded placement.
fn side_total_exec(squares: &Vec<u8>, white: bool) -> (r: i64)
    requires
        squares@.len() == 64,
    ensures
        r == side_total(squares@, white),
{
    let ghost sq = squares@;
    let mut acc: i64 = 0;
    let mut i: usize = 0;
    while i < 64
        invariant
            squares@ == sq,
            sq.len() == 64,
            0 <= i <= 64,
            acc == side_sum(sq, white, i as int),
            -1150 * (i as int) <= acc <= 1150 * (i as int),
        decreases 64 - i,
    {
        let c = squares[i];
        let mut cell: i64 = 0;
        // material and positional share of this square
        let colored = if white {
            1 <= c && c <= 6
        } else {
            7 <= c && c <= 12
        };
        if colored {
            let k = kind_of(c);
            let idx = if white {
                i
            } else {
                fen_index_of(i as u8) as usize
            };
            cell = worth_lookup(k) + pst_lookup(k, idx);
        }
        assert(cell == square_score(sq, i as int, white));
        // pawn-structure share of this square
        let my_pawn: u8 = if white {
            1
        } else {
            7
        };
        let their_pawn: u8 = if white {
            7
        } else {
            1
        };
        if c == my_pawn {
            let row = i / 8;
            let col = i % 8;
            let mut has_doubled = false;
            let mut has_enemy_ahead = false;
            let mut j: usize = 0;
            while j < 64
                invariant
                    squares@ == sq,
                    sq.len() == 64,
                    0 <= j <= 64,
                    i < 64,
                    row == i as int / 8,
                    col == i as int % 8,
                    my_pawn == pawn_code(white),
                    their_pawn == pawn_code(!white),
                    has_doubled ==> doubled(sq, i as int, white),
                    !has_doubled ==> forall|j2: int|
                        0 <= j2 < j ==> !(is_ahead(i as int, j2, white) && j2 % 8 == i as int % 8
                            && sq[j2] == pawn_code(white)),
                    has_enemy_ahead ==> !passed(sq, i as int, white),
                    !has_enemy_ahead ==> forall|j2: int|
                        0 <= j2 < j ==> !(is_ahead(i as int, j2, white) && -1 <= j2 % 8
                            - i as int % 8 <= 1 && sq[j2] == pawn_code(!white)),
                decreases 64 - j,
            {
                let jrow = j / 8;
                let jcol = j % 8;
                let ahead = if white {
                    jrow < row
                } else {
                    jrow > row
                };
                if ahead {
                    if jcol == col && squares[j] == my_pawn {
                        has_doubled = true;
                    }
                    let near = if jcol >= col {
                        jcol - col <= 1
                    } else {
                        col - jcol <= 1
                    };
                    if near && squares[j] == their_pawn {
                        has_enemy_ahead = true;
                    }
                }
                j = j + 1;
            }
            assert(has_doubled == doubled(sq, i as int, white));
            assert(has_enemy_ahead == !passed(sq, i as int, white));
            let mut adj: i64 = 0;
            if has_doubled {
                adj = adj - DOUBLED_PAWN_PENALTY;
            }
            if !has_enemy_ahead {
                let dist = if white {
                    row
                } else {
                    7 - row
                };
                adj = adj + PASSED_PAWN_BONUS[dist];
            }
            assert(adj == pawn_adjust(sq, i as int, white));
            cell = cell + adj;
        } else {
            assert(pawn_adjust(sq, i as int, white) == 0);
        }
        proof {
            lemma_cell_total_bound(sq, i as int, white);
        }
        acc = acc + cell;
        i = i + 1;
    }
    acc
}

/// Static evaluation of a decoded position under the rules engine's status
/// report, from the side to move's perspective.
pub fn eval_board(rep: &Option<BoardRep>, st: Status) -> (r: i64)
    requires
        match rep {
            Some(rp) => rp.squares@.len() == 64,
            None => true,
        },
    ensures
        r == node_score_rep(rep_opt_view(*rep), st),
{
    if st == Status::Stalemate {
        return 0;
    }
    let mated = st == Status::Checkmate;
    match rep {
        None => if mated {
            -MATE_SCORE
        } else {
            0
        },
        Some(rp) => {
            let wt = if mated && !rp.white_to_move {
                MATE_SCORE
            } else {
                side_total_exec(&rp.squares, true)
            };
            let bt = if mated && rp.white_to_move {
                MATE_SCORE
            } else {
                side_total_exec(&rp.squares, false)
            };
            proof {
                lemma_side_total_bound(rp.squares@, true);
                lemma_side_total_bound(rp.squares@, false);
            }
            if rp.white_to_move {
                wt - bt
            } else {
                bt - wt
            }
        },
    }
}

} // verus!
