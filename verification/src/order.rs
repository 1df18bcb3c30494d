use vstd::prelude::*;

use crate::model::{fen_index, fen_index_of, kind_of_code, mv_ok, Mv};
use crate::tables::MVV_LVA;

verus! {

broadcast use vstd::seq_lib::group_to_multiset_ensures;

/// Capture-ordering value of an attacker kind taking a victim kind.
pub open spec fn mvv_lva_of(att: u8, vic: u8) -> int {
    if 1 <= att <= 6 && 1 <= vic <= 6 {
        MVV_LVA[(att - 1) * 6 + (vic - 1)] as int
    } else {
        0
    }
}

/// Ordering weight of a move: the remembered best move first, then captures
/// by victim and attacker worth, then the depth's killer moves, then quiet
/// moves in enumeration order.
pub open spec fn move_score(
    sq: Seq<u8>,
    m: Mv,
    k0: Option<Mv>,
    k1: Option<Mv>,
    best: Option<Mv>,
) -> int {
    let base: int = if best == Some(m) {
        30000
    } else {
        0
    };
    if m.to < 64 && fen_index(m.to as int) < sq.len() && sq[fen_index(m.to as int)] != 0 {
        let att = if m.from < 64 && fen_index(m.from as int) < sq.len() {
            kind_of_code(sq[fen_index(m.from as int)])
        } else {
            0
        };
        let vic = kind_of_code(sq[fen_index(m.to as int)]);
        base + mvv_lva_of(att, vic) + 10000
    } else if k0 == Some(m) {
        base + 9000
    } else if k1 == Some(m) {
        base + 8000
    } else {
        base
    }
}

/// Index of the first move of greatest ordering weight: the move the
/// orderer tries first among `ms`, ties resolved to the earliest.
pub open spec fn first_max_index(
    sq: Seq<u8>,
    ms: Seq<Mv>,
    k0: Option<Mv>,
    k1: Option<Mv>,
    best: Option<Mv>,
) -> int
    decreases ms.len(),
{
    if ms.len() <= 1 {
        0
    } else {
        let r = first_max_index(sq, ms.drop_first(), k0, k1, best);
        let rr = 1 + if 0 <= r < ms.len() - 1 {
            r
        } else {
            0
        };
        if move_score(sq, ms[0], k0, k1, best) >= move_score(sq, ms[rr], k0, k1, best) {
            0
        } else {
            rr
        }
    }
}

/// `first_max_index` names the earliest move of maximal weight.
pub proof fn lemma_first_max_index(
    sq: Seq<u8>,
    ms: Seq<Mv>,
    k0: Option<Mv>,
    k1: Option<Mv>,
    best: Option<Mv>,
)
    requires
        ms.len() > 0,
    ensures
        0 <= first_max_index(sq, ms, k0, k1, best) < ms.len(),
        forall|j: int|
            0 <= j < ms.len() ==> move_score(sq, #[trigger] ms[j], k0, k1, best) <= move_score(
                sq,
                ms[first_max_index(sq, ms, k0, k1, best)],
                k0,
                k1,
                best,
            ),
        forall|j: int|
            0 <= j < first_max_index(sq, ms, k0, k1, best) ==> move_score(
                sq,
                #[trigger] ms[j],
                k0,
                k1,
                best,
            ) < move_score(sq, ms[first_max_index(sq, ms, k0, k1, best)], k0, k1, best),
    decreases ms.len(),
{
    if ms.len() > 1 {
        let d = ms.drop_first();
        lemma_first_max_index(sq, d, k0, k1, best);
        let rd = first_max_index(sq, d, k0, k1, best);
        let rr = 1 + rd;
        assert(forall|j: int| 1 <= j < ms.len() ==> ms[j] == #[trigger] d[j - 1]);
        let k = first_max_index(sq, ms, k0, k1, best);
        if move_score(sq, ms[0], k0, k1, best) >= move_score(sq, ms[rr], k0, k1, best) {
            assert(k == 0);
            assert forall|j: int| 0 <= j < ms.len() implies move_score(sq, ms[j], k0, k1, best)
                <= move_score(sq, ms[k], k0, k1, best) by {
                if j >= 1 {
                    assert(move_score(sq, d[j - 1], k0, k1, best) <= move_score(
                        sq,
                        d[rd],
                        k0,
                        k1,
                        best,
                    ));
                }
            }
        } else {
            assert(k == rr);
            assert forall|j: int| 0 <= j < ms.len() implies move_score(sq, ms[j], k0, k1, best)
                <= move_score(sq, ms[k], k0, k1, best) by {
                if j >= 1 {
                    assert(move_score(sq, d[j - 1], k0, k1, best) <= move_score(
                        sq,
                        d[rd],
                        k0,
                        k1,
                        best,
                    ));
                }
            }
            assert forall|j: int| 0 <= j < k implies move_score(sq, ms[j], k0, k1, best)
                < move_score(sq, ms[k], k0, k1, best) by {
                if j >= 1 {
                    assert(move_score(sq, d[j - 1], k0, k1, best) < move_score(
                        sq,
                        d[rd],
                        k0,
                        k1,
                        best,
                    ));
                }
            }
        }
    }
}

/// The sequence in which the orderer hands the moves out: repeatedly the
/// earliest remaining move of greatest weight.
pub open spec fn sorted_moves(
    sq: Seq<u8>,
    ms: Seq<Mv>,
    k0: Option<Mv>,
    k1: Option<Mv>,
    best: Option<Mv>,
) -> Seq<Mv>
    decreases ms.len(),
{
    if ms.len() == 0 {
        Seq::<Mv>::empty()
    } else {
        let k = first_max_index(sq, ms, k0, k1, best);
        let kk = if 0 <= k < ms.len() {
            k
        } else {
            0
        };
        seq![ms[kk]] + sorted_moves(sq, ms.remove(kk), k0, k1, best)
    }
}

/// Exec equality between an optional remembered move and a move.
fn same_mv(a: &Option<Mv>, b: &Mv) -> (r: bool)
    ensures
        r == (*a == Some(*b)),
{
    match a {
        None => false,
        Some(x) => *x == *b,
    }
}

/// Exec counterpart of `mvv_lva_of`.
fn mvv_lva_lookup(att: u8, vic: u8) -> (r: i64)
    ensures
        r == mvv_lva_of(att, vic),
{
    if 1 <= att && att <= 6 && 1 <= vic && vic <= 6 {
        MVV_LVA[((att - 1) * 6 + (vic - 1)) as usize]
    } else {
        0
    }
}

/// Exec counterpart of `move_score`.
fn move_score_exec(
    squares: &Vec<u8>,
    m: &Mv,
    k0: &Option<Mv>,
    k1: &Option<Mv>,
    best: &Option<Mv>,
) -> (r: i64)
    requires
        mv_ok(*m),
    ensures
        r == move_score(squares@, *m, *k0, *k1, *best),
{
    let base: i64 = if same_mv(best, m) {
        30000
    } else {
        0
    };
    let ti = fen_index_of(m.to) as usize;
    if ti < squares.len() && squares[ti] != 0 {
        let fi = fen_index_of(m.from) as usize;
        let att = if fi < squares.len() {
            if squares[fi] >= 7 {
                squares[fi] - 6
            } else {
                squares[fi]
            }
        } else {
            0
        };
        let vic = if squares[ti] >= 7 {
            squares[ti] - 6
        } else {
            squares[ti]
        };
        base + mvv_lva_lookup(att, vic) + 10000
    } else if same_mv(k0, m) {
        base + 9000
    } else if same_mv(k1, m) {
        base + 8000
    } else {
        base
    }
}

/// Order the legal moves, strongest estimate first: a permutation of the
/// input, weakly sorted by `move_score`.
pub fn order_moves(
    moves: Vec<Mv>,
    squares: &Vec<u8>,
    k0: Option<Mv>,
    k1: Option<Mv>,
    best: Option<Mv>,
) -> (r: Vec<Mv>)
    requires
        forall|i: int| 0 <= i < moves@.len() ==> mv_ok(#[trigger] moves@[i]),
    ensures
        r@ == sorted_moves(squares@, moves@, k0, k1, best),
        r@.to_multiset() == moves@.to_multiset(),
        r@.len() == moves@.len(),
        forall|i: int| 0 <= i < r@.len() ==> mv_ok(#[trigger] r@[i]),
        forall|a: int, b: int|
            0 <= a <= b < r@.len() ==> move_score(squares@, r@[a], k0, k1, best) >= move_score(
                squares@,
                r@[b],
                k0,
                k1,
                best,
            ),
{
    let ghost orig = moves@;
    let mut rest = moves;
    let mut out: Vec<Mv> = Vec::new();
    while rest.len() > 0
        invariant
            out@ + sorted_moves(squares@, rest@, k0, k1, best) == sorted_moves(
                squares@,
                orig,
                k0,
                k1,
                best,
            ),
            out@.to_multiset().add(rest@.to_multiset()) =~= orig.to_multiset(),
            out@.len() + rest@.len() == orig.len(),
            forall|i: int| 0 <= i < rest@.len() ==> mv_ok(#[trigger] rest@[i]),
            forall|i: int| 0 <= i < out@.len() ==> mv_ok(#[trigger] out@[i]),
            forall|a: int, b: int|
                0 <= a <= b < out@.len() ==> move_score(squares@, out@[a], k0, k1, best)
                    >= move_score(squares@, out@[b], k0, k1, best),
            forall|a: int, b: int|
                0 <= a < out@.len() && 0 <= b < rest@.len() ==> move_score(
                    squares@,
                    out@[a],
                    k0,
                    k1,
                    best,
                ) >= move_score(squares@, rest@[b], k0, k1, best),
        decreases rest@.len(),
    {
        let mut best_idx: usize = 0;
        let mut best_score: i64 = move_score_exec(squares, &rest[0], &k0, &k1, &best);
        let mut k: usize = 1;
        while k < rest.len()
            invariant
                rest@.len() > 0,
                0 <= best_idx < rest@.len(),
                best_idx < k,
                1 <= k <= rest@.len(),
                forall|i: int| 0 <= i < rest@.len() ==> mv_ok(#[trigger] rest@[i]),
                best_score == move_score(squares@, rest@[best_idx as int], k0, k1, best),
                forall|j: int|
                    0 <= j < k ==> best_score >= move_score(
                        squares@,
                        #[trigger] rest@[j],
                        k0,
                        k1,
                        best,
                    ),
                forall|j: int|
                    0 <= j < best_idx ==> move_score(squares@, #[trigger] rest@[j], k0, k1, best)
                        < best_score,
            decreases rest@.len() - k,
        {
            let s = move_score_exec(squares, &rest[k], &k0, &k1, &best);
            if s > best_score {
                best_score = s;
                best_idx = k;
            }
            k = k + 1;
        }
        proof {
            lemma_first_max_index(squares@, rest@, k0, k1, best);
            let kspec = first_max_index(squares@, rest@, k0, k1, best);
            // both indices attain the maximum and everything before each is
            // strictly below it, so they coincide
            assert(move_score(squares@, rest@[kspec], k0, k1, best) == best_score);
            assert(best_idx as int == kspec);
        }
        let ghost pre_out = out@;
        let ghost pre_rest = rest@;
        let m = rest.remove(best_idx);
        out.push(m);
        proof {
            assert(sorted_moves(squares@, pre_rest, k0, k1, best) =~= seq![m] + sorted_moves(
                squares@,
                rest@,
                k0,
                k1,
                best,
            ));
            assert(out@ + sorted_moves(squares@, rest@, k0, k1, best) =~= pre_out + sorted_moves(
                squares@,
                pre_rest,
                k0,
                k1,
                best,
            ));
        }
    }
    proof {
        assert(out@ + sorted_moves(squares@, rest@, k0, k1, best) =~= out@);
    }
    out
}

} // verus!
