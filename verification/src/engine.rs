use vstd::prelude::*;

use crate::model::{
    clamp, mv_ok, KillerPair, Mv, Status, MATE_SCORE, MAX_DEPTH, TOTAL_BOUND,
    WINDOW_BOUND,
};
use crate::eval::{lemma_node_score_bound, parse_fen, parse_fen_bytes};
use crate::rules::{
    apply_move, ascii_string, board_fen, board_from_fen, board_status, claimable_draw,
    legal_moves, spec_apply, spec_claimable, spec_fen, spec_legal, spec_parse_board, spec_status,
};
use crate::search::{
    fold_val, game_value, lemma_game_value_bound, minmax, node_score, plain_minimax, Info,
};
use crate::order::{order_moves, sorted_moves};

verus! {

broadcast use vstd::seq_lib::group_to_multiset_ensures;

// ---------------------------------------------------------------------------
// Move text encoding.
// ---------------------------------------------------------------------------

/// Letter of a promotion piece kind code.
pub open spec fn promo_byte(p: u8) -> u8 {
    if p == 2 {
        110  // 'n'
    } else if p == 3 {
        98  // 'b'
    } else if p == 4 {
        114  // 'r'
    } else if p == 5 {
        113  // 'q'
    } else {
        0
    }
}

/// The compact text of a move: source file and rank, destination file and
/// rank, and the promotion letter if any ("e2e4", "e7e8q").
pub open spec fn move_text_bytes(m: Mv) -> Seq<u8> {
    let base = seq![
        (97 + m.from % 8) as u8,
        (49 + m.from / 8) as u8,
        (97 + m.to % 8) as u8,
        (49 + m.to / 8) as u8,
    ];
    if m.promo == 0 {
        base
    } else {
        base.push(promo_byte(m.promo))
    }
}

/// The move text as characters.
pub open spec fn move_text(m: Mv) -> Seq<char> {
    move_text_bytes(m).map_values(|b: u8| b as char)
}

/// Encode a move in compact move text.
pub fn encode_move(m: &Mv) -> (r: String)
    requires
        mv_ok(*m),
    ensures
        r@ == move_text(*m),
{
    let mut v: Vec<u8> = Vec::new();
    v.push(97 + m.from % 8);
    v.push(49 + m.from / 8);
    v.push(97 + m.to % 8);
    v.push(49 + m.to / 8);
    if m.promo != 0 {
        let pb: u8 = if m.promo == 2 {
            110
        } else if m.promo == 3 {
            98
        } else if m.promo == 4 {
            114
        } else {
            113
        };
        v.push(pb);
    }
    proof {
        assert(v@ =~= move_text_bytes(*m));
    }
    ascii_string(v)
}

// ---------------------------------------------------------------------------
// The root of the search.
// ---------------------------------------------------------------------------

/// The value a root move reports: exactly zero when the resulting position
/// allows a claimable draw, else the negated game value of the child.
pub open spec fn root_fold(b: chess::Board, m: Mv, depth: nat) -> int {
    if spec_claimable(spec_apply(b, m)) {
        0
    } else {
        fold_val(b, m, depth)
    }
}

/// The board a position encoding parses to.
pub open spec fn parsed_board(s: Seq<char>) -> chess::Board {
    spec_parse_board(s).unwrap()
}

/// The decoded placement of a board, as the orderer weighs it.
pub open spec fn board_squares(b: chess::Board) -> Seq<u8> {
    match parse_fen(spec_fen(b)) {
        Some(r) => r.0,
        None => Seq::<u8>::empty(),
    }
}

/// Index of the first move of greatest root fold among `ms`: the root keeps
/// the earliest of equally valued moves, so the first in the orderer's
/// output wins ties.
pub open spec fn first_root_choice(b: chess::Board, ms: Seq<Mv>, depth: nat) -> int
    decreases ms.len(),
{
    if ms.len() <= 1 {
        0
    } else {
        let r = first_root_choice(b, ms.drop_first(), depth);
        let rr = 1 + if 0 <= r < ms.len() - 1 {
            r
        } else {
            0
        };
        if root_fold(b, ms[0], depth) >= root_fold(b, ms[rr], depth) {
            0
        } else {
            rr
        }
    }
}

/// `first_root_choice` names the earliest move of maximal root fold.
pub proof fn lemma_first_root_choice(b: chess::Board, ms: Seq<Mv>, depth: nat)
    requires
        ms.len() > 0,
    ensures
        0 <= first_root_choice(b, ms, depth) < ms.len(),
        forall|j: int|
            0 <= j < ms.len() ==> root_fold(b, #[trigger] ms[j], depth) <= root_fold(
                b,
                ms[first_root_choice(b, ms, depth)],
                depth,
            ),
        forall|j: int|
            0 <= j < first_root_choice(b, ms, depth) ==> root_fold(b, #[trigger] ms[j], depth)
                < root_fold(b, ms[first_root_choice(b, ms, depth)], depth),
    decreases ms.len(),
{
    if ms.len() > 1 {
        let d = ms.drop_first();
        lemma_first_root_choice(b, d, depth);
        let rd = first_root_choice(b, d, depth);
        let rr = 1 + rd;
        assert(forall|j: int| 1 <= j < ms.len() ==> ms[j] == #[trigger] d[j - 1]);
        let k = first_root_choice(b, ms, depth);
        if root_fold(b, ms[0], depth) >= root_fold(b, ms[rr], depth) {
            assert(k == 0);
            assert forall|j: int| 0 <= j < ms.len() implies root_fold(b, ms[j], depth)
                <= root_fold(b, ms[k], depth) by {
                if j >= 1 {
                    assert(root_fold(b, d[j - 1], depth) <= root_fold(b, d[rd], depth));
                }
            }
        } else {
            assert(k == rr);
            assert forall|j: int| 0 <= j < ms.len() implies root_fold(b, ms[j], depth)
                <= root_fold(b, ms[k], depth) by {
                if j >= 1 {
                    assert(root_fold(b, d[j - 1], depth) <= root_fold(b, d[rd], depth));
                }
            }
            assert forall|j: int| 0 <= j < k implies root_fold(b, ms[j], depth) < root_fold(
                b,
                ms[k],
                depth,
            ) by {
                if j >= 1 {
                    assert(root_fold(b, d[j - 1], depth) < root_fold(b, d[rd], depth));
                }
            }
        }
    }
}

/// The move one root pass chooses, pinned down completely: the legal moves
/// are ordered by the move orderer under the given killer pair and
/// remembered best move, and the earliest ordered move of maximal root fold
/// wins.
pub open spec fn root_choice(b: chess::Board, depth: nat, kp: KillerPair, best: Option<Mv>) -> Mv {
    let oms = sorted_moves(board_squares(b), spec_legal(b), kp.slot0, kp.slot1, best);
    oms[first_root_choice(b, oms, depth)]
}

/// The move a fixed-depth search from fresh memory chooses: a function of
/// the position and the depth alone, which is what makes the fixed-depth
/// search deterministic.
pub open spec fn fixed_depth_choice(b: chess::Board, depth: nat) -> Mv {
    root_choice(b, depth, KillerPair { slot0: None, slot1: None }, None)
}

/// The move the driver has committed after fully completing passes
/// 1 through `d` from fresh memory.  Each pass orders the root moves with
/// its depth's still-empty killer slots, seeded by the previous pass's
/// choice, so the committed move is a function of the position and the
/// completed depth alone.
pub open spec fn committed_choice(b: chess::Board, d: nat) -> Mv
    decreases d,
{
    if d <= 1 {
        root_choice(b, 1, KillerPair { slot0: None, slot1: None }, None)
    } else {
        root_choice(
            b,
            d,
            KillerPair { slot0: None, slot1: None },
            Some(committed_choice(b, (d - 1) as nat)),
        )
    }
}

/// `v` dominates the root fold of every legal move at depth `d`.
pub open spec fn root_max_at(b: chess::Board, d: nat, v: int) -> bool {
    forall|j: int|
        0 <= j < spec_legal(b).len() ==> root_fold(b, #[trigger] spec_legal(b)[j], d) <= v
}

/// A move the driver can answer with: the first legal move (the fallback
/// when the deadline fires before any pass completes) or the committed
/// choice of some fully completed pass.
pub open spec fn driver_choice(b: chess::Board, m: Mv) -> bool {
    m == spec_legal(b)[0] || exists|d: int|
        1 <= d <= MAX_DEPTH && m == #[trigger] committed_choice(b, d as nat)
}

/// What the engine's answer text means: it encodes a legal move of the
/// position, that move is a committed pass's choice or the fallback first
/// legal move, and — unless it is the never-searched fallback — the rules
/// engine makes a different position of it.
pub open spec fn engine_answer(b: chess::Board, s: Seq<char>) -> bool {
    exists|m: Mv| #[trigger]
        spec_legal(b).contains(m) && s == move_text(m) && driver_choice(b, m) && (m
            == spec_legal(b)[0] || spec_fen(spec_apply(b, m)) != spec_fen(b))
}

/// One full-width root pass at a fixed depth.  `None` exactly when the
/// deadline fired during the pass; otherwise the result is a legal move
/// whose reported value is the maximum root fold at this depth.
fn search_depth(board: &chess::Board, depth: usize, info: &mut Info) -> (r: Option<(i64, Mv)>)
    requires
        old(info).wf(),
        1 <= depth <= MAX_DEPTH,
        spec_legal(*board).len() > 0,
    ensures
        final(info).wf(),
        final(info).best_move == old(info).best_move,
        final(info).best_value == old(info).best_value,
        final(info).budget_ms == old(info).budget_ms,
        final(info).timer == old(info).timer,
        old(info).search_stop ==> final(info).search_stop,
        old(info).budget_ms is None && !old(info).search_stop ==> !final(info).search_stop,
        forall|i: int|
            depth <= i < old(info).killers@.len() ==> #[trigger] final(info).killers@[i] == old(
                info,
            ).killers@[i],
        (r is Some) == !final(info).search_stop,
        r matches Some(p) ==> spec_fen(spec_apply(*board, p.1)) != spec_fen(*board),
        r matches Some(p) ==> spec_legal(*board).contains(p.1) && mv_ok(p.1) && p.0 == root_fold(
            *board,
            p.1,
            depth as nat,
        ) && forall|j: int|
            0 <= j < spec_legal(*board).len() ==> root_fold(
                *board,
                #[trigger] spec_legal(*board)[j],
                depth as nat,
            ) <= p.0,
        r matches Some(p) ==> p.1 == root_choice(
            *board,
            depth as nat,
            old(info).killers@[depth as int],
            old(info).best_move,
        ),
{
    if info.search_stop {
        return None;
    }
    let moves = legal_moves(board);
    let fenv = board_fen(board);
    let rep = parse_fen_bytes(&fenv);
    let kp = info.killers[depth];
    let empty_squares: Vec<u8> = Vec::new();
    let oms = match &rep {
        Some(rp) => order_moves(moves, &rp.squares, kp.slot0, kp.slot1, info.best_move),
        None => order_moves(moves, &empty_squares, kp.slot0, kp.slot1, info.best_move),
    };
    let ghost legal = spec_legal(*board);
    proof {
        assert(oms@ == sorted_moves(
            board_squares(*board),
            legal,
            kp.slot0,
            kp.slot1,
            old(info).best_move,
        ));
    }
    let mut best_v: i64 = 0;
    let mut best_m: Mv = oms[0];
    let mut have = false;
    let ghost mut ci: int = 0;
    let mut i: usize = 0;
    while i < oms.len()
        invariant
            info.wf(),
            !info.search_stop,
            old(info).search_stop == false,
            info.best_move == old(info).best_move,
            info.best_value == old(info).best_value,
            info.budget_ms == old(info).budget_ms,
            info.timer == old(info).timer,
            forall|i: int|
                depth <= i < old(info).killers@.len() ==> #[trigger] info.killers@[i] == old(
                    info,
                ).killers@[i],
            info.killers@.len() == old(info).killers@.len(),
            1 <= depth <= MAX_DEPTH,
            legal == spec_legal(*board),
            legal.len() > 0,
            oms@.to_multiset() == legal.to_multiset(),
            oms@.len() == legal.len(),
            forall|j: int| 0 <= j < oms@.len() ==> mv_ok(#[trigger] oms@[j]),
            0 <= i <= oms@.len(),
            have == (i > 0),
            have ==> legal.contains(best_m) && mv_ok(best_m) && best_v == root_fold(
                *board,
                best_m,
                depth as nat,
            ),
            have ==> 0 <= ci < i && best_m == oms@[ci],
            have ==> spec_fen(spec_apply(*board, best_m)) != spec_fen(*board),
            forall|j: int|
                0 <= j < ci ==> root_fold(*board, #[trigger] oms@[j], depth as nat) < best_v,
            forall|j: int|
                0 <= j < i ==> root_fold(*board, #[trigger] oms@[j], depth as nat) <= best_v,
        decreases oms@.len() - i,
    {
        let m = oms[i];
        proof {
            oms@.to_multiset_ensures();
            legal.to_multiset_ensures();
            assert(oms@.contains(m));
            assert(oms@.to_multiset().count(m) > 0);
            assert(legal.to_multiset().count(m) > 0);
            assert(legal.contains(m));
        }
        let child = apply_move(board, &m);
        let out: i64;
        if claimable_draw(&child) {
            out = 0;
        } else {
            let rc = minmax(&child, depth - 1, -WINDOW_BOUND, WINDOW_BOUND, info);
            if info.search_stop {
                return None;
            }
            proof {
                lemma_game_value_bound(spec_apply(*board, m), (depth - 1) as nat);
                assert(rc == game_value(spec_apply(*board, m), (depth - 1) as nat));
            }
            out = -rc;
        }
        if !have || out > best_v {
            have = true;
            best_v = out;
            best_m = m;
            proof {
                ci = i as int;
            }
        }
        i = i + 1;
    }
    proof {
        lemma_first_root_choice(*board, oms@, depth as nat);
        let kspec = first_root_choice(*board, oms@, depth as nat);
        assert(root_fold(*board, oms@[kspec], depth as nat) == best_v);
        assert(ci == kspec);
        assert(best_m == root_choice(
            *board,
            depth as nat,
            old(info).killers@[depth as int],
            old(info).best_move,
        ));
    }
    proof {
        assert forall|j: int| 0 <= j < legal.len() implies root_fold(
            *board,
            #[trigger] legal[j],
            depth as nat,
        ) <= best_v by {
            oms@.to_multiset_ensures();
            legal.to_multiset_ensures();
            assert(legal.contains(legal[j]));
            assert(legal.to_multiset().count(legal[j]) > 0);
            assert(oms@.to_multiset().count(legal[j]) > 0);
            assert(oms@.contains(legal[j]));
            let k = choose|k: int| 0 <= k < oms@.len() && oms@[k] == legal[j];
            assert(root_fold(*board, oms@[k], depth as nat) <= best_v);
        }
    }
    Some((best_v, best_m))
}

/// Iterative deepening: one pass per depth until the deadline fires,
/// committing the result of each fully completed pass.  It starts from
/// fresh search memory.  The answer is always a legal move: the committed
/// choice of the last fully completed pass, carrying that pass's exact
/// maximal root value, or the first legal move when the deadline fired
/// before any pass completed.  Without a time budget there is no deadline,
/// every pass completes, and the answer is the deepest pass's.
pub fn search_root(board: &chess::Board, info: &mut Info) -> (r: (i64, Mv))
    requires
        old(info).wf(),
        !old(info).search_stop,
        old(info).best_move is None,
        forall|i: int|
            0 <= i < old(info).killers@.len() ==> #[trigger] old(info).killers@[i] == (KillerPair {
                slot0: None,
                slot1: None,
            }),
        spec_legal(*board).len() > 0,
    ensures
        final(info).wf(),
        spec_legal(*board).contains(r.1),
        mv_ok(r.1),
        old(info).budget_ms is None ==> !final(info).search_stop,
        (r.1 == spec_legal(*board)[0] && r.0 == 0) || exists|d: int|
            1 <= d <= MAX_DEPTH && r.1 == #[trigger] committed_choice(*board, d as nat) && r.0
                == root_fold(*board, r.1, d as nat) && root_max_at(*board, d as nat, r.0 as int)
                && spec_fen(spec_apply(*board, r.1)) != spec_fen(*board),
        !final(info).search_stop ==> r.1 == committed_choice(*board, MAX_DEPTH as nat) && r.0
            == root_fold(*board, r.1, MAX_DEPTH as nat) && root_max_at(
            *board,
            MAX_DEPTH as nat,
            r.0 as int,
        ) && spec_fen(spec_apply(*board, r.1)) != spec_fen(*board),
{
    let moves = legal_moves(board);
    proof {
        assert(spec_legal(*board).contains(spec_legal(*board)[0]));
    }
    let mut committed_v: i64 = 0;
    let mut committed_m: Mv = moves[0];
    let mut depth: usize = 1;
    while depth <= MAX_DEPTH
        invariant
            info.wf(),
            info.killers@.len() == old(info).killers@.len(),
            info.budget_ms == old(info).budget_ms,
            !info.search_stop,
            1 <= depth <= MAX_DEPTH + 1,
            spec_legal(*board).len() > 0,
            spec_legal(*board).contains(committed_m),
            mv_ok(committed_m),
            forall|i: int|
                depth <= i < info.killers@.len() ==> #[trigger] info.killers@[i] == (KillerPair {
                    slot0: None,
                    slot1: None,
                }),
            depth == 1 ==> info.best_move is None && committed_m == spec_legal(*board)[0]
                && committed_v == 0,
            depth > 1 ==> info.best_move == Some(committed_m) && committed_m == committed_choice(
                *board,
                (depth - 1) as nat,
            ) && committed_v == root_fold(*board, committed_m, (depth - 1) as nat) && root_max_at(
                *board,
                (depth - 1) as nat,
                committed_v as int,
            ) && spec_fen(spec_apply(*board, committed_m)) != spec_fen(*board),
        decreases MAX_DEPTH + 1 - depth,
    {
        let ghost pre = *info;
        let res = search_depth(board, depth, info);
        match res {
            Some(p) => {
                proof {
                    assert(pre.killers@[depth as int] == (KillerPair {
                        slot0: None,
                        slot1: None,
                    }));
                    assert(p.1 == committed_choice(*board, depth as nat));
                }
                committed_v = p.0;
                committed_m = p.1;
                info.update_best(p.1, p.0);
                depth = depth + 1;
            },
            None => {
                proof {
                    if depth > 1 {
                        let ghost d = depth - 1;
                        assert(1 <= d <= MAX_DEPTH && committed_m == committed_choice(
                            *board,
                            d as nat,
                        ) && committed_v == root_fold(*board, committed_m, d as nat)
                            && root_max_at(*board, d as nat, committed_v as int) && spec_fen(
                            spec_apply(*board, committed_m),
                        ) != spec_fen(*board));
                    }
                }
                return (committed_v, committed_m);
            },
        }
    }
    proof {
        let ghost d = MAX_DEPTH as int;
        assert(1 <= d <= MAX_DEPTH && committed_m == committed_choice(*board, d as nat)
            && committed_v == root_fold(*board, committed_m, d as nat) && root_max_at(
            *board,
            d as nat,
            committed_v as int,
        ) && spec_fen(spec_apply(*board, committed_m)) != spec_fen(*board));
    }
    (committed_v, committed_m)
}

// ---------------------------------------------------------------------------
// The public face of the engine.
// ---------------------------------------------------------------------------

/// Compute the engine's move for a position encoding, within the default
/// time budget of three seconds.  The input must be a well-formed position
/// with at least one legal move; the result is the compact text of a legal
/// move of that position, and of no arbitrary one: it is a committed
/// pass's choice — a function of the position and the deepest fully
/// completed depth — or the first legal move when the deadline beat even
/// the first pass.
pub fn make_move(fen: &str) -> (r: String)
    requires
        spec_parse_board(fen@) is Some,
        spec_legal(parsed_board(fen@)).len() > 0,
    ensures
        engine_answer(parsed_board(fen@), r@),
{
    match board_from_fen(fen) {
        Some(board) => {
            let mut info = Info::init(Some(3000));
            let rr = search_root(&board, &mut info);
            let s = encode_move(&rr.1);
            proof {
                lemma_answer_from_root(board, rr.0, rr.1, s@);
            }
            s
        },
        None => vstd::pervasive::unreached(),
    }
}

/// Folds `search_root`'s result clauses into `engine_answer`.
proof fn lemma_answer_from_root(b: chess::Board, v: i64, m: Mv, s: Seq<char>)
    requires
        spec_legal(b).contains(m),
        s == move_text(m),
        (m == spec_legal(b)[0] && v == 0) || exists|d: int|
            1 <= d <= MAX_DEPTH && m == #[trigger] committed_choice(b, d as nat) && v
                == root_fold(b, m, d as nat) && root_max_at(b, d as nat, v as int) && spec_fen(
                spec_apply(b, m),
            ) != spec_fen(b),
    ensures
        engine_answer(b, s),
{
    if !(m == spec_legal(b)[0] && v == 0) {
        let d = choose|d: int|
            1 <= d <= MAX_DEPTH && m == #[trigger] committed_choice(b, d as nat) && v
                == root_fold(b, m, d as nat) && root_max_at(b, d as nat, v as int) && spec_fen(
                spec_apply(b, m),
            ) != spec_fen(b);
        assert(1 <= d <= MAX_DEPTH && m == committed_choice(b, d as nat));
        assert(driver_choice(b, m));
    }
    assert(spec_legal(b).contains(m) && s == move_text(m) && driver_choice(b, m) && (m
        == spec_legal(b)[0] || spec_fen(spec_apply(b, m)) != spec_fen(b)));
}

/// Compute the engine's move if the input parses to a position with a legal
/// move, and report failure otherwise.
pub fn try_make_move(fen: &str) -> (r: Option<String>)
    ensures
        (r is Some) == (spec_parse_board(fen@) is Some && spec_legal(parsed_board(fen@)).len()
            > 0),
        r matches Some(s) ==> engine_answer(parsed_board(fen@), s@),
{
    match board_from_fen(fen) {
        None => None,
        Some(board) => {
            let moves = legal_moves(&board);
            if moves.len() == 0 {
                None
            } else {
                Some(make_move(fen))
            }
        },
    }
}

/// Compute the engine's move within a caller-chosen time budget in
/// milliseconds.  However small the budget, a position with a legal move
/// gets a legal move back: a committed pass's choice, or the first legal
/// move when the deadline beat even the first pass.
pub fn timed_move(fen: &str, budget_ms: u64) -> (r: Option<String>)
    ensures
        (r is Some) == (spec_parse_board(fen@) is Some && spec_legal(parsed_board(fen@)).len()
            > 0),
        r matches Some(s) ==> engine_answer(parsed_board(fen@), s@),
{
    match board_from_fen(fen) {
        None => None,
        Some(board) => {
            let moves = legal_moves(&board);
            if moves.len() == 0 {
                None
            } else {
                let mut info = Info::init(Some(budget_ms));
                let rr = search_root(&board, &mut info);
                let s = encode_move(&rr.1);
                proof {
                    lemma_answer_from_root(board, rr.0, rr.1, s@);
                }
                Some(s)
            }
        },
    }
}

/// Search a position to an exact fixed depth with no deadline.  The result
/// carries the chosen legal move's text and its value, which is the maximum
/// root fold over all legal moves at that depth.  The whole answer is
/// pinned as a function of the position and depth alone — repeated calls
/// must agree.
pub fn search_at_depth(fen: &str, depth: usize) -> (r: Option<(i64, String)>)
    ensures
        (r is Some) == (spec_parse_board(fen@) is Some && spec_legal(parsed_board(fen@)).len()
            > 0 && 1 <= depth <= MAX_DEPTH),
        r matches Some(p) ==> spec_legal(parsed_board(fen@)).contains(
            fixed_depth_choice(parsed_board(fen@), depth as nat),
        ) && p.1@ == move_text(fixed_depth_choice(parsed_board(fen@), depth as nat)) && p.0
            == root_fold(
            parsed_board(fen@),
            fixed_depth_choice(parsed_board(fen@), depth as nat),
            depth as nat,
        ) && spec_fen(
            spec_apply(parsed_board(fen@), fixed_depth_choice(parsed_board(fen@), depth as nat)),
        ) != spec_fen(parsed_board(fen@)),
        r matches Some(p) ==> forall|j: int|
            0 <= j < spec_legal(parsed_board(fen@)).len() ==> root_fold(
                parsed_board(fen@),
                #[trigger] spec_legal(parsed_board(fen@))[j],
                depth as nat,
            ) <= p.0,
{
    if depth < 1 || depth > MAX_DEPTH {
        return None;
    }
    match board_from_fen(fen) {
        None => None,
        Some(board) => {
            let moves = legal_moves(&board);
            if moves.len() == 0 {
                None
            } else {
                let mut info = Info::init(None);
                proof {
                    assert(info.killers@[depth as int] == (KillerPair {
                        slot0: None,
                        slot1: None,
                    }));
                }
                match search_depth(&board, depth, &mut info) {
                    Some(p) => {
                        let s = encode_move(&p.1);
                        proof {
                            assert(p.1 == fixed_depth_choice(parsed_board(fen@), depth as nat));
                            assert(spec_legal(parsed_board(fen@)).contains(p.1) && s@
                                == move_text(p.1) && p.0 == root_fold(
                                parsed_board(fen@),
                                p.1,
                                depth as nat,
                            ));
                        }
                        Some((p.0, s))
                    },
                    None => vstd::pervasive::unreached(),
                }
            }
        },
    }
}

/// Alpha-beta value of a position at a fixed depth, full window, no
/// deadline: provably the unpruned negamax value.
pub fn alpha_beta_value(fen: &str, depth: usize) -> (r: Option<i64>)
    ensures
        (r is Some) == (spec_parse_board(fen@) is Some && depth <= MAX_DEPTH),
        r matches Some(v) ==> v == game_value(parsed_board(fen@), depth as nat),
{
    if depth > MAX_DEPTH {
        return None;
    }
    match board_from_fen(fen) {
        None => None,
        Some(board) => {
            let mut info = Info::init(None);
            let rc = minmax(&board, depth, -WINDOW_BOUND, WINDOW_BOUND, &mut info);
            proof {
                lemma_game_value_bound(spec_parse_board(fen@).unwrap(), depth as nat);
            }
            Some(rc)
        },
    }
}

/// Unpruned full-width negamax value of a position at a fixed depth.
pub fn minimax_value(fen: &str, depth: usize) -> (r: Option<i64>)
    ensures
        (r is Some) == (spec_parse_board(fen@) is Some),
        r matches Some(v) ==> v == game_value(parsed_board(fen@), depth as nat),
{
    match board_from_fen(fen) {
        None => None,
        Some(board) => Some(plain_minimax(&board, depth)),
    }
}

/// Static evaluation of a position, from the side to move's perspective.
pub fn static_eval(fen: &str) -> (r: Option<i64>)
    ensures
        (r is Some) == (spec_parse_board(fen@) is Some),
        r matches Some(v) ==> v == node_score(parsed_board(fen@)),
{
    match board_from_fen(fen) {
        None => None,
        Some(board) => {
            let st = board_status(&board);
            let fenv = board_fen(&board);
            let rep = parse_fen_bytes(&fenv);
            proof {
                if parse_fen(spec_fen(board)) is Some {
                    crate::eval::lemma_parse_squares_ok(spec_fen(board));
                }
            }
            Some(crate::eval::eval_board(&rep, st))
        },
    }
}

// ---------------------------------------------------------------------------
// Laws of the search.
// ---------------------------------------------------------------------------

/// Alpha-beta equivalence: the full window holds every reachable score, so
/// the fail-hard alpha-beta result — `game_value` folded into the window,
/// by `minmax`'s contract — is exactly the unpruned negamax value.
pub proof fn lemma_alpha_beta_equivalence(b: chess::Board, depth: nat)
    ensures
        clamp(-WINDOW_BOUND as int, WINDOW_BOUND as int, game_value(b, depth)) == game_value(
            b,
            depth,
        ),
{
    lemma_game_value_bound(b, depth);
}

/// Depth-one folds are static evaluation: at depth one a root move's value
/// is the negated static score of the position it reaches (or zero for a
/// claimable draw), so the depth-one choice maximises static evaluation.
pub proof fn lemma_depth_one_static(b: chess::Board, m: Mv)
    ensures
        root_fold(b, m, 1) == if spec_claimable(spec_apply(b, m)) {
            0
        } else {
            -node_score(spec_apply(b, m))
        },
{
}

/// Checkmate detection: when some legal move reaches a position the rules
/// engine reports checkmated (and that is no claimable draw), any root
/// choice attaining the maximum fold carries the mate score's magnitude;
/// and at depth one the chosen move itself delivers mate.
pub proof fn lemma_mate_in_one(b: chess::Board, m: Mv, depth: nat, v: int, chosen: Mv)
    requires
        depth >= 1,
        spec_legal(b).contains(m),
        spec_status(spec_apply(b, m)) == Status::Checkmate,
        !spec_claimable(spec_apply(b, m)),
        spec_legal(spec_apply(b, m)).len() == 0,
        v == root_fold(b, chosen, depth),
        forall|j: int|
            0 <= j < spec_legal(b).len() ==> root_fold(b, #[trigger] spec_legal(b)[j], depth)
                <= v,
    ensures
        v >= MATE_SCORE - TOTAL_BOUND,
        depth == 1 ==> !spec_claimable(spec_apply(b, chosen)) && spec_status(
            spec_apply(b, chosen),
        ) == Status::Checkmate,
{
    let child = spec_apply(b, m);
    let j = choose|j: int| 0 <= j < spec_legal(b).len() && spec_legal(b)[j] == m;
    lemma_node_score_bound(parse_fen(spec_fen(child)), spec_status(child));
    assert(game_value(child, (depth - 1) as nat) == node_score(child));
    assert(root_fold(b, m, depth) >= MATE_SCORE - TOTAL_BOUND);
    if depth == 1 {
        let cc = spec_apply(b, chosen);
        lemma_node_score_bound(parse_fen(spec_fen(cc)), spec_status(cc));
    }
}

} // verus!
