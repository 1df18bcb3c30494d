use vstd::prelude::*;

use crate::eval::{
    eval_board, lemma_node_score_bound, lemma_parse_squares_ok, node_score_rep, parse_fen,
    parse_fen_bytes,
};
use crate::model::{
    clamp, fen_index_of, lemma_clamp_neg, mv_ok, rep_opt_view, KillerPair, Mv, Status, MAX_DEPTH,
    SCORE_BOUND, VALUE_FLOOR, WINDOW_BOUND,
};
use crate::order::order_moves;
use crate::rules::{
    apply_move, board_fen, board_status, duration_millis, instant_elapsed, instant_now,
    legal_moves, spec_apply, spec_fen, spec_legal, spec_status,
};

verus! {

broadcast use vstd::seq_lib::group_to_multiset_ensures;

// ---------------------------------------------------------------------------
// The value of the game tree: the unpruned negamax reference that both
// searches are proved against.
// ---------------------------------------------------------------------------

/// Static score of a position as the search sees it at a frontier or
/// terminal node.
pub open spec fn node_score(b: chess::Board) -> int {
    node_score_rep(parse_fen(spec_fen(b)), spec_status(b))
}

/// Stalemate scores zero: a position the rules engine reports stalemated
/// evaluates to a draw at the terminal node, whatever stands on the board
/// and at every search depth (a stalemate has no legal move).
pub proof fn lemma_stalemate_zero(b: chess::Board, depth: nat)
    requires
        spec_status(b) == Status::Stalemate,
    ensures
        node_score(b) == 0,
        spec_legal(b).len() == 0 ==> game_value(b, depth) == 0,
{
}

/// Negamax value of a position at a given depth: the static score at the
/// frontier or when no move exists, else the best negated child value.
pub open spec fn game_value(b: chess::Board, depth: nat) -> int
    decreases depth, spec_legal(b).len() + 1,
{
    if depth == 0 || spec_legal(b).len() == 0 {
        node_score(b)
    } else {
        best_val(b, spec_legal(b), depth)
    }
}

/// Maximum over `ms` of the values their children fold back to the mover at
/// `depth`; `VALUE_FLOOR` when `ms` is empty.
pub open spec fn best_val(b: chess::Board, ms: Seq<Mv>, depth: nat) -> int
    decreases depth, ms.len(),
{
    if depth == 0 || ms.len() == 0 {
        VALUE_FLOOR as int
    } else {
        let last = -game_value(spec_apply(b, ms.last()), (depth - 1) as nat);
        let rest = best_val(b, ms.drop_last(), depth);
        if rest >= last {
            rest
        } else {
            last
        }
    }
}

/// The value a move's child folds back to the mover searching at `depth`.
pub open spec fn fold_val(b: chess::Board, m: Mv, depth: nat) -> int {
    -game_value(spec_apply(b, m), (depth - 1) as nat)
}

/// What one alpha-beta call returns when it is not aborted: at a frontier
/// node (depth zero) or a terminal node (no legal move) the raw static
/// score, else the fail-hard result — the true negamax value folded into
/// the window.
pub open spec fn minmax_post(b: chess::Board, depth: nat, alpha: int, beta: int) -> int {
    if depth == 0 || spec_legal(b).len() == 0 {
        node_score(b)
    } else {
        clamp(alpha, beta, game_value(b, depth))
    }
}

/// Game-tree values never leave the score range.
pub proof fn lemma_game_value_bound(b: chess::Board, depth: nat)
    ensures
        -(SCORE_BOUND as int) <= game_value(b, depth) <= SCORE_BOUND as int,
    decreases depth, spec_legal(b).len() + 1,
{
    if depth == 0 || spec_legal(b).len() == 0 {
        lemma_node_score_bound(parse_fen(spec_fen(b)), spec_status(b));
    } else {
        lemma_best_val_bound(b, spec_legal(b), depth);
    }
}

proof fn lemma_best_val_bound(b: chess::Board, ms: Seq<Mv>, depth: nat)
    requires
        depth > 0,
        ms.len() > 0,
    ensures
        -(SCORE_BOUND as int) <= best_val(b, ms, depth) <= SCORE_BOUND as int,
    decreases depth, ms.len(),
{
    lemma_game_value_bound(spec_apply(b, ms.last()), (depth - 1) as nat);
    if ms.len() > 1 {
        lemma_best_val_bound(b, ms.drop_last(), depth);
    } else {
        assert(best_val(b, ms.drop_last(), depth) == VALUE_FLOOR as int);
    }
}

/// The best value dominates every single move's folded value.
pub proof fn lemma_best_val_ge(b: chess::Board, ms: Seq<Mv>, depth: nat, i: int)
    requires
        depth > 0,
        0 <= i < ms.len(),
    ensures
        best_val(b, ms, depth) >= fold_val(b, ms[i], depth),
    decreases ms.len(),
{
    if i < ms.len() - 1 {
        lemma_best_val_ge(b, ms.drop_last(), depth, i);
        assert(ms.drop_last()[i] == ms[i]);
    }
}

/// The best value is attained by some move.
pub proof fn lemma_best_val_attained(b: chess::Board, ms: Seq<Mv>, depth: nat)
    requires
        depth > 0,
        ms.len() > 0,
    ensures
        exists|i: int|
            0 <= i < ms.len() && best_val(b, ms, depth) == fold_val(b, #[trigger] ms[i], depth),
    decreases ms.len(),
{
    if ms.len() == 1 {
        assert(best_val(b, ms.drop_last(), depth) == VALUE_FLOOR as int);
        lemma_game_value_bound(spec_apply(b, ms.last()), (depth - 1) as nat);
        assert(best_val(b, ms, depth) == fold_val(b, ms[0], depth));
    } else {
        let rest = best_val(b, ms.drop_last(), depth);
        let last = fold_val(b, ms.last(), depth);
        if rest >= last {
            lemma_best_val_attained(b, ms.drop_last(), depth);
            let i = choose|i: int|
                0 <= i < ms.drop_last().len() && best_val(b, ms.drop_last(), depth) == fold_val(
                    b,
                    ms.drop_last()[i],
                    depth,
                );
            assert(ms[i] == ms.drop_last()[i]);
        } else {
            assert(best_val(b, ms, depth) == fold_val(b, ms[ms.len() - 1], depth));
        }
    }
}

/// The best value depends on the moves alone, not their order: equal
/// multisets give equal values.
pub proof fn lemma_best_val_perm(b: chess::Board, s1: Seq<Mv>, s2: Seq<Mv>, depth: nat)
    requires
        depth > 0,
        s1.to_multiset() == s2.to_multiset(),
    ensures
        best_val(b, s1, depth) == best_val(b, s2, depth),
{
    s1.to_multiset_ensures();
    s2.to_multiset_ensures();
    assert(s1.len() == s2.len());
    if s1.len() > 0 {
        lemma_best_val_attained(b, s1, depth);
        let i = choose|i: int|
            0 <= i < s1.len() && best_val(b, s1, depth) == fold_val(b, #[trigger] s1[i], depth);
        assert(s1.contains(s1[i]));
        assert(s1.to_multiset().count(s1[i]) > 0);
        assert(s2.to_multiset().count(s1[i]) > 0);
        assert(s2.contains(s1[i]));
        let j = choose|j: int| 0 <= j < s2.len() && s2[j] == s1[i];
        lemma_best_val_ge(b, s2, depth, j);
        lemma_best_val_attained(b, s2, depth);
        let i2 = choose|i2: int|
            0 <= i2 < s2.len() && best_val(b, s2, depth) == fold_val(b, #[trigger] s2[i2], depth);
        assert(s2.contains(s2[i2]));
        assert(s2.to_multiset().count(s2[i2]) > 0);
        assert(s1.to_multiset().count(s2[i2]) > 0);
        assert(s1.contains(s2[i2]));
        let j2 = choose|j2: int| 0 <= j2 < s1.len() && s1[j2] == s2[i2];
        lemma_best_val_ge(b, s1, depth, j2);
    }
}

// ---------------------------------------------------------------------------
// Search memory: killer table, remembered best move, node counter, clock.
// ---------------------------------------------------------------------------

/// Mutable memory of one search: the killer table indexed by depth, the best
/// root move and value committed so far, a node counter, and the deadline
/// (a start instant and a time budget; no budget means no deadline).  The
/// node counter is diagnostic only: it grows by one per node visited and
/// saturates rather than wraps.
pub struct Info {
    pub killers: Vec<KillerPair>,
    pub best_move: Option<Mv>,
    pub best_value: i64,
    pub nodes: u64,
    pub timer: std::time::Instant,
    pub budget_ms: Option<u64>,
    pub search_stop: bool,
}

impl Info {
    /// The killer table is sized to every depth the driver may reach.
    pub open spec fn wf(self) -> bool {
        self.killers@.len() == MAX_DEPTH + 1
    }

    /// Fresh search memory: empty killer slots, no best move, the clock
    /// started now.
    pub fn init(budget_ms: Option<u64>) -> (r: Info)
        ensures
            r.wf(),
            r.best_move is None,
            r.search_stop == false,
            r.nodes == 0,
            r.budget_ms == budget_ms,
            forall|i: int|
                0 <= i < r.killers@.len() ==> #[trigger] r.killers@[i] == (KillerPair {
                    slot0: None,
                    slot1: None,
                }),
    {
        let mut killers: Vec<KillerPair> = Vec::new();
        while killers.len() < MAX_DEPTH + 1
            invariant
                killers@.len() <= MAX_DEPTH + 1,
                forall|i: int|
                    0 <= i < killers@.len() ==> #[trigger] killers@[i] == (KillerPair {
                        slot0: None,
                        slot1: None,
                    }),
            decreases MAX_DEPTH + 1 - killers@.len(),
        {
            killers.push(KillerPair { slot0: None, slot1: None });
        }
        Info {
            killers,
            best_move: None,
            best_value: 0,
            nodes: 0,
            timer: instant_now(),
            budget_ms,
            search_stop: false,
        }
    }

    /// Record a quiet cutoff move: the previous slot-0 killer moves to slot
    /// 1 and the new move takes slot 0; the table never grows.
    pub fn update_killer(&mut self, depth: usize, m: Mv)
        requires
            old(self).wf(),
            depth <= MAX_DEPTH,
        ensures
            final(self).wf(),
            final(self).killers@[depth as int].slot0 == Some(m),
            final(self).killers@[depth as int].slot1 == old(self).killers@[depth as int].slot0,
            forall|i: int|
                0 <= i < old(self).killers@.len() && i != depth
                    ==> #[trigger] final(self).killers@[i] == old(self).killers@[i],
            final(self).best_move == old(self).best_move,
            final(self).best_value == old(self).best_value,
            final(self).nodes == old(self).nodes,
            final(self).timer == old(self).timer,
            final(self).budget_ms == old(self).budget_ms,
            final(self).search_stop == old(self).search_stop,
    {
        let prev = self.killers[depth];
        self.killers[depth] = KillerPair { slot0: Some(m), slot1: prev.slot0 };
    }

    /// Commit a root move and its value.
    pub fn update_best(&mut self, m: Mv, v: i64)
        ensures
            final(self).best_move == Some(m),
            final(self).best_value == v,
            final(self).killers == old(self).killers,
            final(self).nodes == old(self).nodes,
            final(self).timer == old(self).timer,
            final(self).budget_ms == old(self).budget_ms,
            final(self).search_stop == old(self).search_stop,
    {
        self.best_move = Some(m);
        self.best_value = v;
    }
}

/// Whether the wall clock has passed the deadline.  Without a budget there
/// is no deadline; with one, nothing is promised of the clock's answer.
fn past_deadline(info: &Info) -> (r: bool)
    ensures
        info.budget_ms is None ==> r == false,
{
    match info.budget_ms {
        None => false,
        Some(ms) => {
            let d = instant_elapsed(&info.timer);
            let el = duration_millis(&d);
            el > ms as u128
        },
    }
}

// ---------------------------------------------------------------------------
// The alpha-beta search.
// ---------------------------------------------------------------------------

/// Fail-hard alpha-beta negamax search.
///
/// At a frontier or terminal node the raw static score comes back,
/// unclamped; at an interior node, when the deadline never fires, the
/// result is exactly the unpruned negamax value folded into the window:
/// pruning never changes the value.  Once the abort flag is set the result
/// is a don't-care and the caller must discard it; the remembered best
/// move and value are never touched here, an aborted-on-entry call leaves
/// the killer table untouched, and killer slots above this depth are never
/// written.
pub fn minmax(board: &chess::Board, depth: usize, alpha: i64, beta: i64, info: &mut Info) -> (r:
    i64)
    requires
        old(info).wf(),
        depth <= MAX_DEPTH,
        -WINDOW_BOUND <= alpha < beta <= WINDOW_BOUND,
    ensures
        final(info).wf(),
        final(info).best_move == old(info).best_move,
        final(info).best_value == old(info).best_value,
        final(info).budget_ms == old(info).budget_ms,
        final(info).timer == old(info).timer,
        final(info).nodes >= old(info).nodes,
        old(info).search_stop ==> final(info).search_stop && final(info).killers == old(
            info,
        ).killers,
        old(info).budget_ms is None && !old(info).search_stop ==> !final(info).search_stop,
        forall|i: int|
            depth < i < old(info).killers@.len() ==> #[trigger] final(info).killers@[i] == old(
                info,
            ).killers@[i],
        !final(info).search_stop ==> r == minmax_post(
            *board,
            depth as nat,
            alpha as int,
            beta as int,
        ),
    decreases depth,
{
    if info.nodes < u64::MAX {
        info.nodes = info.nodes + 1;
    }
    if info.search_stop {
        return 0;
    }
    if past_deadline(info) {
        info.search_stop = true;
        return 0;
    }
    let st = board_status(board);
    let fenv = board_fen(board);
    let rep = parse_fen_bytes(&fenv);
    proof {
        if parse_fen(spec_fen(*board)) is Some {
            lemma_parse_squares_ok(spec_fen(*board));
        }
        assert(rep_opt_view(rep) == parse_fen(spec_fen(*board)));
    }
    if depth == 0 {
        return eval_board(&rep, st);
    }
    let moves = legal_moves(board);
    if moves.len() == 0 {
        return eval_board(&rep, st);
    }
    let kp = info.killers[depth];
    let empty_squares: Vec<u8> = Vec::new();
    let oms = match &rep {
        Some(rp) => order_moves(moves, &rp.squares, kp.slot0, kp.slot1, info.best_move),
        None => order_moves(moves, &empty_squares, kp.slot0, kp.slot1, info.best_move),
    };
    let ghost legal = spec_legal(*board);
    proof {
        oms@.to_multiset_ensures();
        legal.to_multiset_ensures();
    }
    let mut a = alpha;
    let mut i: usize = 0;
    while i < oms.len()
        invariant
            info.wf(),
            !info.search_stop,
            old(info).search_stop == false,
            info.best_move == old(info).best_move,
            info.best_value == old(info).best_value,
            info.budget_ms == old(info).budget_ms,
            info.timer == old(info).timer,
            info.nodes >= old(info).nodes,
            forall|i: int|
                depth < i < old(info).killers@.len() ==> #[trigger] info.killers@[i] == old(
                    info,
                ).killers@[i],
            info.killers@.len() == old(info).killers@.len(),
            depth >= 1,
            depth <= MAX_DEPTH,
            legal == spec_legal(*board),
            legal.len() > 0,
            oms@.to_multiset() == legal.to_multiset(),
            oms@.len() == legal.len(),
            forall|j: int| 0 <= j < oms@.len() ==> mv_ok(#[trigger] oms@[j]),
            match rep {
                Some(rp) => rp.squares@.len() == 64,
                None => true,
            },
            0 <= i <= oms@.len(),
            -WINDOW_BOUND <= alpha <= a < beta <= WINDOW_BOUND,
            a == alpha || exists|j: int|
                0 <= j < i && a == fold_val(*board, #[trigger] oms@[j], depth as nat),
            forall|j: int|
                0 <= j < i ==> fold_val(*board, #[trigger] oms@[j], depth as nat) <= a,
        decreases oms@.len() - i,
    {
        let m = oms[i];
        proof {
            oms@.to_multiset_ensures();
            legal.to_multiset_ensures();
            assert(oms@.contains(m));
            assert(oms@.to_multiset().count(m) > 0);
            assert(legal.to_multiset().count(m) > 0);
            assert(legal.contains(m));
        }
        let child = apply_move(board, &m);
        let neg_beta = -beta;
        let neg_a = -a;
        let rc = minmax(&child, depth - 1, neg_beta, neg_a, info);
        if info.search_stop {
            return 0;
        }
        proof {
            lemma_game_value_bound(spec_apply(*board, m), (depth - 1) as nat);
            lemma_clamp_neg(
                neg_beta as int,
                neg_a as int,
                game_value(spec_apply(*board, m), (depth - 1) as nat),
            );
        }
        let out = -rc;
        proof {
            // the child reported its raw frontier score or a value clamped
            // into the negated window; either way these three facts hold
            let fv = fold_val(*board, m, depth as nat);
            assert(out >= beta ==> fv >= beta);
            assert(out <= a ==> fv <= a);
            assert(a < out < beta ==> out == fv);
        }
        if out >= beta {
            // beta cutoff: remember a quiet cutoff move as a killer
            let is_capture = match &rep {
                Some(rp) => {
                    let ti = fen_index_of(m.to) as usize;
                    rp.squares[ti] != 0
                },
                None => false,
            };
            if !is_capture {
                info.update_killer(depth, m);
            }
            proof {
                let k = choose|k: int| 0 <= k < legal.len() && legal[k] == m;
                lemma_best_val_ge(*board, legal, depth as nat, k);
            }
            return beta;
        }
        if out > a {
            a = out;
        }
        i = i + 1;
    }
    proof {
        lemma_best_val_perm(*board, legal, oms@, depth as nat);
        lemma_best_val_attained(*board, oms@, depth as nat);
        if a != alpha {
            let j = choose|j: int|
                0 <= j < oms@.len() && a == fold_val(*board, #[trigger] oms@[j], depth as nat);
            lemma_best_val_ge(*board, oms@, depth as nat, j);
        }
    }
    a
}

/// Unpruned full-width negamax search: the executable form of `game_value`.
/// It consults no window, no deadline and no search memory, so its result is
/// exactly the game-tree value.
pub fn plain_minimax(board: &chess::Board, depth: usize) -> (r: i64)
    ensures
        r == game_value(*board, depth as nat),
    decreases depth,
{
    let st = board_status(board);
    let fenv = board_fen(board);
    let rep = parse_fen_bytes(&fenv);
    proof {
        if parse_fen(spec_fen(*board)) is Some {
            lemma_parse_squares_ok(spec_fen(*board));
        }
        assert(rep_opt_view(rep) == parse_fen(spec_fen(*board)));
    }
    if depth == 0 {
        return eval_board(&rep, st);
    }
    let moves = legal_moves(board);
    if moves.len() == 0 {
        return eval_board(&rep, st);
    }
    let ghost legal = spec_legal(*board);
    let mut best: i64 = VALUE_FLOOR;
    let mut i: usize = 0;
    while i < moves.len()
        invariant
            depth >= 1,
            legal == spec_legal(*board),
            moves@ == legal,
            legal.len() > 0,
            0 <= i <= legal.len(),
            VALUE_FLOOR <= best <= SCORE_BOUND,
            best == best_val(*board, legal.subrange(0, i as int), depth as nat),
        decreases legal.len() - i,
    {
        proof {
            assert(legal.contains(legal[i as int]));
        }
        let child = apply_move(board, &moves[i]);
        let rc = plain_minimax(&child, depth - 1);
        proof {
            lemma_game_value_bound(spec_apply(*board, legal[i as int]), (depth - 1) as nat);
        }
        let out = -rc;
        proof {
            let pre = legal.subrange(0, i as int);
            let cur = legal.subrange(0, i as int + 1);
            assert(cur.drop_last() =~= pre);
            assert(cur.last() == legal[i as int]);
        }
        if out > best {
            best = out;
        }
        i = i + 1;
    }
    proof {
        assert(legal.subrange(0, legal.len() as int) =~= legal);
    }
    best
}

} // verus!
