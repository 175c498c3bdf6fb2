//! The search: iterative deepening over a negamax with alpha-beta
//! pruning, a transposition table, null-move pruning, late-move
//! reduction, killer moves and a quiescence search over captures.

use vstd::prelude::*;
use std::time::Instant;
use crate::square::BBPiece;
use crate::moves::{Move, MoveStack, MOVE_CAPACITY};
use crate::board::Board;
use crate::position::Position;
use crate::makemove::{make_move, undo_move, make_null_move, undo_null_move};
use crate::laws::{lemma_make_undo, lemma_null_round_trip};
use crate::threat::is_check;
use crate::table::{
    TranspositionTable,
    TTEntry,
    Bound,
    PawnTable,
    PawnEntry,
    SCORE_INF,
    tt_store,
    tt_probe,
    pawn_probe,
    slot_of,
};
use crate::params::EngineParams;
use crate::eval::{evaluate, spec_evaluate, spec_evaluate_with, spec_pawn_structure};
use crate::order::{lemma_sorted_by_score, spec_order_score, sorted_by_score, captures_of};
use crate::movegen::{roomy, gen_list, lemma_roomy};

verus! {

/// Half the width of the aspiration window.
pub const WINDOW: i32 = 33;

/// By how much the depth is reduced under a null move.
pub const NULL_MOVE_REDUCTION: i32 = 3;

/// The score of being mated at the root; a mate found deeper scores that
/// many plies better.
pub const MATE_SCORE: i32 = 100_000;

/// From which score on a line counts as a forced mate.
pub const MATE_FOUND: i32 = 99_000;

/// The deepest iteration of the iterative deepening.
pub const MAX_DEPTH: i32 = 64;

/// A moment of the monotonic clock.
#[verifier::external_type_specification]
#[verifier::external_body]
pub struct ExInstant(std::time::Instant);

/// The milliseconds that have passed since `timer`, by
/// `Instant::elapsed`. Nothing is promised of the number: it is whatever
/// the clock says.
#[verifier::external_body]
pub(crate) fn elapsed_millis(timer: &Instant) -> (ms: u128) {
    timer.elapsed().as_millis()
}

/// Whether the search reads the clock at node number `n`: at every
/// 1024th node.
pub open spec fn polled(n: int) -> bool {
    n % 1024 == 0
}

/// Whether the search read the clock at a node that it counted after
/// node number `before`, up to node number `after`.
pub open spec fn polled_between(before: int, after: int) -> bool {
    exists|n: int| before < n <= after && #[trigger] polled(n)
}

/// A range of nodes in which the clock was read lies in every range
/// that holds it.
pub proof fn lemma_polled_wider(before: int, from: int, to: int, after: int)
    requires
        polled_between(from, to),
        before <= from,
        to <= after,
    ensures
        polled_between(before, after),
{
    let n = choose|n: int| from < n <= to && #[trigger] polled(n);
    assert(before < n <= after && polled(n));
}

/// Whether the time to think is used up.
pub fn time_is_up(elapsed_ms: u128, think_time: u64) -> (r: bool)
    ensures
        r == (elapsed_ms > think_time as u128),
{
    elapsed_ms > think_time as u128
}

/// The time to think about one move: a twentieth of the time left on the
/// clock and half of the increment.
pub fn think_time_for(remaining_ms: u64, increment_ms: u64) -> (r: u64)
    ensures
        r == remaining_ms / 20 + increment_ms / 2,
{
    remaining_ms / 20 + increment_ms / 2
}

/// What a search carries along: the two killer moves of each ply, the
/// node counter, the coefficients of the evaluation, the pawn table, and
/// whether the clock has stopped the search.
pub struct SearchInfo {
    pub killer_moves: [[Move; 2]; 64],
    pub nodes: u64,
    pub params: EngineParams,
    pub pawns: PawnTable,
    pub stopped: bool,
}

impl SearchInfo {
    /// The coefficients are within their limits and the pawn table is
    /// well formed.
    pub open spec fn wf(&self) -> bool {
        self.params.wf() && self.pawns.wf()
    }

    /// A fresh search state with the coefficients the engine plays with.
    pub fn new() -> (r: Self)
        ensures
            r.wf(),
            r.nodes == 0,
            !r.stopped,
            forall|d: int|
                0 <= d < 64 ==> (#[trigger] r.killer_moves[d])[0] == (Move { info: 0 })
                    && r.killer_moves[d][1] == (Move { info: 0 }),
    {
        Self::with_params(EngineParams::new())
    }

    /// A fresh search state with the given coefficients.
    pub fn with_params(params: EngineParams) -> (r: Self)
        requires
            params.wf(),
        ensures
            r.wf(),
            r.nodes == 0,
            !r.stopped,
            r.params == params,
            forall|d: int|
                0 <= d < 64 ==> (#[trigger] r.killer_moves[d])[0] == (Move { info: 0 })
                    && r.killer_moves[d][1] == (Move { info: 0 }),
    {
        SearchInfo {
            killer_moves: [[Move { info: 0 }; 2]; 64],
            nodes: 0,
            params,
            pawns: PawnTable::new(),
            stopped: false,
        }
    }

    /// Remembers a move that cut off the search at `depth` plies from the
    /// root: it becomes the first killer of that ply and the former first
    /// becomes the second, unless it is the first already. Plies from 64
    /// on keep no killers.
    pub fn update_killer(&mut self, depth: usize, mv: Move)
        ensures
            final(self).nodes == old(self).nodes,
            final(self).params == old(self).params,
            final(self).pawns == old(self).pawns,
            final(self).stopped == old(self).stopped,
            forall|d: int|
                0 <= d < 64 && d != depth ==> #[trigger] final(self).killer_moves[d] == old(self).killer_moves[d],
            depth < 64 ==> final(self).killer_moves[depth as int][0] == mv,
            depth < 64 ==> final(self).killer_moves[depth as int][1] == (if old(self).killer_moves[depth as int][0] == mv {
                old(self).killer_moves[depth as int][1]
            } else {
                old(self).killer_moves[depth as int][0]
            }),
            final(self).killer_moves@ == killers_after(old(self).killer_moves@, depth as int, mv),
    {
        if depth < 64 {
            let pair = self.killer_moves[depth];
            if pair[0] != mv {
                self.killer_moves[depth] = [mv, pair[0]];
            }
        }
    }

    /// Begins the search for the next move: the node counter starts at
    /// zero and the search is not stopped.
    pub fn next_move(&mut self)
        ensures
            final(self).nodes == 0,
            !final(self).stopped,
            final(self).killer_moves == old(self).killer_moves,
            final(self).params == old(self).params,
            final(self).pawns == old(self).pawns,
    {
        self.nodes = 0;
        self.stopped = false;
    }

    /// The two killer moves of a ply; null moves for plies that keep
    /// none.
    pub fn killers_at(&self, ply: i32) -> (r: [Move; 2])
        ensures
            r == (if 0 <= ply < 64 {
                self.killer_moves[ply as int]
            } else {
                [Move { info: 0 }, Move { info: 0 }]
            }),
            r == killers_of(self.killer_moves@, ply as int),
    {
        if 0 <= ply && ply < 64 {
            self.killer_moves[ply as usize]
        } else {
            [Move { info: 0 }, Move { info: 0 }]
        }
    }

    /// Tells the search what the clock says, at a node where the clock
    /// is read: the search is stopped if more time has passed than there
    /// is to think, and stays stopped if it was.
    pub fn poll(&mut self, elapsed_ms: u128, think_time: u64)
        ensures
            final(self).killer_moves == old(self).killer_moves,
            final(self).nodes == old(self).nodes,
            final(self).params == old(self).params,
            final(self).pawns == old(self).pawns,
            final(self).stopped == (old(self).stopped || elapsed_ms > think_time),
    {
        if time_is_up(elapsed_ms, think_time) {
            self.stopped = true;
        }
    }

    /// Counts one node. The counter stops at the largest number it can
    /// hold.
    fn count_node(&mut self)
        ensures
            final(self).killer_moves == old(self).killer_moves,
            final(self).params == old(self).params,
            final(self).pawns == old(self).pawns,
            final(self).stopped == old(self).stopped,
            final(self).nodes == count_up(old(self).nodes),
    {
        if self.nodes < u64::MAX {
            self.nodes = self.nodes + 1;
        }
    }
}

/// Whether the side to move has nothing but pawns and its king.
pub open spec fn only_pawns(p: Position) -> bool {
    forall|s: int|
        0 <= s < 64 ==> (#[trigger] p.squares[s] matches Some(q) ==> q.white != p.white_to_move
            || q.kind == BBPiece::Pawn || q.kind == BBPiece::King)
}

/// Whether the side to move has nothing but pawns and its king.
pub fn is_pawn_endgame(board: &Board) -> (r: bool)
    requires
        board.bitboards_ok(),
    ensures
        r == only_pawns(board@),
{
    let white = board.move_color == 1;
    let n = board.pieces_of(white, BBPiece::Knight);
    let b = board.pieces_of(white, BBPiece::Bishop);
    let r = board.pieces_of(white, BBPiece::Rook);
    let q = board.pieces_of(white, BBPiece::Queen);
    let nb = n | b;
    let rq = r | q;
    let all = nb | rq;
    proof {
        crate::bits::lemma_bit_ops();
        crate::bits::lemma_zero_iff_empty(all);
        assert forall|s: int| 0 <= s < 64 implies #[trigger] crate::bits::member(all, s) == (
        board@.squares[s] matches Some(x) && x.white == white && x.kind != BBPiece::Pawn && x.kind
            != BBPiece::King) by {
            assert(board@.squares[s] == board.spec_piece_at(s));
            assert(crate::bits::member(nb, s) == (crate::bits::member(n, s)
                || crate::bits::member(b, s)));
            assert(crate::bits::member(rq, s) == (crate::bits::member(r, s)
                || crate::bits::member(q, s)));
            assert(crate::bits::member(all, s) == (crate::bits::member(nb, s)
                || crate::bits::member(rq, s)));
            assert(board@.squares[s] matches Some(x) ==> x.kind.is_kind());
        }
        if all == 0 {
            assert forall|s: int| 0 <= s < 64 implies (#[trigger] board@.squares[s] matches Some(
                x,
            ) ==> x.white != white || x.kind == BBPiece::Pawn || x.kind == BBPiece::King) by {
                assert(!crate::bits::member(all, s));
            }
        } else {
            let s = choose|s: int| 0 <= s < 64 && crate::bits::member(all, s);
            assert(board@.squares[s] is Some);
        }
    }
    all == 0
}

/// A score kept within the range of scores.
pub open spec fn spec_clamp(v: int) -> int {
    if v < -SCORE_INF {
        -SCORE_INF as int
    } else if v > SCORE_INF {
        SCORE_INF as int
    } else {
        v
    }
}

/// A score kept within the range of scores.
pub fn clamp_score(v: i64) -> (r: i32)
    ensures
        r == spec_clamp(v as int),
        -SCORE_INF <= r <= SCORE_INF,
        -SCORE_INF <= v <= SCORE_INF ==> r == v,
        v < -SCORE_INF ==> r == -SCORE_INF,
        v > SCORE_INF ==> r == SCORE_INF,
{
    if v < -(SCORE_INF as i64) {
        -SCORE_INF
    } else if v > SCORE_INF as i64 {
        SCORE_INF
    } else {
        v as i32
    }
}

/// Replaces a principal variation by a move and the variation that
/// follows it.
fn set_pv(pv: &mut Vec<Move>, first: Move, rest: &Vec<Move>)
    ensures
        final(pv)@ == seq![first] + rest@,
{
    pv.clear();
    pv.push(first);
    let mut i: usize = 0;
    while i < rest.len()
        invariant
            i <= rest@.len(),
            pv@ == seq![first] + rest@.take(i as int),
        decreases rest@.len() - i,
    {
        pv.push(rest[i]);
        i += 1;
        assert(pv@ =~= seq![first] + rest@.take(i as int));
    }
    assert(rest@.take(rest@.len() as int) =~= rest@);
}

/// Replaces a principal variation by a copy of another.
fn copy_pv(pv: &mut Vec<Move>, from: &Vec<Move>)
    ensures
        final(pv)@ == from@,
{
    pv.clear();
    let mut i: usize = 0;
    while i < from.len()
        invariant
            i <= from@.len(),
            pv@ == from@.take(i as int),
        decreases from@.len() - i,
    {
        pv.push(from[i]);
        i += 1;
        assert(pv@ =~= from@.take(i as int));
    }
    assert(from@.take(from@.len() as int) =~= from@);
}

/// The evaluation that the search reads for a position: with the pawn
/// scores of the pawn table where it holds an entry under the pawn hash
/// of the position, and computed from the position where it holds none.
pub open spec fn static_eval(p: Position, params: EngineParams, pawns: PawnTable) -> int {
    match pawns.spec_probe(p.pawn_hash) {
        Some(e) => spec_evaluate_with(p, params, e.mg as int, e.eg as int),
        None => spec_evaluate(p, params),
    }
}

/// The lower bound of a window after the side to move was offered to
/// stand pat on the evaluation `e`.
pub open spec fn stand_pat(e: int, alpha: int) -> int {
    if e > alpha {
        e
    } else {
        alpha
    }
}

/// Whether the position has no pseudo-legal capture.
pub open spec fn no_capture(p: Position) -> bool {
    forall|m: Move| #[trigger] p.pseudo_legal(m) ==> !m.spec_is_capture()
}

/// What the capture search carries from node to node: the slots of the
/// pawn table and the node counter.
pub struct QuiesceState {
    pub pawns: Seq<Option<PawnEntry>>,
    pub nodes: u64,
}

/// The node counter after one more node.
pub open spec fn count_up(nodes: u64) -> u64 {
    if nodes < u64::MAX {
        (nodes + 1) as u64
    } else {
        nodes
    }
}

/// The slots of the pawn table after the position was evaluated: as they
/// were where the table held the pawns of the position, and with their
/// scores stored where it did not.
pub open spec fn pawns_after(
    p: Position,
    params: EngineParams,
    pawns: Seq<Option<PawnEntry>>,
    mask: usize,
) -> Seq<Option<PawnEntry>> {
    match pawn_probe(pawns, mask, p.pawn_hash) {
        Some(e) => pawns,
        None => pawns.update(
            slot_of(p.pawn_hash, mask),
            Some(
                PawnEntry {
                    zobrist: p.pawn_hash,
                    mg: spec_pawn_structure(p, params, false) as i32,
                    eg: spec_pawn_structure(p, params, true) as i32,
                },
            ),
        ),
    }
}

/// The evaluation of a position, read with the given slots of the pawn
/// table.
pub open spec fn eval_with(
    p: Position,
    params: EngineParams,
    pawns: Seq<Option<PawnEntry>>,
    mask: usize,
) -> int {
    match pawn_probe(pawns, mask, p.pawn_hash) {
        Some(e) => spec_evaluate_with(p, params, e.mg as int, e.eg as int),
        None => spec_evaluate(p, params),
    }
}

/// The captures of a position in the order in which the capture search
/// tries them: by descending ordering score, captures of equal score in
/// the order of the generator.
pub open spec fn capture_list(p: Position) -> Seq<Move> {
    sorted_by_score(
        captures_of(gen_list(p, false)),
        |m: Move| spec_order_score(p, m, None, [Move { info: 0 }, Move { info: 0 }]),
    )
}

/// What the capture search returns for a position, and the state it
/// leaves.
///
/// The node is counted and the position evaluated. An evaluation of
/// `beta` or more returns `beta`. Else the evaluation raises `alpha` if it
/// is higher, and, while the ply is at most twice `depth`, the captures
/// are tried one after the other; see [`spec_quiesce_loop`].
pub open spec fn spec_quiesce(
    p: Position,
    params: EngineParams,
    mask: usize,
    ply: int,
    alpha: int,
    beta: int,
    depth: int,
    st: QuiesceState,
) -> (int, QuiesceState)
    decreases 2 * depth + 1 - ply, 1int, 0int,
{
    let e = eval_with(p, params, st.pawns, mask);
    let st1 = QuiesceState {
        pawns: pawns_after(p, params, st.pawns, mask),
        nodes: count_up(st.nodes),
    };
    if e >= beta {
        (beta, st1)
    } else if ply <= 2 * depth {
        spec_quiesce_loop(
            p,
            params,
            mask,
            capture_list(p),
            0,
            ply,
            stand_pat(e, alpha),
            beta,
            depth,
            st1,
        )
    } else {
        (stand_pat(e, alpha), st1)
    }
}

/// What the capture search makes of the captures from number `i` on: each
/// is made and the position behind it searched with the window turned
/// round; a value of `beta` or more ends the search with `beta`, a value
/// above `alpha` raises `alpha`, and when no capture is left `alpha` is
/// the result.
pub open spec fn spec_quiesce_loop(
    p: Position,
    params: EngineParams,
    mask: usize,
    moves: Seq<Move>,
    i: int,
    ply: int,
    alpha: int,
    beta: int,
    depth: int,
    st: QuiesceState,
) -> (int, QuiesceState)
    decreases 2 * depth + 1 - ply, 0int, moves.len() - i,
{
    if i < 0 || i >= moves.len() || ply > 2 * depth {
        (alpha, st)
    } else {
        let below = spec_quiesce(p.make(moves[i]), params, mask, ply + 1, -beta, -alpha, depth, st);
        let value = -below.0;
        if value >= beta {
            (beta, below.1)
        } else {
            spec_quiesce_loop(
                p,
                params,
                mask,
                moves,
                i + 1,
                ply,
                if value > alpha {
                    value
                } else {
                    alpha
                },
                beta,
                depth,
                below.1,
            )
        }
    }
}

/// Whether the move buffer had room for the moves of every position that
/// the capture search generated moves for.
pub open spec fn quiesce_fits(
    p: Position,
    params: EngineParams,
    mask: usize,
    ply: int,
    alpha: int,
    beta: int,
    depth: int,
    st: QuiesceState,
) -> bool
    decreases 2 * depth + 1 - ply, 1int, 0int,
{
    let e = eval_with(p, params, st.pawns, mask);
    let st1 = QuiesceState {
        pawns: pawns_after(p, params, st.pawns, mask),
        nodes: count_up(st.nodes),
    };
    e >= beta || (roomy(p) && (ply > 2 * depth || quiesce_loop_fits(
        p,
        params,
        mask,
        capture_list(p),
        0,
        ply,
        stand_pat(e, alpha),
        beta,
        depth,
        st1,
    )))
}

/// Whether the move buffer had room in every position behind the
/// captures from number `i` on that the capture search tried.
pub open spec fn quiesce_loop_fits(
    p: Position,
    params: EngineParams,
    mask: usize,
    moves: Seq<Move>,
    i: int,
    ply: int,
    alpha: int,
    beta: int,
    depth: int,
    st: QuiesceState,
) -> bool
    decreases 2 * depth + 1 - ply, 0int, moves.len() - i,
{
    if i < 0 || i >= moves.len() || ply > 2 * depth {
        true
    } else {
        let below = spec_quiesce(p.make(moves[i]), params, mask, ply + 1, -beta, -alpha, depth, st);
        let value = -below.0;
        quiesce_fits(p.make(moves[i]), params, mask, ply + 1, -beta, -alpha, depth, st) && (value
            >= beta || quiesce_loop_fits(
            p,
            params,
            mask,
            moves,
            i + 1,
            ply,
            if value > alpha {
                value
            } else {
                alpha
            },
            beta,
            depth,
            below.1,
        ))
    }
}

/// The quiescence search: the evaluation of the position, or the best
/// that the side to move can make of it by captures alone, within the
/// window from `alpha` to `beta`: a score of `beta` says that the
/// position is worth that or more, a score of `alpha` that it is worth
/// that or less. Captures are searched while the ply is at most twice
/// `depth`. The position is left as it was. What the search returns and
/// leaves behind is what [`spec_quiesce`] says, as far as the move buffer
/// had room for the captures of every position on the way.
pub fn minimax_captures(
    board: &mut Board,
    depth_searched: i32,
    alpha: i32,
    beta: i32,
    depth: i32,
    search_info: &mut SearchInfo,
) -> (score: i32)
    requires
        old(board).wf(),
        old(search_info).wf(),
        0 <= depth <= 100_000,
        0 <= depth_searched,
        -SCORE_INF <= alpha <= SCORE_INF,
        -SCORE_INF <= beta <= SCORE_INF,
    ensures
        final(board).wf(),
        final(board).same_position(old(board)),
        final(search_info).wf(),
        final(search_info).params == old(search_info).params,
        final(search_info).stopped == old(search_info).stopped,
        old(search_info).nodes <= final(search_info).nodes,
        final(search_info).killer_moves == old(search_info).killer_moves,
        -SCORE_INF <= score <= SCORE_INF,
        alpha <= beta ==> alpha <= score <= beta,
        ({
            let e = static_eval(old(board)@, old(search_info).params, old(search_info).pawns);
            &&& e >= beta ==> score == beta
            &&& alpha <= beta && e < beta ==> score >= stand_pat(e, alpha as int)
            &&& e < beta && (depth_searched > 2 * depth || no_capture(old(board)@)) ==> score
                == stand_pat(e, alpha as int)
        }),
        final(search_info).pawns.mask == old(search_info).pawns.mask,
        ({
            let st = QuiesceState {
                pawns: old(search_info).pawns.table@,
                nodes: old(search_info).nodes,
            };
            let mask = old(search_info).pawns.mask;
            let params = old(search_info).params;
            quiesce_fits(
                old(board)@,
                params,
                mask,
                depth_searched as int,
                alpha as int,
                beta as int,
                depth as int,
                st,
            ) ==> (score as int, (QuiesceState {
                pawns: final(search_info).pawns.table@,
                nodes: final(search_info).nodes,
            })) == spec_quiesce(
                old(board)@,
                params,
                mask,
                depth_searched as int,
                alpha as int,
                beta as int,
                depth as int,
                st,
            )
        }),
    decreases 2 * depth + 1 - depth_searched,
{
    let ghost p = board@;
    let ghost start = *board;
    let ghost st0 = QuiesceState { pawns: search_info.pawns.table@, nodes: search_info.nodes };
    let ghost mask = search_info.pawns.mask;
    let ghost params = search_info.params;
    let ghost fits = quiesce_fits(
        p,
        params,
        mask,
        depth_searched as int,
        alpha as int,
        beta as int,
        depth as int,
        st0,
    );
    let ghost goal = spec_quiesce(
        p,
        params,
        mask,
        depth_searched as int,
        alpha as int,
        beta as int,
        depth as int,
        st0,
    );
    let mut lower = alpha;
    search_info.count_node();
    let eval = evaluate(board, &search_info.params, &mut search_info.pawns);
    assert(eval == static_eval(p, old(search_info).params, old(search_info).pawns));
    assert(eval == eval_with(p, params, st0.pawns, mask));
    let ghost st1 = QuiesceState { pawns: search_info.pawns.table@, nodes: search_info.nodes };
    assert(st1.pawns == pawns_after(p, params, st0.pawns, mask));
    assert(st1.nodes == count_up(st0.nodes));
    if eval >= beta {
        return beta;
    } else if eval >= lower {
        lower = eval;
    }
    let ghost base = lower;
    assert(base == stand_pat(eval as int, alpha as int));
    let quiet = [Move { info: 0 }, Move { info: 0 }];
    let moves = board.get_ordered_moves(false, false, true, None, &quiet);
    let ghost listed = board.moves@;
    proof {
        lemma_sorted_by_score(listed, |m: Move| spec_order_score(p, m, None, quiet));
    }
    let n = moves.len();
    proof {
        if fits {
            assert(roomy(p));
            assert(moves@ == capture_list(p));
        }
    }
    proof {
        if no_capture(p) && n > 0 {
            assert(moves@.contains(moves@[0]));
            assert(listed.contains(moves@[0]));
            assert(p.pseudo_legal(moves@[0]) && moves@[0].spec_is_capture());
        }
    }
    if depth_searched <= 2 * depth && n != 0 {
        let mut i: usize = 0;
        while i < n
            invariant
                i <= n,
                n == moves@.len(),
                moves.wf(),
                board.wf(),
                start.wf(),
                board.same_position(&start),
                start.same_position(old(board)),
                p == start@,
                search_info.wf(),
                search_info.params == old(search_info).params,
                search_info.stopped == old(search_info).stopped,
                old(search_info).nodes <= search_info.nodes,
                search_info.killer_moves == old(search_info).killer_moves,
                search_info.pawns.mask == mask,
                st0 == (QuiesceState {
                    pawns: old(search_info).pawns.table@,
                    nodes: old(search_info).nodes,
                }),
                fits == quiesce_fits(
                    p,
                    params,
                    mask,
                    depth_searched as int,
                    alpha as int,
                    beta as int,
                    depth as int,
                    st0,
                ),
                goal == spec_quiesce(
                    p,
                    params,
                    mask,
                    depth_searched as int,
                    alpha as int,
                    beta as int,
                    depth as int,
                    st0,
                ),
                p == old(board)@,
                mask == old(search_info).pawns.mask,
                params == old(search_info).params,
                fits ==> quiesce_loop_fits(
                    p,
                    params,
                    mask,
                    moves@,
                    i as int,
                    depth_searched as int,
                    lower as int,
                    beta as int,
                    depth as int,
                    (QuiesceState { pawns: search_info.pawns.table@, nodes: search_info.nodes }),
                ) && goal == spec_quiesce_loop(
                    p,
                    params,
                    mask,
                    moves@,
                    i as int,
                    depth_searched as int,
                    lower as int,
                    beta as int,
                    depth as int,
                    (QuiesceState { pawns: search_info.pawns.table@, nodes: search_info.nodes }),
                ),
                base <= lower,
                alpha <= beta ==> base <= beta,
                !no_capture(p),
                base == stand_pat(static_eval(p, old(search_info).params, old(search_info).pawns), alpha as int),
                static_eval(p, old(search_info).params, old(search_info).pawns) < beta,
                -SCORE_INF <= lower <= SCORE_INF,
                -SCORE_INF <= beta <= SCORE_INF,
                alpha <= lower,
                alpha <= beta ==> lower <= beta,
                0 <= depth_searched <= 2 * depth,
                depth <= 100_000,
                forall|m: Move| #[trigger] moves@.contains(m) ==> p.pseudo_legal(m),
            decreases n - i,
        {
            let m = moves.get(i);
            assert(moves@.contains(m));
            proof {
                lemma_make_undo(p, m);
            }
            let _ = make_move(board, &m);
            let eval = -minimax_captures(
                board,
                depth_searched + 1,
                -beta,
                -lower,
                depth,
                search_info,
            );
            let _ = undo_move(board);
            proof {
                board.lemma_restored(&start);
            }
            if eval >= beta {
                return beta;
            }
            if eval > lower {
                lower = eval;
            }
            i += 1;
        }
    }
    lower
}

/// The entry with which the table answers for a position without a
/// search: one under the key, from a search at least `depth` deep, that
/// holds the exact score, a lower bound of at least `beta` or an upper
/// bound of at most `alpha`.
pub open spec fn tt_cutoff(tt: TranspositionTable, key: u64, depth: int, alpha: int, beta: int) -> Option<
    TTEntry,
> {
    cutoff_of(tt.spec_probe(key), depth, alpha, beta)
}

/// The entry among what a probe answered that ends the search of a node
/// at once.
pub open spec fn cutoff_of(hit: Option<TTEntry>, depth: int, alpha: int, beta: int) -> Option<
    TTEntry,
> {
    match hit {
        Some(e) => if e.depth >= depth && (e.bound == Bound::Exact || (e.bound == Bound::Lower
            && e.score >= beta) || (e.bound == Bound::Upper && e.score <= alpha)) {
            Some(e)
        } else {
            None
        },
        None => None,
    }
}

/// The principal variation after the table answered with `e`: the move of
/// an exact entry, or nothing if it has none; a bound leaves the
/// variation as it was.
pub open spec fn cutoff_pv(e: TTEntry, before: Seq<Move>) -> Seq<Move> {
    if e.bound == Bound::Exact {
        match e.best_move {
            Some(mv) => seq![mv],
            None => Seq::empty(),
        }
    } else {
        before
    }
}

/// Whether the search of a node tries a null move first: from depth
/// [`NULL_MOVE_REDUCTION`] on, out of check, and with more than pawns and
/// the king.
pub open spec fn null_move_tried(p: Position, depth: int) -> bool {
    depth >= NULL_MOVE_REDUCTION && !p.in_check() && !only_pawns(p)
}

/// The score of a side that has no move: the mate score, better by one
/// for each ply from the root, in check, and nothing out of check.
pub open spec fn no_move_score(p: Position, ply: int) -> int {
    if p.in_check() {
        ply - MATE_SCORE
    } else {
        0
    }
}

/// Whether `e` is the entry that the search of a node stores when it
/// returns `score` and the principal variation `pv`.
///
/// The entry holds the key, the depth, the age and the score. A cut-off
/// stores `beta` as a lower bound, with the move that cut off, or with
/// none after a null move. A node that raised alpha within the window
/// stores the exact score with the legal move that raised it last. A node
/// that did not raise alpha stores it as an upper bound, without a move.
/// The principal variation begins with the move of the entry and is empty
/// where the entry has none.
pub open spec fn node_entry(
    p: Position,
    key: u64,
    depth: int,
    age: u8,
    alpha: int,
    beta: int,
    score: int,
    pv: Seq<Move>,
    e: TTEntry,
) -> bool {
    &&& e.zobrist == key
    &&& e.depth == depth
    &&& e.age == age
    &&& e.score == score
    &&& match e.bound {
        Bound::Lower => score == beta,
        Bound::Exact => alpha < score < beta && e.best_move is Some,
        Bound::Upper => score == alpha && e.best_move is None,
    }
    &&& match e.best_move {
        Some(m) => p.legal(m) && pv.len() > 0 && pv[0] == m,
        None => pv.len() == 0,
    }
}

/// Whether the last thing stored in the table was an entry of the node as
/// [`node_entry`] describes it.
pub open spec fn node_stored(
    p: Position,
    tt: TranspositionTable,
    key: u64,
    depth: int,
    alpha: int,
    beta: int,
    score: int,
    pv: Seq<Move>,
) -> bool {
    exists|e: TTEntry, before: Seq<Option<TTEntry>>|
        #![trigger tt_store(before, tt.mask, e)]
        tt.table@ == tt_store(before, tt.mask, e) && node_entry(
            p,
            key,
            depth,
            tt.age,
            alpha,
            beta,
            score,
            pv,
            e,
        )
}

/// Whether the table has nothing to say of a position at a depth: it
/// holds no entry under the key, or one from a shallower search.
pub open spec fn tt_silent(tt: &TranspositionTable, key: u64, depth: int) -> bool {
    match tt.spec_probe(key) {
        Some(e) => e.depth < depth,
        None => true,
    }
}

/// What the search carries from node to node: the slots of the
/// transposition table, the killer moves of each ply, the slots of the
/// pawn table and the node counter.
pub struct SearchState {
    pub table: Seq<Option<TTEntry>>,
    pub killers: Seq<[Move; 2]>,
    pub pawns: Seq<Option<PawnEntry>>,
    pub nodes: u64,
}

/// What stays as it is during a search: the coefficients of the
/// evaluation, the masks of the two tables and the age of the search.
pub struct SearchFrame {
    pub params: EngineParams,
    pub pawn_mask: usize,
    pub table_mask: usize,
    pub age: u8,
}

/// What the search of a node yields when the clock does not stop it: the
/// score, the principal variation, the state it leaves, and whether the
/// move buffer had room for the moves of every position it generated
/// moves for.
pub struct SearchOut {
    pub score: int,
    pub pv: Seq<Move>,
    pub st: SearchState,
    pub fits: bool,
}

/// The state that a table and a search information stand for.
pub open spec fn state_of(tt: TranspositionTable, info: SearchInfo) -> SearchState {
    SearchState {
        table: tt.table@,
        killers: info.killer_moves@,
        pawns: info.pawns.table@,
        nodes: info.nodes,
    }
}

/// The frame that a table and a search information stand for.
pub open spec fn frame_of(tt: TranspositionTable, info: SearchInfo) -> SearchFrame {
    SearchFrame {
        params: info.params,
        pawn_mask: info.pawns.mask,
        table_mask: tt.mask,
        age: tt.age,
    }
}

/// The two killer moves of a ply; null moves for plies that keep none.
pub open spec fn killers_of(killers: Seq<[Move; 2]>, ply: int) -> [Move; 2] {
    if 0 <= ply < 64 {
        killers[ply]
    } else {
        [Move { info: 0 }, Move { info: 0 }]
    }
}

/// The killer moves after `mv` cut off the search at `ply`: it becomes
/// the first killer of the ply and the former first the second, unless it
/// is the first already.
pub open spec fn killers_after(killers: Seq<[Move; 2]>, ply: int, mv: Move) -> Seq<[Move; 2]> {
    if 0 <= ply < 64 && killers[ply][0] != mv {
        killers.update(ply, [mv, killers[ply][0]])
    } else {
        killers
    }
}

/// The state after `e` was stored in the transposition table.
pub open spec fn stored_in(st: SearchState, fr: SearchFrame, e: TTEntry) -> SearchState {
    SearchState { table: tt_store(st.table, fr.table_mask, e), ..st }
}

/// The moves of a node in the order in which the search tries them: the
/// pseudo-legal moves by descending ordering score, moves of equal score
/// in the order of the generator.
pub open spec fn node_moves(p: Position, tt_move: Option<Move>, killers: [Move; 2]) -> Seq<Move> {
    sorted_by_score(gen_list(p, false), |m: Move| spec_order_score(p, m, tt_move, killers))
}

/// `out`, fitting only if `fits` holds too.
pub open spec fn and_fits(out: SearchOut, fits: bool) -> SearchOut {
    SearchOut { fits: out.fits && fits, ..out }
}

/// What the search of a node returns and leaves behind when the clock
/// does not stop it.
///
/// The node is counted. A drawn position is worth nothing. An entry of
/// the table that ends the search gives its score. At depth nothing the
/// capture search takes over. From depth [`NULL_MOVE_REDUCTION`] on, out
/// of check and with more than pawns, the move is passed first, the
/// position behind searched that much shallower, and a value of `beta` or
/// more ends the search with `beta` stored as a lower bound. Then the
/// moves are tried one after the other; see [`spec_move_loop`].
pub open spec fn spec_minimax(
    fr: SearchFrame,
    p: Position,
    depth: int,
    ply: int,
    alpha: int,
    beta: int,
    pv: Seq<Move>,
    st: SearchState,
) -> SearchOut
    decreases depth, 3int, 0int,
{
    let st1 = SearchState { nodes: count_up(st.nodes), ..st };
    let hit = tt_probe(st.table, fr.table_mask, p.hash);
    if p.is_draw() {
        SearchOut { score: 0, pv: Seq::empty(), st: st1, fits: true }
    } else if let Some(e) = cutoff_of(hit, depth, alpha, beta) {
        SearchOut { score: e.score as int, pv: cutoff_pv(e, pv), st: st1, fits: true }
    } else if depth <= 0 {
        let q = QuiesceState { pawns: st1.pawns, nodes: st1.nodes };
        let below = spec_quiesce(p, fr.params, fr.pawn_mask, ply, alpha, beta, ply, q);
        SearchOut {
            score: below.0,
            pv: Seq::empty(),
            st: SearchState { pawns: below.1.pawns, nodes: below.1.nodes, ..st1 },
            fits: quiesce_fits(p, fr.params, fr.pawn_mask, ply, alpha, beta, ply, q),
        }
    } else {
        let tt_move = match hit {
            Some(e) => e.best_move,
            None => None,
        };
        spec_node(fr, p, depth, ply, alpha, beta, tt_move, killers_of(st1.killers, ply), st1)
    }
}

/// What the search of a node returns and leaves behind after the table
/// did not end it, at a depth of one or more.
///
/// From depth [`NULL_MOVE_REDUCTION`] on, out of check and with more than
/// pawns, the move is passed first, the position behind searched that
/// much shallower, and a value of `beta` or more ends the search with
/// `beta` stored as a lower bound. Then the moves are tried one after the
/// other, in the order that `tt_move` and `killers` give them; see
/// [`spec_move_loop`].
pub open spec fn spec_node(
    fr: SearchFrame,
    p: Position,
    depth: int,
    ply: int,
    alpha: int,
    beta: int,
    tt_move: Option<Move>,
    killers: [Move; 2],
    st: SearchState,
) -> SearchOut
    decreases depth, 2int, 0int,
{
    let moves = node_moves(p, tt_move, killers);
    if null_move_tried(p, depth) {
        let passed = spec_minimax(
            fr,
            p.make_null(),
            depth - NULL_MOVE_REDUCTION,
            ply + 1,
            -beta,
            -alpha,
            Seq::empty(),
            st,
        );
        if -passed.score >= beta {
            SearchOut {
                score: beta,
                pv: Seq::empty(),
                st: stored_in(passed.st, fr, null_entry(fr, p, depth, beta)),
                fits: passed.fits,
            }
        } else {
            and_fits(
                spec_move_loop(
                    fr,
                    p,
                    moves,
                    0,
                    depth,
                    ply,
                    alpha,
                    beta,
                    false,
                    false,
                    None,
                    Seq::empty(),
                    passed.st,
                ),
                passed.fits && roomy(p),
            )
        }
    } else {
        and_fits(
            spec_move_loop(
                fr,
                p,
                moves,
                0,
                depth,
                ply,
                alpha,
                beta,
                false,
                false,
                None,
                Seq::empty(),
                st,
            ),
            roomy(p),
        )
    }
}

/// What [`spec_node`] says of a node that the null move cut off.
pub proof fn lemma_node_cut(
    fr: SearchFrame,
    p: Position,
    depth: int,
    ply: int,
    alpha: int,
    beta: int,
    tt_move: Option<Move>,
    killers: [Move; 2],
    st: SearchState,
    passed: SearchOut,
)
    requires
        depth >= NULL_MOVE_REDUCTION,
        null_move_tried(p, depth),
        passed == spec_minimax(
            fr,
            p.make_null(),
            depth - NULL_MOVE_REDUCTION,
            ply + 1,
            -beta,
            -alpha,
            Seq::empty(),
            st,
        ),
        -passed.score >= beta,
    ensures
        spec_node(fr, p, depth, ply, alpha, beta, tt_move, killers, st) == (SearchOut {
            score: beta,
            pv: Seq::empty(),
            st: stored_in(passed.st, fr, null_entry(fr, p, depth, beta)),
            fits: passed.fits,
        }),
{
    reveal(spec_move_loop);
}

/// What [`spec_node`] says of a node where the null move was tried and
/// did not cut off: what the moves make of it, from the state that the
/// null move left.
pub proof fn lemma_node_passed(
    fr: SearchFrame,
    p: Position,
    depth: int,
    ply: int,
    alpha: int,
    beta: int,
    tt_move: Option<Move>,
    killers: [Move; 2],
    st: SearchState,
    passed: SearchOut,
)
    requires
        depth >= NULL_MOVE_REDUCTION,
        null_move_tried(p, depth),
        passed == spec_minimax(
            fr,
            p.make_null(),
            depth - NULL_MOVE_REDUCTION,
            ply + 1,
            -beta,
            -alpha,
            Seq::empty(),
            st,
        ),
        -passed.score < beta,
    ensures
        spec_node(fr, p, depth, ply, alpha, beta, tt_move, killers, st) == and_fits(
            spec_move_loop(
                fr,
                p,
                node_moves(p, tt_move, killers),
                0,
                depth,
                ply,
                alpha,
                beta,
                false,
                false,
                None,
                Seq::empty(),
                passed.st,
            ),
            passed.fits && roomy(p),
        ),
{
    reveal(spec_move_loop);
}

/// What [`spec_node`] says of a node where no null move is tried: what
/// the moves make of it.
pub proof fn lemma_node_plain(
    fr: SearchFrame,
    p: Position,
    depth: int,
    ply: int,
    alpha: int,
    beta: int,
    tt_move: Option<Move>,
    killers: [Move; 2],
    st: SearchState,
)
    requires
        !null_move_tried(p, depth),
    ensures
        spec_node(fr, p, depth, ply, alpha, beta, tt_move, killers, st) == and_fits(
            spec_move_loop(
                fr,
                p,
                node_moves(p, tt_move, killers),
                0,
                depth,
                ply,
                alpha,
                beta,
                false,
                false,
                None,
                Seq::empty(),
                st,
            ),
            roomy(p),
        ),
{
    reveal(spec_move_loop);
}

/// What the search of a node returns when no move is left to try: a node
/// without a legal move scores the mate score in check and nothing out of
/// check, and any other node stores `lower` with the best move, as the
/// exact score if a move raised it and as an upper bound if none did.
pub open spec fn node_end(
    fr: SearchFrame,
    p: Position,
    depth: int,
    ply: int,
    lower: int,
    has_moves: bool,
    improved: bool,
    best_move: Option<Move>,
    best_pv: Seq<Move>,
    st: SearchState,
) -> SearchOut {
    if !has_moves {
        SearchOut { score: no_move_score(p, ply), pv: Seq::empty(), st: st, fits: true }
    } else {
        SearchOut {
            score: lower,
            pv: best_pv,
            st: stored_in(
                st,
                fr,
                TTEntry {
                    zobrist: p.hash,
                    best_move: best_move,
                    depth: depth as u8,
                    score: lower as i32,
                    bound: if improved {
                        Bound::Exact
                    } else {
                        Bound::Upper
                    },
                    age: fr.age,
                },
            ),
            fits: true,
        }
    }
}

/// What the search of a node returns when the move `m` cut it off: the
/// move becomes a killer of the ply unless it is a capture, the variation
/// is the move and what follows it, and `beta` is stored as a lower bound
/// with the move.
pub open spec fn node_cut(
    fr: SearchFrame,
    p: Position,
    m: Move,
    depth: int,
    ply: int,
    beta: int,
    found: SearchOut,
) -> SearchOut {
    let kept = if m.spec_is_capture() {
        found.st
    } else {
        SearchState { killers: killers_after(found.st.killers, ply, m), ..found.st }
    };
    SearchOut {
        score: beta,
        pv: seq![m] + found.pv,
        st: stored_in(
            kept,
            fr,
            TTEntry {
                zobrist: p.hash,
                best_move: Some(m),
                depth: depth as u8,
                score: beta as i32,
                bound: Bound::Lower,
                age: fr.age,
            },
        ),
        fits: found.fits,
    }
}

/// What the search of a node makes of its moves from number `i` on.
///
/// A move that is not legal is passed over. A legal move is searched; see
/// [`spec_search_move`]. A value of `beta` or more ends the search; see
/// [`node_cut`]. A value above `lower` raises it and makes the move the
/// best. When no move is left, see [`node_end`].
#[verifier::opaque]
pub open spec fn spec_move_loop(
    fr: SearchFrame,
    p: Position,
    moves: Seq<Move>,
    i: int,
    depth: int,
    ply: int,
    lower: int,
    beta: int,
    has_moves: bool,
    improved: bool,
    best_move: Option<Move>,
    best_pv: Seq<Move>,
    st: SearchState,
) -> SearchOut
    decreases depth, 1int, moves.len() - i,
{
    if i < 0 || i >= moves.len() {
        node_end(fr, p, depth, ply, lower, has_moves, improved, best_move, best_pv, st)
    } else {
        match spec_search_move(
            fr,
            p,
            moves[i],
            depth,
            ply,
            lower,
            beta,
            depth >= 3 && i >= 4,
            Seq::empty(),
            st,
        ) {
            None => spec_move_loop(
                fr,
                p,
                moves,
                i + 1,
                depth,
                ply,
                lower,
                beta,
                has_moves,
                improved,
                best_move,
                best_pv,
                st,
            ),
            Some(found) => if found.score >= beta {
                node_cut(fr, p, moves[i], depth, ply, beta, found)
            } else if found.score > lower {
                and_fits(
                    spec_move_loop(
                        fr,
                        p,
                        moves,
                        i + 1,
                        depth,
                        ply,
                        found.score,
                        beta,
                        true,
                        true,
                        Some(moves[i]),
                        seq![moves[i]] + found.pv,
                        found.st,
                    ),
                    found.fits,
                )
            } else {
                and_fits(
                    spec_move_loop(
                        fr,
                        p,
                        moves,
                        i + 1,
                        depth,
                        ply,
                        lower,
                        beta,
                        true,
                        improved,
                        best_move,
                        best_pv,
                        found.st,
                    ),
                    found.fits,
                )
            },
        }
    }
}

/// What [`spec_move_loop`] says when no move is left.
pub proof fn lemma_move_loop_end(
    fr: SearchFrame,
    p: Position,
    moves: Seq<Move>,
    i: int,
    depth: int,
    ply: int,
    lower: int,
    beta: int,
    has_moves: bool,
    improved: bool,
    best_move: Option<Move>,
    best_pv: Seq<Move>,
    st: SearchState,
)
    requires
        i >= moves.len(),
    ensures
        spec_move_loop(
            fr,
            p,
            moves,
            i,
            depth,
            ply,
            lower,
            beta,
            has_moves,
            improved,
            best_move,
            best_pv,
            st,
        ) == node_end(fr, p, depth, ply, lower, has_moves, improved, best_move, best_pv, st),
{
    reveal(spec_move_loop);
}

/// What [`spec_move_loop`] says of move number `i`, given what the search
/// of that move yields.
pub proof fn lemma_move_loop_step(
    fr: SearchFrame,
    p: Position,
    moves: Seq<Move>,
    i: int,
    depth: int,
    ply: int,
    lower: int,
    beta: int,
    has_moves: bool,
    improved: bool,
    best_move: Option<Move>,
    best_pv: Seq<Move>,
    st: SearchState,
    tried: Option<SearchOut>,
)
    requires
        0 <= i < moves.len(),
        tried == spec_search_move(
            fr,
            p,
            moves[i],
            depth,
            ply,
            lower,
            beta,
            depth >= 3 && i >= 4,
            Seq::empty(),
            st,
        ),
    ensures
        spec_move_loop(
            fr,
            p,
            moves,
            i,
            depth,
            ply,
            lower,
            beta,
            has_moves,
            improved,
            best_move,
            best_pv,
            st,
        ) == (match tried {
            None => spec_move_loop(
                fr,
                p,
                moves,
                i + 1,
                depth,
                ply,
                lower,
                beta,
                has_moves,
                improved,
                best_move,
                best_pv,
                st,
            ),
            Some(found) => if found.score >= beta {
                node_cut(fr, p, moves[i], depth, ply, beta, found)
            } else if found.score > lower {
                and_fits(
                    spec_move_loop(
                        fr,
                        p,
                        moves,
                        i + 1,
                        depth,
                        ply,
                        found.score,
                        beta,
                        true,
                        true,
                        Some(moves[i]),
                        seq![moves[i]] + found.pv,
                        found.st,
                    ),
                    found.fits,
                )
            } else {
                and_fits(
                    spec_move_loop(
                        fr,
                        p,
                        moves,
                        i + 1,
                        depth,
                        ply,
                        lower,
                        beta,
                        true,
                        improved,
                        best_move,
                        best_pv,
                        found.st,
                    ),
                    found.fits,
                )
            },
        }),
{
    reveal(spec_move_loop);
}

/// What the search of one move of a node yields: nothing for a move that
/// is not legal, and else the value of the move for the mover, which is
/// the value of the position behind it for the other side, negated. A
/// reduced move is searched one ply shallower first and searched again at
/// full depth if that raises `alpha`.
pub open spec fn spec_search_move(
    fr: SearchFrame,
    p: Position,
    m: Move,
    depth: int,
    ply: int,
    alpha: int,
    beta: int,
    reduced: bool,
    pv: Seq<Move>,
    st: SearchState,
) -> Option<SearchOut>
    decreases depth, 0int, 0int,
{
    if !p.legal(m) || depth < 1 || (reduced && depth < 3) {
        None
    } else if reduced {
        let first = spec_minimax(fr, p.make(m), depth - 2, ply + 1, -beta, -alpha, pv, st);
        if -first.score > alpha {
            let again = spec_minimax(
                fr,
                p.make(m),
                depth - 1,
                ply + 1,
                -beta,
                -alpha,
                first.pv,
                first.st,
            );
            Some(
                SearchOut {
                    score: -again.score,
                    pv: again.pv,
                    st: again.st,
                    fits: first.fits && again.fits,
                },
            )
        } else {
            Some(SearchOut { score: -first.score, pv: first.pv, st: first.st, fits: first.fits })
        }
    } else {
        let below = spec_minimax(fr, p.make(m), depth - 1, ply + 1, -beta, -alpha, pv, st);
        Some(SearchOut { score: -below.score, pv: below.pv, st: below.st, fits: below.fits })
    }
}

/// A drawn position is worth nothing: for a position that the fifty-move
/// rule draws or that stands in its own history, at every depth, ply and
/// window and whatever the table holds, the search scores nothing, leaves
/// no variation, and writes nothing to the table.
pub proof fn lemma_drawn_is_worth_nothing(
    fr: SearchFrame,
    p: Position,
    depth: int,
    ply: int,
    alpha: int,
    beta: int,
    pv: Seq<Move>,
    st: SearchState,
)
    requires
        p.halfmove >= 100 || p.hashes.contains(p.hash),
    ensures
        spec_minimax(fr, p, depth, ply, alpha, beta, pv, st) == (SearchOut {
            score: 0,
            pv: Seq::empty(),
            st: SearchState { nodes: count_up(st.nodes), ..st },
            fits: true,
        }),
{
}

/// Moves of which none is legal leave a node without a move: the search
/// scores the mate score in check and nothing out of check, leaves no
/// variation, and the state as it was.
pub proof fn lemma_no_legal_move(
    fr: SearchFrame,
    p: Position,
    moves: Seq<Move>,
    i: int,
    depth: int,
    ply: int,
    lower: int,
    beta: int,
    improved: bool,
    best_move: Option<Move>,
    best_pv: Seq<Move>,
    st: SearchState,
)
    requires
        0 <= i,
        forall|m: Move| !p.legal(m),
    ensures
        spec_move_loop(
            fr,
            p,
            moves,
            i,
            depth,
            ply,
            lower,
            beta,
            false,
            improved,
            best_move,
            best_pv,
            st,
        ) == (SearchOut { score: no_move_score(p, ply), pv: Seq::empty(), st: st, fits: true }),
    decreases moves.len() - i,
{
    if i >= moves.len() {
        lemma_move_loop_end(
            fr,
            p,
            moves,
            i,
            depth,
            ply,
            lower,
            beta,
            false,
            improved,
            best_move,
            best_pv,
            st,
        );
    } else {
        let tried = spec_search_move(
            fr,
            p,
            moves[i],
            depth,
            ply,
            lower,
            beta,
            depth >= 3 && i >= 4,
            Seq::empty(),
            st,
        );
        assert(tried is None);
        lemma_move_loop_step(
            fr,
            p,
            moves,
            i,
            depth,
            ply,
            lower,
            beta,
            false,
            improved,
            best_move,
            best_pv,
            st,
            tried,
        );
        lemma_no_legal_move(
            fr,
            p,
            moves,
            i + 1,
            depth,
            ply,
            lower,
            beta,
            improved,
            best_move,
            best_pv,
            st,
        );
    }
}

/// A side without a legal move is mated or stalemated: where the
/// position is not drawn, the table does not answer for it, the depth is
/// one or more and no null move is tried, the search scores the mate
/// score, better by one for each ply from the root, in check, and
/// nothing out of check; it leaves no variation and writes nothing to
/// the table.
pub proof fn lemma_no_move_is_mate_or_stalemate(
    fr: SearchFrame,
    p: Position,
    depth: int,
    ply: int,
    alpha: int,
    beta: int,
    pv: Seq<Move>,
    st: SearchState,
)
    requires
        !p.is_draw(),
        depth >= 1,
        cutoff_of(tt_probe(st.table, fr.table_mask, p.hash), depth, alpha, beta) is None,
        !null_move_tried(p, depth),
        forall|m: Move| !p.legal(m),
    ensures
        ({
            let out = spec_minimax(fr, p, depth, ply, alpha, beta, pv, st);
            &&& out.score == no_move_score(p, ply)
            &&& out.pv == Seq::<Move>::empty()
            &&& out.st == (SearchState { nodes: count_up(st.nodes), ..st })
            &&& out.fits == roomy(p)
        }),
{
    let st1 = SearchState { nodes: count_up(st.nodes), ..st };
    let hit = tt_probe(st.table, fr.table_mask, p.hash);
    let tt_move = match hit {
        Some(e) => e.best_move,
        None => None,
    };
    let killers = killers_of(st1.killers, ply);
    reveal(spec_move_loop);
    lemma_no_legal_move(
        fr,
        p,
        node_moves(p, tt_move, killers),
        0,
        depth,
        ply,
        alpha,
        beta,
        false,
        None,
        Seq::empty(),
        st1,
    );
}

/// Searches one move of a node: makes it, and, unless it leaves the
/// mover's king attacked, searches the position behind it and returns its
/// value for the mover. A late move is searched one ply shallower first
/// and searched again at full depth if it raises alpha. The move is taken
/// back. See [`spec_search_move`].
pub fn search_move(
    board: &mut Board,
    m: Move,
    depth: i32,
    depth_searched: i32,
    alpha: i32,
    beta: i32,
    reduced: bool,
    think_time: u64,
    timer: &Instant,
    tt: &mut TranspositionTable,
    child_pv: &mut Vec<Move>,
    search_info: &mut SearchInfo,
) -> (r: Option<i32>)
    requires
        old(board).wf(),
        old(board)@.pseudo_legal(m),
        old(tt).wf(),
        old(search_info).wf(),
        1 <= depth <= 200,
        reduced ==> depth >= 3,
        0 <= depth_searched,
        depth_searched + depth <= 10_000,
        -SCORE_INF <= alpha <= SCORE_INF,
        -SCORE_INF <= beta <= SCORE_INF,
    ensures
        final(board).wf(),
        final(board).same_position(old(board)),
        final(tt).wf(),
        final(tt).mask == old(tt).mask,
        final(tt).age == old(tt).age,
        final(search_info).wf(),
        final(search_info).params == old(search_info).params,
        r is Some <==> old(board)@.legal(m),
        r matches Some(v) ==> -SCORE_INF <= v <= SCORE_INF,
        r is None ==> *final(tt) == *old(tt) && *final(search_info) == *old(search_info)
            && final(child_pv)@ == old(child_pv)@,
        old(board)@.legal(m) && old(board)@.make(m).is_draw() ==> r == Some(0i32) && *final(tt)
            == *old(tt) && final(child_pv)@.len() == 0,
        ({
            let q = old(board)@.make(m);
            let least = if reduced {
                depth - 2
            } else {
                depth - 1
            };
            old(board)@.legal(m) && !q.is_draw() && least >= 1 && tt_silent(
                old(tt),
                q.hash,
                least as int,
            ) && (forall|x: Move| !q.legal(x)) && !null_move_tried(q, depth - 1) ==> r == Some(
                (-no_move_score(q, depth_searched + 1)) as i32,
            ) && *final(tt) == *old(tt) && final(child_pv)@.len() == 0
        }),
        final(search_info).pawns.mask == old(search_info).pawns.mask,
        old(search_info).stopped ==> final(search_info).stopped,
        old(search_info).nodes <= final(search_info).nodes,
        final(search_info).stopped && !old(search_info).stopped ==> polled_between(
            old(search_info).nodes as int,
            final(search_info).nodes as int,
        ),
        !final(search_info).stopped ==> (match spec_search_move(
            frame_of(*old(tt), *old(search_info)),
            old(board)@,
            m,
            depth as int,
            depth_searched as int,
            alpha as int,
            beta as int,
            reduced,
            old(child_pv)@,
            state_of(*old(tt), *old(search_info)),
        ) {
            Some(found) => found.fits ==> (r matches Some(v) && v == found.score) && final(child_pv)@ == found.pv && state_of(*final(tt), *final(search_info)) == found.st,
            None => true,
        }),
    decreases depth, 0int,
{
    let ghost p = board@;
    let ghost start = *board;
    proof {
        lemma_make_undo(p, m);
    }
    let _ = make_move(board, &m);
    assert(board.zobrist_hash == p.make(m).hash);
    if board.king_is_attacked() {
        let _ = undo_move(board);
        proof {
            board.lemma_restored(&start);
        }
        return None;
    }
    let mut eval: i32;
    if reduced {
        eval = -minimax(
            board,
            depth - 2,
            depth_searched + 1,
            -beta,
            -alpha,
            think_time,
            timer,
            tt,
            child_pv,
            search_info,
        );
        if eval > alpha {
            eval = -minimax(
                board,
                depth - 1,
                depth_searched + 1,
                -beta,
                -alpha,
                think_time,
                timer,
                tt,
                child_pv,
                search_info,
            );
        }
    } else {
        eval = -minimax(
            board,
            depth - 1,
            depth_searched + 1,
            -beta,
            -alpha,
            think_time,
            timer,
            tt,
            child_pv,
            search_info,
        );
    }
    let _ = undo_move(board);
    proof {
        board.lemma_restored(&start);
    }
    Some(eval)
}

/// The negamax search with alpha-beta pruning: the value of the position
/// for the side to move, searched `depth` plies deep within the window
/// from `alpha` to `beta`, `depth_searched` plies from the root.
///
/// A position that is drawn by the fifty-move rule or repeats a position
/// of its history is worth nothing. A side that has no legal move and
/// stands in check is mated and scores the mate score, better by one for
/// each ply from the root; one that has no legal move and stands in no
/// check is worth nothing. The position is left as it was. The clock is
/// read at every 1024th node that the search counts, and nowhere else: a
/// search is stopped only if it counted such a node. Unless the clock
/// stops the search, what it returns and leaves behind is what
/// [`spec_minimax`] says, as far as the move buffer had room for the moves
/// of every position on the way. A drawn position needs no limits on the
/// depth, the ply or the window; every other position needs them, so that
/// no score and no ply leaves the range of its type.
pub fn minimax(
    board: &mut Board,
    depth: i32,
    depth_searched: i32,
    alpha: i32,
    beta: i32,
    think_time: u64,
    timer: &Instant,
    tt: &mut TranspositionTable,
    pv: &mut Vec<Move>,
    search_info: &mut SearchInfo,
) -> (score: i32)
    requires
        old(board).wf(),
        old(tt).wf(),
        old(search_info).wf(),
        old(board)@.is_draw() || (0 <= depth <= 200 && 0 <= depth_searched && depth_searched
            + depth <= 10_000 && -SCORE_INF <= alpha <= SCORE_INF && -SCORE_INF <= beta
            <= SCORE_INF),
    ensures
        final(board).wf(),
        final(board).same_position(old(board)),
        final(tt).wf(),
        final(tt).mask == old(tt).mask,
        final(tt).age == old(tt).age,
        final(search_info).wf(),
        final(search_info).params == old(search_info).params,
        -SCORE_INF <= score <= SCORE_INF,
        old(board)@.is_draw() ==> score == 0 && final(pv)@.len() == 0 && *final(tt) == *old(tt),
        !old(board)@.is_draw() ==> (match tt_cutoff(
            *old(tt),
            old(board).zobrist_hash,
            depth as int,
            alpha as int,
            beta as int,
        ) {
            Some(e) => score == e.score && *final(tt) == *old(tt) && final(pv)@ == cutoff_pv(
                e,
                old(pv)@,
            ),
            None => true,
        }),
        !old(board)@.is_draw() && tt_cutoff(
            *old(tt),
            old(board).zobrist_hash,
            depth as int,
            alpha as int,
            beta as int,
        ) is None && depth == 0 ==> final(pv)@.len() == 0 && *final(tt) == *old(tt) && ({
            let e = static_eval(old(board)@, old(search_info).params, old(search_info).pawns);
            &&& e >= beta ==> score == beta
            &&& alpha <= beta && e < beta ==> score >= stand_pat(e, alpha as int)
            &&& e < beta && no_capture(old(board)@) ==> score == stand_pat(e, alpha as int)
        }),
        !old(board)@.is_draw() && tt_cutoff(
            *old(tt),
            old(board).zobrist_hash,
            depth as int,
            alpha as int,
            beta as int,
        ) is None && depth >= 1 && (forall|m: Move| !old(board)@.legal(m)) && !null_move_tried(
            old(board)@,
            depth as int,
        ) ==> score == no_move_score(old(board)@, depth_searched as int) && final(pv)@.len() == 0
            && *final(tt) == *old(tt),
        !old(board)@.is_draw() && tt_cutoff(
            *old(tt),
            old(board).zobrist_hash,
            depth as int,
            alpha as int,
            beta as int,
        ) is None && depth >= 1 && !final(search_info).stopped ==> (score == no_move_score(
            old(board)@,
            depth_searched as int,
        ) && final(pv)@.len() == 0) || node_stored(
            old(board)@,
            *final(tt),
            old(board).zobrist_hash,
            depth as int,
            alpha as int,
            beta as int,
            score as int,
            final(pv)@,
        ),
        !old(board)@.is_draw() && tt_cutoff(
            *old(tt),
            old(board).zobrist_hash,
            depth as int,
            alpha as int,
            beta as int,
        ) is None && depth >= 1 && !final(search_info).stopped && roomy(old(board)@) && (exists|
            m: Move,
        |
            old(board)@.legal(m)) ==> node_stored(
            old(board)@,
            *final(tt),
            old(board).zobrist_hash,
            depth as int,
            alpha as int,
            beta as int,
            score as int,
            final(pv)@,
        ),
        final(search_info).pawns.mask == old(search_info).pawns.mask,
        old(search_info).stopped ==> final(search_info).stopped,
        old(search_info).nodes <= final(search_info).nodes,
        final(search_info).stopped && !old(search_info).stopped ==> polled_between(
            old(search_info).nodes as int,
            final(search_info).nodes as int,
        ),
        ({
            let out = spec_minimax(
                frame_of(*old(tt), *old(search_info)),
                old(board)@,
                depth as int,
                depth_searched as int,
                alpha as int,
                beta as int,
                old(pv)@,
                state_of(*old(tt), *old(search_info)),
            );
            !final(search_info).stopped && out.fits ==> score == out.score && final(pv)@ == out.pv
                && state_of(*final(tt), *final(search_info)) == out.st
        }),
    decreases depth, 4int,
{
    let ghost p = board@;
    let ghost start = *board;
    let ghost key = board.zobrist_hash;
    let ghost fr = frame_of(*tt, *search_info);
    let ghost out = spec_minimax(
        fr,
        p,
        depth as int,
        depth_searched as int,
        alpha as int,
        beta as int,
        pv@,
        state_of(*tt, *search_info),
    );
    search_info.count_node();
    if search_info.nodes % 1024 == 0 {
        search_info.poll(elapsed_millis(timer), think_time);
    }
    let ghost counted = search_info.nodes as int;
    let ghost halted = search_info.stopped;
    proof {
        if halted && !old(search_info).stopped {
            assert(polled(counted));
            assert(old(search_info).nodes < counted);
            assert(polled_between(old(search_info).nodes as int, counted));
        }
    }
    if board.is_draw() {
        pv.clear();
        return 0;
    }
    let mut tt_best_move: Option<Move> = None;
    match tt.probe(board.zobrist_hash) {
        Some(entry) => {
            if entry.depth as i32 >= depth {
                match entry.bound {
                    Bound::Exact => {
                        pv.clear();
                        if let Some(mv) = entry.best_move {
                            pv.push(mv);
                        }
                        return entry.score;
                    },
                    Bound::Lower => {
                        if entry.score >= beta {
                            return entry.score;
                        }
                    },
                    Bound::Upper => {
                        if entry.score <= alpha {
                            return entry.score;
                        }
                    },
                }
            }
            tt_best_move = entry.best_move;
        },
        None => {},
    }
    let killer_moves = search_info.killers_at(depth_searched);
    if depth == 0 {
        pv.clear();
        let score = minimax_captures(
            board,
            depth_searched,
            alpha,
            beta,
            depth_searched,
            search_info,
        );
        proof {
            if halted && !old(search_info).stopped {
                lemma_polled_wider(
                    old(search_info).nodes as int,
                    old(search_info).nodes as int,
                    counted,
                    search_info.nodes as int,
                );
            }
        }
        return score;
    }
    let score = search_node(
        board,
        depth,
        depth_searched,
        alpha,
        beta,
        tt_best_move,
        &killer_moves,
        think_time,
        timer,
        tt,
        pv,
        search_info,
    );
    proof {
        if search_info.stopped && !old(search_info).stopped {
            if halted {
                lemma_polled_wider(
                    old(search_info).nodes as int,
                    old(search_info).nodes as int,
                    counted,
                    search_info.nodes as int,
                );
            } else {
                lemma_polled_wider(
                    old(search_info).nodes as int,
                    counted,
                    search_info.nodes as int,
                    search_info.nodes as int,
                );
            }
        }
    }
    score
}

/// The entry that a null move stores when it cuts a node off: `beta` as
/// a lower bound, without a move.
pub open spec fn null_entry(fr: SearchFrame, p: Position, depth: int, beta: int) -> TTEntry {
    TTEntry {
        zobrist: p.hash,
        best_move: None,
        depth: depth as u8,
        score: beta as i32,
        bound: Bound::Lower,
        age: fr.age,
    }
}

/// Passes the move, searches the position behind [`NULL_MOVE_REDUCTION`]
/// plies shallower, and takes the pass back. Where the value is `beta` or
/// more and the clock has not stopped the search, `beta` is stored as a
/// lower bound and the answer is that the node is cut off.
pub fn try_null_move(
    board: &mut Board,
    depth: i32,
    depth_searched: i32,
    alpha: i32,
    beta: i32,
    think_time: u64,
    timer: &Instant,
    tt: &mut TranspositionTable,
    search_info: &mut SearchInfo,
) -> (cut: bool)
    requires
        old(board).wf(),
        old(tt).wf(),
        old(search_info).wf(),
        NULL_MOVE_REDUCTION <= depth <= 200,
        0 <= depth_searched,
        depth_searched + depth <= 10_000,
        -SCORE_INF <= alpha <= SCORE_INF,
        -SCORE_INF <= beta <= SCORE_INF,
    ensures
        final(board).wf(),
        final(board).same_position(old(board)),
        final(tt).wf(),
        final(tt).mask == old(tt).mask,
        final(tt).age == old(tt).age,
        final(search_info).wf(),
        final(search_info).params == old(search_info).params,
        final(search_info).pawns.mask == old(search_info).pawns.mask,
        old(search_info).stopped ==> final(search_info).stopped,
        old(search_info).nodes <= final(search_info).nodes,
        final(search_info).stopped && !old(search_info).stopped ==> polled_between(
            old(search_info).nodes as int,
            final(search_info).nodes as int,
        ),
        cut ==> !final(search_info).stopped && node_stored(
            old(board)@,
            *final(tt),
            old(board).zobrist_hash,
            depth as int,
            alpha as int,
            beta as int,
            beta as int,
            Seq::empty(),
        ),
        !final(search_info).stopped ==> ({
            let fr = frame_of(*old(tt), *old(search_info));
            let passed = spec_minimax(
                fr,
                old(board)@.make_null(),
                depth - NULL_MOVE_REDUCTION,
                depth_searched + 1,
                -beta,
                -alpha,
                Seq::empty(),
                state_of(*old(tt), *old(search_info)),
            );
            passed.fits ==> cut == (-passed.score >= beta) && state_of(
                *final(tt),
                *final(search_info),
            ) == (if cut {
                stored_in(passed.st, fr, null_entry(fr, old(board)@, depth as int, beta as int))
            } else {
                passed.st
            })
        }),
    decreases depth, 2int,
{
    let ghost p = board@;
    let ghost start = *board;
    proof {
        lemma_null_round_trip(p);
    }
    make_null_move(board);
    let mut null_pv: Vec<Move> = Vec::new();
    let eval = -minimax(
        board,
        depth - NULL_MOVE_REDUCTION,
        depth_searched + 1,
        -beta,
        -alpha,
        think_time,
        timer,
        tt,
        &mut null_pv,
        search_info,
    );
    undo_null_move(board);
    proof {
        board.lemma_restored(&start);
    }
    if eval >= beta && !search_info.stopped {
        let entry = TTEntry {
            zobrist: board.zobrist_hash,
            best_move: None,
            depth: depth as u8,
            score: beta,
            bound: Bound::Lower,
            age: tt.age,
        };
        let ghost before = tt.table@;
        tt.store(entry);
        proof {
            assert(tt.table@ == tt_store(before, tt.mask, entry));
            assert(node_entry(
                p,
                board.zobrist_hash,
                depth as int,
                tt.age,
                alpha as int,
                beta as int,
                beta as int,
                Seq::<Move>::empty(),
                entry,
            ));
        }
        true
    } else {
        false
    }
}

/// Searches a node that the table did not answer for, at a depth of one
/// or more: passes the move first where that is tried, then tries the
/// moves in the order that `tt_move` and `killer_moves` give them; see
/// [`spec_node`].
pub fn search_node(
    board: &mut Board,
    depth: i32,
    depth_searched: i32,
    alpha: i32,
    beta: i32,
    tt_best_move: Option<Move>,
    killer_moves: &[Move; 2],
    think_time: u64,
    timer: &Instant,
    tt: &mut TranspositionTable,
    pv: &mut Vec<Move>,
    search_info: &mut SearchInfo,
) -> (score: i32)
    requires
        old(board).wf(),
        old(tt).wf(),
        old(search_info).wf(),
        1 <= depth <= 200,
        0 <= depth_searched,
        depth_searched + depth <= 10_000,
        -SCORE_INF <= alpha <= SCORE_INF,
        -SCORE_INF <= beta <= SCORE_INF,
    ensures
        final(board).wf(),
        final(board).same_position(old(board)),
        final(tt).wf(),
        final(tt).mask == old(tt).mask,
        final(tt).age == old(tt).age,
        final(search_info).wf(),
        final(search_info).params == old(search_info).params,
        final(search_info).pawns.mask == old(search_info).pawns.mask,
        old(search_info).stopped ==> final(search_info).stopped,
        old(search_info).nodes <= final(search_info).nodes,
        final(search_info).stopped && !old(search_info).stopped ==> polled_between(
            old(search_info).nodes as int,
            final(search_info).nodes as int,
        ),
        -SCORE_INF <= score <= SCORE_INF,
        (forall|m: Move| !old(board)@.legal(m)) && !null_move_tried(old(board)@, depth as int)
            ==> score == no_move_score(old(board)@, depth_searched as int) && final(pv)@.len() == 0
            && *final(tt) == *old(tt),
        !final(search_info).stopped ==> (score == no_move_score(
            old(board)@,
            depth_searched as int,
        ) && final(pv)@.len() == 0) || node_stored(
            old(board)@,
            *final(tt),
            old(board).zobrist_hash,
            depth as int,
            alpha as int,
            beta as int,
            score as int,
            final(pv)@,
        ),
        !final(search_info).stopped && roomy(old(board)@) && (exists|m: Move|
            old(board)@.legal(m)) ==> node_stored(
            old(board)@,
            *final(tt),
            old(board).zobrist_hash,
            depth as int,
            alpha as int,
            beta as int,
            score as int,
            final(pv)@,
        ),
        !final(search_info).stopped ==> ({
            let out = spec_node(
                frame_of(*old(tt), *old(search_info)),
                old(board)@,
                depth as int,
                depth_searched as int,
                alpha as int,
                beta as int,
                tt_best_move,
                *killer_moves,
                state_of(*old(tt), *old(search_info)),
            );
            out.fits ==> score == out.score && final(pv)@ == out.pv && state_of(
                *final(tt),
                *final(search_info),
            ) == out.st
        }),
    decreases depth, 3int,
{
    let ghost p = board@;
    let ghost start = *board;
    let ghost key = board.zobrist_hash;
    let killer_moves = *killer_moves;
    let ghost fr = frame_of(*tt, *search_info);
    let ghost st0 = state_of(*tt, *search_info);
    let ghost passed = spec_minimax(
        fr,
        p.make_null(),
        depth - NULL_MOVE_REDUCTION,
        depth_searched + 1,
        -beta,
        -alpha,
        Seq::empty(),
        st0,
    );
    let ghost tried = null_move_tried(p, depth as int);
    let in_check = is_check(board);
    let pass = depth >= NULL_MOVE_REDUCTION && !in_check && !is_pawn_endgame(board);
    assert(pass == tried);
    if pass {
        let cut = try_null_move(
            board,
            depth,
            depth_searched,
            alpha,
            beta,
            think_time,
            timer,
            tt,
            search_info,
        );
        if cut {
            pv.clear();
            proof {
                if passed.fits {
                    lemma_node_cut(
                        fr,
                        p,
                        depth as int,
                        depth_searched as int,
                        alpha as int,
                        beta as int,
                        tt_best_move,
                        killer_moves,
                        st0,
                        passed,
                    );
                }
            }
            return beta;
        }
    }
    let moves = board.get_ordered_moves(false, false, false, tt_best_move, &killer_moves);
    let ghost listed = board.moves@;
    proof {
        lemma_sorted_by_score(
            board.moves@,
            |m: Move| spec_order_score(p, m, tt_best_move, killer_moves),
        );
        board.lemma_restored(&start);
        if roomy(p) {
            assert(moves@ == node_moves(p, tt_best_move, killer_moves));
            if exists|m: Move| p.legal(m) {
                let m = choose|m: Move| p.legal(m);
                lemma_roomy(p, listed);
                assert(p.pseudo_legal(m));
                assert(listed.contains(m));
                assert(moves@.contains(m));
                let j = choose|j: int| 0 <= j < moves@.len() && moves@[j] == m;
                assert(p.legal(moves@[j]));
                assert(any_legal(p, moves@));
            }
        }
        if any_legal(p, moves@) {
            let j = choose|j: int| 0 <= j < moves@.len() && p.legal(#[trigger] moves@[j]);
            assert(p.legal(moves@[j]));
        }
        if !search_info.stopped {
            if !tried {
                lemma_node_plain(
                    fr,
                    p,
                    depth as int,
                    depth_searched as int,
                    alpha as int,
                    beta as int,
                    tt_best_move,
                    killer_moves,
                    st0,
                );
            } else if passed.fits {
                lemma_node_passed(
                    fr,
                    p,
                    depth as int,
                    depth_searched as int,
                    alpha as int,
                    beta as int,
                    tt_best_move,
                    killer_moves,
                    st0,
                    passed,
                );
            }
        }
    }
    search_moves(
        board,
        &moves,
        in_check,
        depth,
        depth_searched,
        alpha,
        beta,
        think_time,
        timer,
        tt,
        pv,
        search_info,
    )
}

/// Whether one of the moves of `s` is a legal move of the position.
pub open spec fn any_legal(p: Position, s: Seq<Move>) -> bool {
    exists|j: int| 0 <= j < s.len() && p.legal(#[trigger] s[j])
}

/// Tries the moves of a node one after the other, as the search of the
/// node does after the table and the null move did not end it; see
/// [`spec_move_loop`]. `moves` are pseudo-legal moves of the position and
/// `in_check` says whether the side to move stands in check.
pub fn search_moves(
    board: &mut Board,
    moves: &MoveStack,
    in_check: bool,
    depth: i32,
    depth_searched: i32,
    alpha: i32,
    beta: i32,
    think_time: u64,
    timer: &Instant,
    tt: &mut TranspositionTable,
    pv: &mut Vec<Move>,
    search_info: &mut SearchInfo,
) -> (score: i32)
    requires
        old(board).wf(),
        old(tt).wf(),
        old(search_info).wf(),
        moves.wf(),
        forall|m: Move| #[trigger] moves@.contains(m) ==> old(board)@.pseudo_legal(m),
        in_check == old(board)@.in_check(),
        1 <= depth <= 200,
        0 <= depth_searched,
        depth_searched + depth <= 10_000,
        -SCORE_INF <= alpha <= SCORE_INF,
        -SCORE_INF <= beta <= SCORE_INF,
    ensures
        final(board).wf(),
        final(board).same_position(old(board)),
        final(tt).wf(),
        final(tt).mask == old(tt).mask,
        final(tt).age == old(tt).age,
        final(search_info).wf(),
        final(search_info).params == old(search_info).params,
        final(search_info).pawns.mask == old(search_info).pawns.mask,
        old(search_info).stopped ==> final(search_info).stopped,
        old(search_info).nodes <= final(search_info).nodes,
        final(search_info).stopped && !old(search_info).stopped ==> polled_between(
            old(search_info).nodes as int,
            final(search_info).nodes as int,
        ),
        -SCORE_INF <= score <= SCORE_INF,
        !any_legal(old(board)@, moves@) ==> score == no_move_score(
            old(board)@,
            depth_searched as int,
        ) && final(pv)@.len() == 0 && *final(tt) == *old(tt),
        !final(search_info).stopped && any_legal(old(board)@, moves@) ==> node_stored(
            old(board)@,
            *final(tt),
            old(board).zobrist_hash,
            depth as int,
            alpha as int,
            beta as int,
            score as int,
            final(pv)@,
        ),
        !final(search_info).stopped ==> ({
            let all = spec_move_loop(
                frame_of(*old(tt), *old(search_info)),
                old(board)@,
                moves@,
                0,
                depth as int,
                depth_searched as int,
                alpha as int,
                beta as int,
                false,
                false,
                None,
                Seq::empty(),
                state_of(*old(tt), *old(search_info)),
            );
            all.fits ==> score == all.score && final(pv)@ == all.pv && state_of(
                *final(tt),
                *final(search_info),
            ) == all.st
        }),
    decreases depth, 1int,
{
    let ghost p = board@;
    let ghost key = board.zobrist_hash;
    let ghost fr = frame_of(*tt, *search_info);
    let ghost all = spec_move_loop(
        fr,
        p,
        moves@,
        0,
        depth as int,
        depth_searched as int,
        alpha as int,
        beta as int,
        false,
        false,
        None,
        Seq::empty(),
        state_of(*tt, *search_info),
    );
    let n = moves.len();
    let mut lower = alpha;
    let mut has_moves = false;
    let mut improved = false;
    let mut best_move: Option<Move> = None;
    let mut best_pv: Vec<Move> = Vec::new();
    let mut i: usize = 0;
    while i < n
        invariant
            i <= n,
            n == moves@.len(),
            moves.wf(),
            board.wf(),
            board.same_position(old(board)),
            p == old(board)@,
            tt.wf(),
            search_info.wf(),
            1 <= depth <= 200,
            0 <= depth_searched,
            depth_searched + depth <= 10_000,
            -SCORE_INF <= lower <= SCORE_INF,
            -SCORE_INF <= beta <= SCORE_INF,
            forall|m: Move| #[trigger] moves@.contains(m) ==> p.pseudo_legal(m),
            key == board.zobrist_hash,
            key == old(board).zobrist_hash,
            fr == frame_of(*old(tt), *old(search_info)),
            fr == frame_of(*tt, *search_info),
            old(search_info).stopped ==> search_info.stopped,
            old(search_info).nodes <= search_info.nodes,
            search_info.stopped && !old(search_info).stopped ==> polled_between(
                old(search_info).nodes as int,
                search_info.nodes as int,
            ),
            alpha <= lower,
            improved ==> alpha < lower < beta,
            improved ==> (best_move matches Some(bm) && p.legal(bm) && best_pv@.len() > 0
                && best_pv@[0] == bm),
            !improved ==> lower == alpha && best_move is None && best_pv@.len() == 0,
            !has_moves ==> forall|j: int| 0 <= j < i ==> !p.legal(#[trigger] moves@[j]),
            has_moves ==> any_legal(p, moves@),
            !has_moves ==> *tt == *old(tt),
            all == spec_move_loop(
                fr,
                p,
                moves@,
                0,
                depth as int,
                depth_searched as int,
                alpha as int,
                beta as int,
                false,
                false,
                None,
                Seq::empty(),
                state_of(*old(tt), *old(search_info)),
            ),
            !search_info.stopped && all.fits ==> ({
                let rest = spec_move_loop(
                    fr,
                    p,
                    moves@,
                    i as int,
                    depth as int,
                    depth_searched as int,
                    lower as int,
                    beta as int,
                    has_moves,
                    improved,
                    best_move,
                    best_pv@,
                    state_of(*tt, *search_info),
                );
                rest.fits && rest.score == all.score && rest.pv == all.pv && rest.st == all.st
            }),
        decreases n - i,
    {
        let m = moves.get(i);
        assert(moves@.contains(m));
        let mut child_pv: Vec<Move> = Vec::new();
        let ghost st_before = state_of(*tt, *search_info);
        let ghost tried = spec_search_move(
            fr,
            p,
            m,
            depth as int,
            depth_searched as int,
            lower as int,
            beta as int,
            depth >= 3 && i >= 4,
            Seq::empty(),
            st_before,
        );
        proof {
            lemma_move_loop_step(
                fr,
                p,
                moves@,
                i as int,
                depth as int,
                depth_searched as int,
                lower as int,
                beta as int,
                has_moves,
                improved,
                best_move,
                best_pv@,
                st_before,
                tried,
            );
        }
        let found = search_move(
            board,
            m,
            depth,
            depth_searched,
            lower,
            beta,
            depth >= 3 && i >= 4,
            think_time,
            timer,
            tt,
            &mut child_pv,
            search_info,
        );
        if let Some(eval) = found {
            has_moves = true;
            if search_info.stopped {
                copy_pv(pv, &best_pv);
                return lower;
            }
            if eval >= beta {
                if !m.is_capture() {
                    search_info.update_killer(depth_searched as usize, m);
                }
                set_pv(pv, m, &child_pv);
                let entry = TTEntry {
                    zobrist: board.zobrist_hash,
                    best_move: Some(m),
                    depth: depth as u8,
                    score: beta,
                    bound: Bound::Lower,
                    age: tt.age,
                };
                let ghost before = tt.table@;
                tt.store(entry);
                proof {
                    assert(tt.table@ == tt_store(before, tt.mask, entry));
                    assert(pv@[0] == m);
                    assert(node_entry(
                        p,
                        key,
                        depth as int,
                        tt.age,
                        alpha as int,
                        beta as int,
                        beta as int,
                        pv@,
                        entry,
                    ));
                }
                return beta;
            }
            if eval > lower {
                lower = eval;
                improved = true;
                best_move = Some(m);
                set_pv(&mut best_pv, m, &child_pv);
                assert(best_pv@[0] == m);
            }
        }
        i += 1;
    }
    proof {
        lemma_move_loop_end(
            fr,
            p,
            moves@,
            i as int,
            depth as int,
            depth_searched as int,
            lower as int,
            beta as int,
            has_moves,
            improved,
            best_move,
            best_pv@,
            state_of(*tt, *search_info),
        );
    }
    if !has_moves {
        pv.clear();
        if in_check {
            return depth_searched - MATE_SCORE;
        } else {
            return 0;
        }
    }
    let entry = TTEntry {
        zobrist: board.zobrist_hash,
        best_move,
        depth: depth as u8,
        score: lower,
        bound: if improved {
            Bound::Exact
        } else {
            Bound::Upper
        },
        age: tt.age,
    };
    let ghost before = tt.table@;
    tt.store(entry);
    copy_pv(pv, &best_pv);
    proof {
        assert(tt.table@ == tt_store(before, tt.mask, entry));
        assert(node_entry(
            p,
            key,
            depth as int,
            tt.age,
            alpha as int,
            beta as int,
            lower as int,
            pv@,
            entry,
        ));
    }
    lower
}

/// What one iteration of the iterative deepening found.
pub struct DepthReport {
    pub score: i32,
    pub depth: i32,
    pub nodes: u64,
    pub elapsed_ms: u128,
    pub pv: Vec<Move>,
    pub best_move: Move,
}

/// Whether `m` is a move to play in `p`: a legal move, or the null move
/// when there is no legal move.
pub open spec fn playable(p: Position, m: Move) -> bool {
    if exists|x: Move| p.legal(x) {
        p.legal(m)
    } else {
        m == (Move { info: 0 })
    }
}

/// An iterative deepening between two iterations: the best move so far,
/// the best move and the score of the last iteration that was completed,
/// the depth of the next iteration, and whether there is to be one.
pub struct ThinkState {
    pub best_move: Move,
    pub previous_best: Move,
    pub prev_eval: i32,
    pub depth: i32,
    pub running: bool,
}

impl ThinkState {
    /// The state of a search of the position `p`.
    pub open spec fn wf(&self, p: Position) -> bool {
        &&& 0 <= self.depth <= MAX_DEPTH + 1
        &&& -SCORE_INF <= self.prev_eval <= SCORE_INF
        &&& playable(p, self.best_move)
        &&& playable(p, self.previous_best)
        &&& self.running ==> p.legal(self.best_move) && p.legal(self.previous_best)
    }
}

/// What a search found: the move to play and what each iteration
/// reported.
pub struct SearchResult {
    pub best_move: Move,
    pub reports: Vec<DepthReport>,
}

/// The age of the table after the next search began.
pub open spec fn age_after(age: u8) -> u8 {
    if age == 255 {
        0u8
    } else {
        (age + 1) as u8
    }
}

/// The legal moves of the root in the order in which the search looks at
/// them before its first iteration.
pub open spec fn first_moves(p: Position, killers: [Move; 2]) -> Seq<Move> {
    sorted_by_score(gen_list(p, true), |m: Move| spec_order_score(p, m, None, killers))
}

/// The state in which a search begins: the first choice of move is the
/// move that the table remembers for the position if there is more than
/// one legal move and it is one of them, and else the legal move that is
/// ordered first, or the null move where there is none. The search runs
/// if there is more than one legal move.
pub open spec fn first_choice(p: Position, hit: Option<TTEntry>, killers: [Move; 2]) -> ThinkState {
    let first = first_moves(p, killers);
    let lead = if first.len() > 0 {
        first[0]
    } else {
        Move { info: 0 }
    };
    let best = match hit {
        Some(e) => match e.best_move {
            Some(mv) => if first.len() > 1 && first.contains(mv) {
                mv
            } else {
                lead
            },
            None => lead,
        },
        None => lead,
    };
    ThinkState {
        best_move: best,
        previous_best: best,
        prev_eval: 0,
        depth: 0,
        running: first.len() > 1,
    }
}

/// A search after some iterations: the state of the iterative deepening,
/// the state of the search, and whether the move buffer had room
/// throughout.
pub struct ThinkModel {
    pub state: ThinkState,
    pub st: SearchState,
    pub fits: bool,
}

/// The search after `k` iterations that the clock did not stop, begun in
/// the state `start`: each iteration is what [`spec_iteration`] says, and
/// a score that announces a mate ends the search.
pub open spec fn spec_think(
    fr: SearchFrame,
    p: Position,
    k: nat,
    start: ThinkState,
    st: SearchState,
) -> ThinkModel
    decreases k,
{
    if k == 0 {
        ThinkModel { state: start, st: st, fits: true }
    } else {
        let before = spec_think(fr, p, (k - 1) as nat, start, st);
        let out = spec_iteration(
            fr,
            p,
            before.state.depth as int,
            before.state.prev_eval as int,
            before.state.previous_best,
            before.state.best_move,
            before.st,
        );
        ThinkModel {
            state: ThinkState {
                best_move: out.best_move,
                previous_best: out.best_move,
                prev_eval: out.score as i32,
                depth: (before.state.depth + 1) as i32,
                running: -MATE_FOUND < out.score < MATE_FOUND,
            },
            st: out.st,
            fits: before.fits && out.fits && roomy(p),
        }
    }
}

/// Begins the search of a position: a new age of the transposition
/// table, the node counter at zero, and a first choice of move, which is
/// the move that the table remembers for the position if that is a legal
/// move, and else the legal move that is ordered first. A position with
/// no legal move, or with one only, needs no search. See [`first_choice`].
pub fn think_start(
    board: &mut Board,
    tt: &mut TranspositionTable,
    search_info: &mut SearchInfo,
) -> (r: ThinkState)
    requires
        old(board).wf(),
        old(tt).wf(),
        old(search_info).wf(),
    ensures
        final(board).wf(),
        final(board).same_position(old(board)),
        final(tt).wf(),
        final(tt).mask == old(tt).mask,
        final(search_info).wf(),
        final(search_info).params == old(search_info).params,
        final(search_info).nodes == 0,
        !final(search_info).stopped,
        r.wf(old(board)@),
        r.depth == 0,
        r.prev_eval == 0,
        r.previous_best == r.best_move,
        final(tt).age == age_after(old(tt).age),
        final(tt).table == old(tt).table,
        final(search_info).killer_moves == old(search_info).killer_moves,
        final(search_info).pawns == old(search_info).pawns,
        roomy(old(board)@) ==> r == first_choice(
            old(board)@,
            old(tt).spec_probe(old(board).zobrist_hash),
            killers_of(old(search_info).killer_moves@, 0),
        ),
{
    let ghost p = board@;
    let ghost start = *board;
    tt.next_age();
    search_info.next_move();
    let killers = search_info.killers_at(0);
    let first = board.get_ordered_moves(false, true, false, None, &killers);
    proof {
        lemma_sorted_by_score(board.moves@, |m: Move| spec_order_score(p, m, None, killers));
        board.lemma_restored(&start);
        if first@.len() == 0 {
            assert forall|m: Move| !p.legal(m) by {
                if p.legal(m) {
                    assert(p.pseudo_legal(m));
                    assert(board.moves@.contains(m));
                }
            }
        } else {
            assert(first@.contains(first@[0]));
            assert(p.legal(first@[0]));
        }
        if roomy(p) {
            assert(first@ == first_moves(p, killers));
        }
    }
    let mut best_move = first.first();
    let running = first.len() > 1;
    if running {
        match tt.probe(board.zobrist_hash) {
            Some(entry) => {
                if let Some(mv) = entry.best_move {
                    if first.contains(mv) {
                        best_move = mv;
                    }
                }
            },
            None => {},
        }
    }
    ThinkState { best_move, previous_best: best_move, prev_eval: 0, depth: 0, running }
}

/// What the search of one move of the root yields when the clock does
/// not stop it: the value of the move for the mover, searched in the
/// window from `lo` to `hi` and, where the value falls outside it, again
/// without a window.
pub open spec fn spec_root_move(
    fr: SearchFrame,
    p: Position,
    m: Move,
    depth: int,
    lo: int,
    hi: int,
    pv: Seq<Move>,
    st: SearchState,
) -> SearchOut {
    let first = spec_minimax(fr, p.make(m), depth, 0, -hi, -lo, pv, st);
    if -first.score <= lo || -first.score >= hi {
        let again = spec_minimax(
            fr,
            p.make(m),
            depth,
            0,
            -SCORE_INF as int,
            SCORE_INF as int,
            first.pv,
            first.st,
        );
        SearchOut {
            score: -again.score,
            pv: again.pv,
            st: again.st,
            fits: first.fits && again.fits,
        }
    } else {
        SearchOut { score: -first.score, pv: first.pv, st: first.st, fits: first.fits }
    }
}

/// What an iteration of the iterative deepening yields when the clock
/// does not stop it: the score, the best move, the principal variation,
/// the state it leaves, and whether the move buffer had room throughout.
pub struct RootOut {
    pub score: int,
    pub best_move: Move,
    pub pv: Seq<Move>,
    pub st: SearchState,
    pub fits: bool,
}

/// What an iteration makes of the moves of the root from number `i` on:
/// each is searched, and a move of a value above the best so far becomes
/// the best move, with the variation that follows it.
#[verifier::opaque]
pub open spec fn spec_root_loop(
    fr: SearchFrame,
    p: Position,
    moves: Seq<Move>,
    i: int,
    depth: int,
    lo: int,
    hi: int,
    alpha: int,
    best_move: Move,
    pv: Seq<Move>,
    st: SearchState,
) -> RootOut
    decreases moves.len() - i,
{
    if i < 0 || i >= moves.len() {
        RootOut { score: alpha, best_move: best_move, pv: pv, st: st, fits: true }
    } else {
        let found = spec_root_move(fr, p, moves[i], depth, lo, hi, Seq::empty(), st);
        let rest = if found.score > alpha {
            spec_root_loop(
                fr,
                p,
                moves,
                i + 1,
                depth,
                lo,
                hi,
                found.score,
                moves[i],
                seq![moves[i]] + found.pv,
                found.st,
            )
        } else {
            spec_root_loop(fr, p, moves, i + 1, depth, lo, hi, alpha, best_move, pv, found.st)
        };
        RootOut { fits: rest.fits && found.fits, ..rest }
    }
}

/// What [`spec_root_loop`] says.
pub proof fn lemma_root_loop(
    fr: SearchFrame,
    p: Position,
    moves: Seq<Move>,
    i: int,
    depth: int,
    lo: int,
    hi: int,
    alpha: int,
    best_move: Move,
    pv: Seq<Move>,
    st: SearchState,
)
    ensures
        spec_root_loop(fr, p, moves, i, depth, lo, hi, alpha, best_move, pv, st) == (if i < 0 || i
            >= moves.len() {
            RootOut { score: alpha, best_move: best_move, pv: pv, st: st, fits: true }
        } else {
            let found = spec_root_move(fr, p, moves[i], depth, lo, hi, Seq::empty(), st);
            let rest = if found.score > alpha {
                spec_root_loop(
                    fr,
                    p,
                    moves,
                    i + 1,
                    depth,
                    lo,
                    hi,
                    found.score,
                    moves[i],
                    seq![moves[i]] + found.pv,
                    found.st,
                )
            } else {
                spec_root_loop(fr, p, moves, i + 1, depth, lo, hi, alpha, best_move, pv, found.st)
            };
            RootOut { fits: rest.fits && found.fits, ..rest }
        }),
{
    reveal(spec_root_loop);
}

/// The legal moves of the root in the order in which an iteration tries
/// them: the best move of the last iteration first.
pub open spec fn root_moves(p: Position, previous_best: Move, killers: [Move; 2]) -> Seq<Move> {
    sorted_by_score(
        gen_list(p, true),
        |m: Move| spec_order_score(p, m, Some(previous_best), killers),
    )
}

/// What the iteration of depth `depth` yields when the clock does not
/// stop it, after an iteration that scored `prev_eval` with the best move
/// `previous_best`: every legal move is searched in a window of
/// [`WINDOW`] to either side of `prev_eval`.
pub open spec fn spec_iteration(
    fr: SearchFrame,
    p: Position,
    depth: int,
    prev_eval: int,
    previous_best: Move,
    best_move: Move,
    st: SearchState,
) -> RootOut {
    let all = spec_root_loop(
        fr,
        p,
        root_moves(p, previous_best, killers_of(st.killers, 0)),
        0,
        depth,
        spec_clamp(prev_eval - WINDOW),
        spec_clamp(prev_eval + WINDOW),
        -SCORE_INF as int,
        best_move,
        Seq::empty(),
        st,
    );
    RootOut { fits: all.fits && roomy(p), ..all }
}

/// Whether the side to move in `q` is mated and the table has nothing to
/// say of `q` at the depth: `q` is not drawn, the side to move stands in
/// check and has no legal move, and the table holds no entry under the
/// key of `q` from a search that deep.
pub open spec fn mated_unseen(q: Position, table: Seq<Option<TTEntry>>, mask: usize, depth: int) -> bool {
    &&& !q.is_draw()
    &&& q.in_check()
    &&& forall|x: Move| !q.legal(x)
    &&& match tt_probe(table, mask, q.hash) {
        Some(e) => e.depth < depth,
        None => true,
    }
}

/// A move that mates scores the mate score at the root: where the
/// position behind the move is mated and unseen by the table, the value
/// of the move is [`MATE_SCORE`], and its search writes nothing to the
/// table.
pub proof fn lemma_mating_move_at_root(
    fr: SearchFrame,
    p: Position,
    m: Move,
    depth: int,
    lo: int,
    hi: int,
    pv: Seq<Move>,
    st: SearchState,
)
    requires
        depth >= 1,
        mated_unseen(p.make(m), st.table, fr.table_mask, depth),
    ensures
        spec_root_move(fr, p, m, depth, lo, hi, pv, st).score == MATE_SCORE,
        spec_root_move(fr, p, m, depth, lo, hi, pv, st).st.table == st.table,
        spec_root_move(fr, p, m, depth, lo, hi, pv, st).fits == roomy(p.make(m)),
{
    let q = p.make(m);
    lemma_no_move_is_mate_or_stalemate(fr, q, depth, 0, -hi, -lo, pv, st);
    let first = spec_minimax(fr, q, depth, 0, -hi, -lo, pv, st);
    lemma_no_move_is_mate_or_stalemate(
        fr,
        q,
        depth,
        0,
        -SCORE_INF as int,
        SCORE_INF as int,
        first.pv,
        first.st,
    );
}

/// The state of an iteration before move number `i` is searched: the
/// best score, move and variation of the moves before it, and the state
/// that their search left.
pub open spec fn root_prefix(
    fr: SearchFrame,
    p: Position,
    moves: Seq<Move>,
    i: int,
    depth: int,
    lo: int,
    hi: int,
    alpha: int,
    best_move: Move,
    pv: Seq<Move>,
    st: SearchState,
) -> RootOut
    decreases i,
{
    if i <= 0 {
        RootOut { score: alpha, best_move: best_move, pv: pv, st: st, fits: true }
    } else {
        let before = root_prefix(fr, p, moves, i - 1, depth, lo, hi, alpha, best_move, pv, st);
        let found = spec_root_move(fr, p, moves[i - 1], depth, lo, hi, Seq::empty(), before.st);
        if found.score > before.score {
            RootOut {
                score: found.score,
                best_move: moves[i - 1],
                pv: seq![moves[i - 1]] + found.pv,
                st: found.st,
                fits: before.fits && found.fits,
            }
        } else {
            RootOut { st: found.st, fits: before.fits && found.fits, ..before }
        }
    }
}

/// The score of an iteration is at least the best score so far.
pub proof fn lemma_root_loop_rises(
    fr: SearchFrame,
    p: Position,
    moves: Seq<Move>,
    i: int,
    depth: int,
    lo: int,
    hi: int,
    alpha: int,
    best_move: Move,
    pv: Seq<Move>,
    st: SearchState,
)
    requires
        0 <= i,
    ensures
        spec_root_loop(fr, p, moves, i, depth, lo, hi, alpha, best_move, pv, st).score >= alpha,
    decreases moves.len() - i,
{
    lemma_root_loop(fr, p, moves, i, depth, lo, hi, alpha, best_move, pv, st);
    if i < moves.len() {
        let found = spec_root_move(fr, p, moves[i], depth, lo, hi, Seq::empty(), st);
        if found.score > alpha {
            lemma_root_loop_rises(
                fr,
                p,
                moves,
                i + 1,
                depth,
                lo,
                hi,
                found.score,
                moves[i],
                seq![moves[i]] + found.pv,
                found.st,
            );
        } else {
            lemma_root_loop_rises(fr, p, moves, i + 1, depth, lo, hi, alpha, best_move, pv, found.st);
        }
    }
}

/// An iteration is what the moves from number `i` on make of the state
/// that the moves before them left.
pub proof fn lemma_root_loop_from(
    fr: SearchFrame,
    p: Position,
    moves: Seq<Move>,
    i: int,
    depth: int,
    lo: int,
    hi: int,
    alpha: int,
    best_move: Move,
    pv: Seq<Move>,
    st: SearchState,
)
    requires
        0 <= i <= moves.len(),
    ensures
        ({
            let all = spec_root_loop(fr, p, moves, 0, depth, lo, hi, alpha, best_move, pv, st);
            let before = root_prefix(fr, p, moves, i, depth, lo, hi, alpha, best_move, pv, st);
            let rest = spec_root_loop(
                fr,
                p,
                moves,
                i,
                depth,
                lo,
                hi,
                before.score,
                before.best_move,
                before.pv,
                before.st,
            );
            all.score == rest.score && all.best_move == rest.best_move && all.pv == rest.pv
                && all.st == rest.st && all.fits == (before.fits && rest.fits)
        }),
    decreases i,
{
    if i > 0 {
        lemma_root_loop_from(fr, p, moves, i - 1, depth, lo, hi, alpha, best_move, pv, st);
        let before = root_prefix(fr, p, moves, i - 1, depth, lo, hi, alpha, best_move, pv, st);
        lemma_root_loop(
            fr,
            p,
            moves,
            i - 1,
            depth,
            lo,
            hi,
            before.score,
            before.best_move,
            before.pv,
            before.st,
        );
    }
}

/// An iteration of depth one or more that tries a mating move scores a
/// mate: where the position behind move number `i` of the root is mated,
/// and unseen by the table when the move is searched, the score of the
/// iteration is at least [`MATE_SCORE`], which announces a mate and ends
/// the search.
pub proof fn lemma_iteration_finds_mate(
    fr: SearchFrame,
    p: Position,
    depth: int,
    prev_eval: int,
    previous_best: Move,
    best_move: Move,
    st: SearchState,
    i: int,
)
    requires
        depth >= 1,
        0 <= i < root_moves(p, previous_best, killers_of(st.killers, 0)).len(),
        ({
            let moves = root_moves(p, previous_best, killers_of(st.killers, 0));
            mated_unseen(
                p.make(moves[i]),
                root_prefix(
                    fr,
                    p,
                    moves,
                    i,
                    depth,
                    spec_clamp(prev_eval - WINDOW),
                    spec_clamp(prev_eval + WINDOW),
                    -SCORE_INF as int,
                    best_move,
                    Seq::empty(),
                    st,
                ).st.table,
                fr.table_mask,
                depth,
            )
        }),
    ensures
        spec_iteration(fr, p, depth, prev_eval, previous_best, best_move, st).score >= MATE_SCORE,
        spec_iteration(fr, p, depth, prev_eval, previous_best, best_move, st).score >= MATE_FOUND,
{
    let moves = root_moves(p, previous_best, killers_of(st.killers, 0));
    let lo = spec_clamp(prev_eval - WINDOW);
    let hi = spec_clamp(prev_eval + WINDOW);
    let low = -SCORE_INF as int;
    let before = root_prefix(fr, p, moves, i, depth, lo, hi, low, best_move, Seq::empty(), st);
    lemma_root_loop_from(fr, p, moves, i, depth, lo, hi, low, best_move, Seq::empty(), st);
    lemma_root_loop(
        fr,
        p,
        moves,
        i,
        depth,
        lo,
        hi,
        before.score,
        before.best_move,
        before.pv,
        before.st,
    );
    lemma_mating_move_at_root(fr, p, moves[i], depth, lo, hi, Seq::empty(), before.st);
    let found = spec_root_move(fr, p, moves[i], depth, lo, hi, Seq::empty(), before.st);
    if found.score > before.score {
        lemma_root_loop_rises(
            fr,
            p,
            moves,
            i + 1,
            depth,
            lo,
            hi,
            found.score,
            moves[i],
            seq![moves[i]] + found.pv,
            found.st,
        );
    } else {
        lemma_root_loop_rises(
            fr,
            p,
            moves,
            i + 1,
            depth,
            lo,
            hi,
            before.score,
            before.best_move,
            before.pv,
            found.st,
        );
    }
}

/// Searches one move of the root: makes it, searches the position
/// behind it `depth` plies deep in the window from `lo` to `hi` and, where
/// the score falls outside the window, again without a window, and takes
/// the move back. Returns the value of the move for the mover.
///
/// A move into a drawn position is worth nothing. A move that leaves the
/// other side without a legal move is worth the mate score when it gives
/// check and nothing when it does not, as far as the table is silent on
/// the position behind it and the search tries no null move there.
pub fn search_root_move(
    board: &mut Board,
    m: Move,
    depth: i32,
    lo: i32,
    hi: i32,
    think_time: u64,
    timer: &Instant,
    tt: &mut TranspositionTable,
    child_pv: &mut Vec<Move>,
    search_info: &mut SearchInfo,
) -> (eval: i32)
    requires
        old(board).wf(),
        old(board)@.pseudo_legal(m),
        old(tt).wf(),
        old(search_info).wf(),
        0 <= depth <= 200,
        -SCORE_INF <= lo <= SCORE_INF,
        -SCORE_INF <= hi <= SCORE_INF,
    ensures
        final(board).wf(),
        final(board).same_position(old(board)),
        final(tt).wf(),
        final(tt).mask == old(tt).mask,
        final(tt).age == old(tt).age,
        final(search_info).wf(),
        final(search_info).params == old(search_info).params,
        -SCORE_INF <= eval <= SCORE_INF,
        old(board)@.make(m).is_draw() ==> eval == 0 && *final(tt) == *old(tt) && final(child_pv)@.len()
            == 0,
        ({
            let q = old(board)@.make(m);
            !q.is_draw() && depth >= 1 && tt_silent(old(tt), q.hash, depth as int) && (forall|
                x: Move,
            |
                !q.legal(x)) && !null_move_tried(q, depth as int) ==> eval == -no_move_score(q, 0)
                && *final(tt) == *old(tt) && final(child_pv)@.len() == 0
        }),
        final(search_info).pawns.mask == old(search_info).pawns.mask,
        old(search_info).stopped ==> final(search_info).stopped,
        old(search_info).nodes <= final(search_info).nodes,
        final(search_info).stopped && !old(search_info).stopped ==> polled_between(
            old(search_info).nodes as int,
            final(search_info).nodes as int,
        ),
        !final(search_info).stopped ==> ({
            let out = spec_root_move(
                frame_of(*old(tt), *old(search_info)),
                old(board)@,
                m,
                depth as int,
                lo as int,
                hi as int,
                old(child_pv)@,
                state_of(*old(tt), *old(search_info)),
            );
            out.fits ==> eval == out.score && final(child_pv)@ == out.pv && state_of(
                *final(tt),
                *final(search_info),
            ) == out.st
        }),
{
    let ghost p = board@;
    let ghost start = *board;
    proof {
        lemma_make_undo(p, m);
    }
    let _ = make_move(board, &m);
    assert(board.zobrist_hash == p.make(m).hash);
    let mut eval = -minimax(
        board,
        depth,
        0,
        -hi,
        -lo,
        think_time,
        timer,
        tt,
        child_pv,
        search_info,
    );
    if eval <= lo || eval >= hi {
        eval = -minimax(
            board,
            depth,
            0,
            -SCORE_INF,
            SCORE_INF,
            think_time,
            timer,
            tt,
            child_pv,
            search_info,
        );
    }
    let _ = undo_move(board);
    proof {
        board.lemma_restored(&start);
    }
    eval
}

/// Whether the next iteration is due, given what the clock says: the
/// search is running, the depth is not beyond the deepest iteration and
/// no more time has passed than there is to think. Where the search was
/// running and no iteration is due, the search ends, with the best move
/// of the last iteration that was completed.
pub fn iteration_due(state: &mut ThinkState, elapsed_ms: u128, think_time: u64) -> (due: bool)
    ensures
        due == (old(state).running && old(state).depth <= MAX_DEPTH && elapsed_ms <= think_time),
        due || !old(state).running ==> *final(state) == *old(state),
        !due && old(state).running ==> *final(state) == (ThinkState {
            best_move: old(state).previous_best,
            running: false,
            ..*old(state)
        }),
{
    if !state.running {
        return false;
    }
    if state.depth > MAX_DEPTH || time_is_up(elapsed_ms, think_time) {
        state.best_move = state.previous_best;
        state.running = false;
        return false;
    }
    true
}

/// One iteration of the iterative deepening: searches every legal move
/// of the position to the depth of the state, in a window around the
/// score of the last iteration and, where the score falls outside it,
/// again without a window. Returns what the iteration found; returns
/// nothing, and ends the search, when the search was over before, when
/// the depth is beyond the deepest iteration, and when the clock runs out
/// before or during the iteration, in which case the best move is that of
/// the last iteration that was completed. A score that announces a mate
/// ends the search after the iteration. What a completed iteration
/// reports and leaves behind is what [`spec_iteration`] says, as far as
/// the move buffer had room throughout.
pub fn think_step(
    state: &mut ThinkState,
    board: &mut Board,
    think_time: u64,
    timer: &Instant,
    tt: &mut TranspositionTable,
    search_info: &mut SearchInfo,
) -> (r: Option<DepthReport>)
    requires
        old(board).wf(),
        old(tt).wf(),
        old(search_info).wf(),
        old(state).wf(old(board)@),
    ensures
        final(board).wf(),
        final(board).same_position(old(board)),
        final(tt).wf(),
        final(tt).mask == old(tt).mask,
        final(search_info).wf(),
        final(search_info).params == old(search_info).params,
        final(state).wf(old(board)@),
        r is None ==> !final(state).running && final(state).depth == old(state).depth
            && final(state).prev_eval == old(state).prev_eval && final(state).previous_best
            == old(state).previous_best,
        r is None && old(state).running ==> final(state).best_move == old(state).previous_best,
        old(state).running && old(state).depth > MAX_DEPTH ==> r is None,
        r matches Some(rep) ==> old(state).running && final(state).depth == old(state).depth + 1
            && rep.depth == old(state).depth && rep.best_move == final(state).best_move
            && rep.score == final(state).prev_eval && final(state).previous_best == final(state).best_move,
        r matches Some(rep) ==> old(board)@.legal(rep.best_move)
            && rep.nodes == final(search_info).nodes && !final(search_info).stopped
            && final(state).running == (-MATE_FOUND < rep.score < MATE_FOUND),
        r matches Some(rep) ==> (if rep.score > -SCORE_INF {
            rep.pv@.len() > 0 && rep.pv@[0] == rep.best_move
        } else {
            rep.pv@.len() == 0 && rep.best_move == old(state).best_move
        }),
        !old(state).running ==> *final(state) == *old(state),
        final(tt).age == old(tt).age,
        final(search_info).pawns.mask == old(search_info).pawns.mask,
        r matches Some(rep) ==> ({
            let out = spec_iteration(
                frame_of(*old(tt), *old(search_info)),
                old(board)@,
                old(state).depth as int,
                old(state).prev_eval as int,
                old(state).previous_best,
                old(state).best_move,
                state_of(*old(tt), *old(search_info)),
            );
            out.fits ==> rep.score == out.score && rep.best_move == out.best_move && rep.pv@
                == out.pv && state_of(*final(tt), *final(search_info)) == out.st
        }),
{
    let ghost p = board@;
    let ghost start = *board;
    let ghost fr = frame_of(*tt, *search_info);
    let ghost st0 = state_of(*tt, *search_info);
    if !state.running {
        return None;
    }
    if !iteration_due(state, elapsed_millis(timer), think_time) {
        return None;
    }
    let depth = state.depth;
    let killers = search_info.killers_at(0);
    let moves = board.get_ordered_moves(false, true, false, Some(state.previous_best), &killers);
    proof {
        lemma_sorted_by_score(
            board.moves@,
            |m: Move| spec_order_score(p, m, Some(state.previous_best), killers),
        );
        board.lemma_restored(&start);
        if moves@.len() == 0 {
            assert(p.pseudo_legal(state.best_move));
            assert(board.moves@.contains(state.best_move));
        }
        if roomy(p) {
            assert(moves@ == root_moves(p, state.previous_best, killers));
        }
    }
    let n = moves.len();
    let mut alpha: i32 = -SCORE_INF;
    let mut best_move = state.best_move;
    let mut local_pv: Vec<Move> = Vec::new();
    let mut timed_out = false;
    let lo: i32 = clamp_score(state.prev_eval as i64 - WINDOW as i64);
    let hi: i32 = clamp_score(state.prev_eval as i64 + WINDOW as i64);
    let ghost all = spec_root_loop(
        fr,
        p,
        moves@,
        0,
        depth as int,
        lo as int,
        hi as int,
        -SCORE_INF as int,
        state.best_move,
        Seq::empty(),
        st0,
    );
    let mut i: usize = 0;
    while i < n && !timed_out
        invariant
            i <= n,
            n == moves@.len(),
            moves.wf(),
            0 <= depth <= MAX_DEPTH,
            board.wf(),
            start.wf(),
            board.same_position(&start),
            start.same_position(old(board)),
            p == start@,
            tt.wf(),
            tt.mask == old(tt).mask,
            search_info.wf(),
            search_info.params == old(search_info).params,
            fr == frame_of(*old(tt), *old(search_info)),
            fr == frame_of(*tt, *search_info),
            st0 == state_of(*old(tt), *old(search_info)),
            all == spec_root_loop(
                fr,
                p,
                moves@,
                0,
                depth as int,
                lo as int,
                hi as int,
                -SCORE_INF as int,
                old(state).best_move,
                Seq::empty(),
                st0,
            ),
            !timed_out && all.fits ==> ({
                let rest = spec_root_loop(
                    fr,
                    p,
                    moves@,
                    i as int,
                    depth as int,
                    lo as int,
                    hi as int,
                    alpha as int,
                    best_move,
                    local_pv@,
                    state_of(*tt, *search_info),
                );
                rest.fits && rest.score == all.score && rest.best_move == all.best_move && rest.pv
                    == all.pv && rest.st == all.st
            }),
            -SCORE_INF <= alpha <= SCORE_INF,
            -SCORE_INF <= lo <= SCORE_INF,
            -SCORE_INF <= hi <= SCORE_INF,
            p.legal(best_move),
            forall|m: Move| #[trigger] moves@.contains(m) ==> p.legal(m),
            best_move == old(state).best_move || alpha > -SCORE_INF,
            n > 0,
            i > 0 && !timed_out ==> !search_info.stopped,
            if alpha > -SCORE_INF {
                local_pv@.len() > 0 && local_pv@[0] == best_move
            } else {
                local_pv@.len() == 0 && best_move == old(state).best_move
            },
        decreases n - i,
    {
        let m = moves.get(i);
        assert(moves@.contains(m));
        let mut child_pv: Vec<Move> = Vec::new();
        proof {
            lemma_root_loop(
                fr,
                p,
                moves@,
                i as int,
                depth as int,
                lo as int,
                hi as int,
                alpha as int,
                best_move,
                local_pv@,
                state_of(*tt, *search_info),
            );
        }
        let eval = search_root_move(
            board,
            m,
            depth,
            lo,
            hi,
            think_time,
            timer,
            tt,
            &mut child_pv,
            search_info,
        );
        proof {
            board.lemma_restored(&start);
        }
        if search_info.stopped || time_is_up(elapsed_millis(timer), think_time) {
            timed_out = true;
        } else if eval > alpha {
            alpha = eval;
            best_move = m;
            set_pv(&mut local_pv, m, &child_pv);
            assert(local_pv@[0] == m);
        }
        i += 1;
    }
    if timed_out {
        state.best_move = state.previous_best;
        state.running = false;
        return None;
    }
    proof {
        lemma_root_loop(
            fr,
            p,
            moves@,
            i as int,
            depth as int,
            lo as int,
            hi as int,
            alpha as int,
            best_move,
            local_pv@,
            state_of(*tt, *search_info),
        );
    }
    state.best_move = best_move;
    state.previous_best = best_move;
    state.prev_eval = alpha;
    state.depth = depth + 1;
    if alpha >= MATE_FOUND || alpha <= -MATE_FOUND {
        state.running = false;
    }
    Some(
        DepthReport {
            score: alpha,
            depth,
            nodes: search_info.nodes,
            elapsed_ms: elapsed_millis(timer),
            pv: local_pv,
            best_move,
        },
    )
}

/// Searches the position by iterative deepening for as long as the clock
/// allows and returns the move to play, with what each iteration
/// reported.
///
/// The move returned is a legal move of the position whenever the
/// position has a legal move, and the null move when it has none. It is
/// the best move of the last iteration that the clock let finish, and
/// the first choice where it let none finish. Iteration by iteration the
/// reports are what [`spec_think`] says. The position is left as it was.
pub fn think(
    board: &mut Board,
    think_time: u64,
    timer: &Instant,
    tt: &mut TranspositionTable,
    search_info: &mut SearchInfo,
) -> (r: SearchResult)
    requires
        old(board).wf(),
        old(tt).wf(),
        old(search_info).wf(),
    ensures
        final(board).wf(),
        final(board).same_position(old(board)),
        final(tt).wf(),
        final(search_info).wf(),
        final(search_info).params == old(search_info).params,
        (exists|m: Move| old(board)@.legal(m)) ==> old(board)@.legal(r.best_move),
        (forall|m: Move| !old(board)@.legal(m)) ==> r.best_move == (Move { info: 0 }),
        r.reports@.len() <= MAX_DEPTH + 1,
        forall|i: int| 0 <= i < r.reports@.len() ==> (#[trigger] r.reports@[i]).depth == i,
        r.reports@.len() > 0 ==> r.best_move == r.reports@.last().best_move,
        forall|i: int|
            0 <= i < r.reports@.len() ==> old(board)@.legal((#[trigger] r.reports@[i]).best_move),
        roomy(old(board)@) ==> ({
            let fr = SearchFrame {
                params: old(search_info).params,
                pawn_mask: old(search_info).pawns.mask,
                table_mask: old(tt).mask,
                age: age_after(old(tt).age),
            };
            let began = first_choice(
                old(board)@,
                old(tt).spec_probe(old(board).zobrist_hash),
                killers_of(old(search_info).killer_moves@, 0),
            );
            let st = SearchState {
                table: old(tt).table@,
                killers: old(search_info).killer_moves@,
                pawns: old(search_info).pawns.table@,
                nodes: 0,
            };
            &&& r.reports@.len() == 0 ==> r.best_move == began.best_move
            &&& forall|i: int|
                0 <= i < r.reports@.len() ==> ({
                    let after = spec_think(fr, old(board)@, (i + 1) as nat, began, st);
                    after.fits ==> (#[trigger] r.reports@[i]).score == after.state.prev_eval
                        && r.reports@[i].best_move == after.state.best_move
                })
        }),
{
    let ghost p = board@;
    let ghost start = *board;
    let ghost fr = SearchFrame {
        params: search_info.params,
        pawn_mask: search_info.pawns.mask,
        table_mask: tt.mask,
        age: age_after(tt.age),
    };
    let ghost began = first_choice(
        p,
        tt.spec_probe(board.zobrist_hash),
        killers_of(search_info.killer_moves@, 0),
    );
    let ghost st = SearchState {
        table: tt.table@,
        killers: search_info.killer_moves@,
        pawns: search_info.pawns.table@,
        nodes: 0,
    };
    let mut state = think_start(board, tt, search_info);
    let mut reports: Vec<DepthReport> = Vec::new();
    while state.running
        invariant
            board.wf(),
            start.wf(),
            board.same_position(&start),
            start.same_position(old(board)),
            p == start@,
            tt.wf(),
            search_info.wf(),
            search_info.params == old(search_info).params,
            state.wf(p),
            reports@.len() == state.depth,
            forall|i: int| 0 <= i < reports@.len() ==> (#[trigger] reports@[i]).depth == i,
            reports@.len() > 0 ==> state.best_move == reports@.last().best_move
                && state.previous_best == state.best_move,
            forall|i: int| 0 <= i < reports@.len() ==> p.legal((#[trigger] reports@[i]).best_move),
            p == old(board)@,
            fr == (SearchFrame {
                params: old(search_info).params,
                pawn_mask: old(search_info).pawns.mask,
                table_mask: old(tt).mask,
                age: age_after(old(tt).age),
            }),
            began == first_choice(
                old(board)@,
                old(tt).spec_probe(old(board).zobrist_hash),
                killers_of(old(search_info).killer_moves@, 0),
            ),
            st == (SearchState {
                table: old(tt).table@,
                killers: old(search_info).killer_moves@,
                pawns: old(search_info).pawns.table@,
                nodes: 0,
            }),
            fr == frame_of(*tt, *search_info),
            roomy(p) && reports@.len() == 0 ==> state.best_move == began.best_move,
            roomy(p) && state.running ==> ({
                let now = spec_think(fr, p, reports@.len(), began, st);
                now.fits ==> state.best_move == now.state.best_move && state.previous_best
                    == now.state.previous_best && state.prev_eval == now.state.prev_eval
                    && state.depth == now.state.depth && state_of(*tt, *search_info) == now.st
            }),
            roomy(p) ==> forall|i: int|
                0 <= i < reports@.len() ==> ({
                    let after = spec_think(fr, p, (i + 1) as nat, began, st);
                    after.fits ==> (#[trigger] reports@[i]).score == after.state.prev_eval
                        && reports@[i].best_move == after.state.best_move
                }),
        decreases (if state.running { 1int } else { 0int }), MAX_DEPTH + 1 - state.depth,
    {
        let ghost k = reports@.len();
        let ghost held = reports@;
        let step = think_step(&mut state, board, think_time, timer, tt, search_info);
        proof {
            board.lemma_restored(&start);
        }
        if let Some(report) = step {
            reports.push(report);
            proof {
                assert(reports@.len() == k + 1);
                assert forall|i: int| 0 <= i < held.len() implies #[trigger] reports@[i]
                    == held[i] by {}
            }
        }
    }
    SearchResult { best_move: state.best_move, reports }
}

} // verus!
