//! The pseudo-legal move generator and its legal-only variant.

use vstd::prelude::*;
use crate::bits::{
    member,
    lemma_bit_ops,
    lemma_masks,
    bb_gs_low_bit,
    bb_get,
    bb_shift,
    bb_single,
    NOT_A_FILE,
    NOT_H_FILE,
    RANK_3,
    RANK_6,
};
use crate::square::BBPiece;
use crate::moves::{Move, MOVE_CAPACITY};
use crate::board::Board;
use crate::position::{Position, Piece, piece_attacks};
use crate::makemove::{make_move, undo_move};
use crate::laws::lemma_make_undo;

verus! {

/// Whether the generator is to list `m`: it is pseudo-legal, and legal
/// when only legal moves are asked for.
#[verifier::opaque]
pub open spec fn wanted(p: Position, m: Move, legal_only: bool) -> bool {
    p.pseudo_legal(m) && (legal_only ==> p.legal(m))
}

/// What `wanted` says.
pub proof fn lemma_wanted(p: Position, m: Move, legal_only: bool)
    ensures
        wanted(p, m, legal_only) == (p.pseudo_legal(m) && (legal_only ==> p.legal(m))),
{
    reveal(wanted);
}

/// The origin of a move of a batch to `to`: one fixed square, or the
/// square `delta` behind `to` from the mover's side.
pub open spec fn batch_from(to: int, fixed_from: int, white: bool, delta: int) -> int {
    if fixed_from < 64 {
        fixed_from
    } else if white {
        to - delta
    } else {
        to + delta
    }
}

/// Whether `to` lies on the last rank of the mover.
pub open spec fn last_rank(to: int, white: bool) -> bool {
    if white {
        to >= 56
    } else {
        to <= 7
    }
}

/// Whether `flags` is a flag of the batch for a move to `to`: the base
/// flag, made a capture where `capture_bb` says so, and made each of the
/// four promotions where the batch promotes and `to` is on the last rank.
pub open spec fn batch_flag_ok(
    flags: int,
    to: int,
    white: bool,
    base: int,
    capture_bb: u64,
    promote: bool,
) -> bool {
    let b = base + if member(capture_bb, to) {
        4int
    } else {
        0int
    };
    if promote && last_rank(to, white) {
        b + 8 <= flags <= b + 11
    } else {
        flags == b
    }
}

/// Whether `m` belongs to the batch of moves that one call of `add_batch`
/// handles.
pub open spec fn in_batch(
    m: Move,
    targets: u64,
    fixed_from: int,
    white: bool,
    delta: int,
    base: int,
    capture_bb: u64,
    promote: bool,
) -> bool {
    member(targets, m.spec_to()) && m.spec_from() == batch_from(
        m.spec_to(),
        fixed_from,
        white,
        delta,
    ) && batch_flag_ok(m.spec_flags(), m.spec_to(), white, base, capture_bb, promote)
}

/// The step of the generator that lists `m`: pawn pushes, double pushes,
/// captures towards either side, en-passant captures towards either side,
/// then knights, bishops, rooks, queens, castling and king steps.
pub open spec fn category(p: Position, m: Move) -> int {
    let from = m.spec_from();
    let to = m.spec_to();
    let flags = m.spec_flags();
    let d = if to > from {
        to - from
    } else {
        from - to
    };
    match p.squares[from] {
        None => 12,
        Some(pc) => match pc.kind {
            BBPiece::Pawn => if d == 8 {
                0
            } else if d == 16 {
                1
            } else if flags == 5 {
                if d == 7 {
                    4
                } else {
                    5
                }
            } else if d == 7 {
                2
            } else {
                3
            },
            BBPiece::Knight => 6,
            BBPiece::Bishop => 7,
            BBPiece::Rook => 8,
            BBPiece::Queen => 9,
            BBPiece::King => if flags == 2 || flags == 3 {
                10
            } else {
                11
            },
            _ => 12,
        },
    }
}

/// Whether `m` is a pseudo-legal move that step `stage` lists.
pub open spec fn stage_batch(p: Position, m: Move, stage: int) -> bool {
    p.pseudo_legal(m) && category(p, m) == stage
}

/// How far a pawn move of a step goes.
pub open spec fn pawn_delta(stage: int) -> int {
    if stage == 0 {
        8
    } else if stage == 1 {
        16
    } else if stage == 2 || stage == 4 {
        7
    } else {
        9
    }
}

/// Whether a pawn of the side to move can go to `t` by a move of step
/// `stage`.
pub open spec fn pawn_target(p: Position, stage: int, t: int) -> bool {
    let white = p.white_to_move;
    let from = batch_from(t, 64, white, pawn_delta(stage));
    let towards_a = (stage == 2 || stage == 4) == white;
    let file_ok = if towards_a {
        from % 8 != 0
    } else {
        from % 8 != 7
    };
    0 <= t < 64 && p.holds(from, white, BBPiece::Pawn) && if stage == 0 {
        p.squares[t] is None
    } else if stage == 1 {
        (if white {
            8 <= from < 16
        } else {
            48 <= from < 56
        }) && p.squares[(from + t) / 2] is None && p.squares[t] is None
    } else if stage == 2 || stage == 3 {
        file_ok && (p.squares[t] matches Some(q) && q.white != white)
    } else {
        file_ok && p.ep == Some(t as usize)
    }
}

/// The moves of a pawn step are the pseudo-legal moves of its category.
pub proof fn lemma_pawn_batch(p: Position, stage: int, targets: u64, m: Move)
    requires
        p.wf(),
        0 <= stage < 6,
        forall|t: int| 0 <= t < 64 ==> #[trigger] member(targets, t) == pawn_target(p, stage, t),
    ensures
        in_batch(
            m,
            targets,
            64,
            p.white_to_move,
            pawn_delta(stage),
            if stage == 1 {
                1
            } else if stage >= 4 {
                5
            } else {
                0
            },
            if stage == 2 || stage == 3 {
                targets
            } else {
                0
            },
            stage == 0 || stage == 2 || stage == 3,
        ) == stage_batch(p, m, stage),
{
    reveal(Position::pseudo_legal);
    lemma_bit_ops();
    m.lemma_parts();
}

/// The kind of piece that slides along the given lines.
pub open spec fn slider_kind(orth: bool, diag: bool) -> BBPiece {
    if orth && diag {
        BBPiece::Queen
    } else if orth {
        BBPiece::Rook
    } else {
        BBPiece::Bishop
    }
}

/// The step of the generator that lists the moves of a kind of piece.
pub open spec fn stage_of(kind: BBPiece) -> int {
    match kind {
        BBPiece::Knight => 6,
        BBPiece::Bishop => 7,
        BBPiece::Rook => 8,
        BBPiece::Queen => 9,
        _ => 11,
    }
}

/// The moves of a piece on `from` are the pseudo-legal moves of its
/// category that start there.
pub proof fn lemma_piece_batch(
    p: Position,
    kind: BBPiece,
    from: int,
    targets: u64,
    opp: u64,
    m: Move,
)
    requires
        p.wf(),
        p.holds(from, p.white_to_move, kind),
        kind == BBPiece::Knight || kind == BBPiece::Bishop || kind == BBPiece::Rook || kind
            == BBPiece::Queen || kind == BBPiece::King,
        forall|t: int|
            0 <= t < 64 ==> #[trigger] member(targets, t) == (piece_attacks(
                Piece { white: p.white_to_move, kind: kind },
                from,
                t,
                p.occupancy(),
            ) && !(p.squares[t] matches Some(q) && q.white == p.white_to_move)),
        forall|t: int|
            0 <= t < 64 ==> #[trigger] member(opp, t) == (p.squares[t] matches Some(q) && q.white
                != p.white_to_move),
    ensures
        in_batch(m, targets, from, p.white_to_move, 0, 0, opp, false) == (stage_batch(
            p,
            m,
            stage_of(kind),
        ) && m.spec_from() == from),
{
    reveal(Position::pseudo_legal);
    m.lemma_parts();
}

/// The mover of a move of a piece step is a piece of that kind of the side
/// to move.
pub proof fn lemma_stage_mover(p: Position, m: Move, kind: BBPiece)
    requires
        p.wf(),
        kind == BBPiece::Knight || kind == BBPiece::Bishop || kind == BBPiece::Rook || kind
            == BBPiece::Queen || kind == BBPiece::King,
        stage_batch(p, m, stage_of(kind)),
    ensures
        p.holds(m.spec_from(), p.white_to_move, kind),
{
    reveal(Position::pseudo_legal);
    m.lemma_parts();
}

/// Every pseudo-legal move belongs to one of the twelve steps.
pub proof fn lemma_category_range(p: Position, m: Move)
    requires
        p.wf(),
        p.pseudo_legal(m),
    ensures
        0 <= category(p, m) <= 11,
{
    reveal(Position::pseudo_legal);
    m.lemma_parts();
}

/// The castling moves of a side.
pub proof fn lemma_castle_batch(p: Position, m: Move)
    requires
        p.wf(),
    ensures
        stage_batch(p, m, 10) == ({
            let home = if p.white_to_move {
                4int
            } else {
                60int
            };
            p.holds(home, p.white_to_move, BBPiece::King) && ((m == Move::spec_parts(
                home,
                home + 2,
                2,
            ) && p.castle_ok(home, home + 2, 2)) || (m == Move::spec_parts(home, home - 2, 3)
                && p.castle_ok(home, home - 2, 3)))
        }),
{
    reveal(Position::pseudo_legal);
    m.lemma_parts();
    Move::lemma_of_parts(4, 6, 2);
    Move::lemma_of_parts(4, 2, 3);
    Move::lemma_of_parts(60, 62, 2);
    Move::lemma_of_parts(60, 58, 3);
}

/// What one step of the generator does to the move buffer: it keeps what
/// was there, adds only wanted moves of its category, and, unless the
/// buffer fills up, adds all of them.
pub open spec fn stage_step(
    before: Seq<Move>,
    after: Seq<Move>,
    p: Position,
    legal_only: bool,
    stage: int,
) -> bool {
    &&& before.len() <= after.len()
    &&& forall|m: Move| #[trigger] before.contains(m) ==> after.contains(m)
    &&& forall|m: Move| #[trigger]
        after.contains(m) ==> before.contains(m) || (stage_batch(p, m, stage) && wanted(
            p,
            m,
            legal_only,
        ))
    &&& after.len() < MOVE_CAPACITY ==> forall|m: Move| #[trigger]
        stage_batch(p, m, stage) && wanted(p, m, legal_only) ==> after.contains(m)
}

/// What the move buffer holds when the steps below `stage` are done: only
/// wanted moves of those steps, and, unless it filled up, all of them.
pub open spec fn listed_upto(moves: Seq<Move>, p: Position, legal_only: bool, stage: int) -> bool {
    &&& forall|m: Move| #[trigger]
        moves.contains(m) ==> wanted(p, m, legal_only) && p.pseudo_legal(m) && category(p, m)
            < stage
    &&& moves.len() < MOVE_CAPACITY ==> forall|m: Move| #[trigger]
        wanted(p, m, legal_only) && p.pseudo_legal(m) && category(p, m) < stage
            ==> moves.contains(m)
}

/// One more step done.
pub proof fn lemma_stage_glue(
    before: Seq<Move>,
    after: Seq<Move>,
    p: Position,
    legal_only: bool,
    stage: int,
)
    requires
        listed_upto(before, p, legal_only, stage),
        stage_step(before, after, p, legal_only, stage),
    ensures
        listed_upto(after, p, legal_only, stage + 1),
{
    assert forall|m: Move| #[trigger] after.contains(m) implies wanted(p, m, legal_only)
        && p.pseudo_legal(m) && category(p, m) < stage + 1 by {
        if !before.contains(m) {
            assert(stage_batch(p, m, stage));
        }
    }
    if after.len() < MOVE_CAPACITY {
        assert forall|m: Move| #[trigger]
            wanted(p, m, legal_only) && p.pseudo_legal(m) && category(p, m) < stage
                + 1 implies after.contains(m) by {
            if category(p, m) == stage {
                assert(stage_batch(p, m, stage));
            } else {
                assert(before.contains(m));
            }
        }
    }
}

/// No move of a step is listed before the step is taken.
pub proof fn lemma_stage_fresh(moves: Seq<Move>, p: Position, legal_only: bool, stage: int)
    requires
        listed_upto(moves, p, legal_only, stage),
    ensures
        forall|m: Move| #[trigger] stage_batch(p, m, stage) ==> !moves.contains(m),
{
}

/// What a sequence holds after a push.
pub proof fn lemma_push_contains(s: Seq<Move>, x: Move)
    ensures
        forall|y: Move| #[trigger] s.push(x).contains(y) == (s.contains(y) || y == x),
        s.no_duplicates() && !s.contains(x) ==> s.push(x).no_duplicates(),
{
    let t = s.push(x);
    assert forall|y: Move| #[trigger] t.contains(y) == (s.contains(y) || y == x) by {
        if s.contains(y) {
            let i = choose|i: int| 0 <= i < s.len() && s[i] == y;
            assert(t[i] == y);
        }
        if y == x {
            assert(t[s.len() as int] == x);
        }
        if t.contains(y) {
            let i = choose|i: int| 0 <= i < t.len() && t[i] == y;
            if i < s.len() {
                assert(s[i] == y);
            }
        }
    }
    if s.no_duplicates() && !s.contains(x) {
        assert forall|i: int, j: int| 0 <= i < t.len() && 0 <= j < t.len() && i != j implies t[i]
            != t[j] by {
            if i < s.len() && j < s.len() {
                assert(s[i] != s[j]);
            } else if i < s.len() {
                assert(s.contains(s[i]));
            } else {
                assert(s.contains(s[j]));
            }
        }
    }
}

/// The place of a move flag among the moves from one square to another:
/// the promotions come queen, rook, knight, bishop.
pub open spec fn flag_key(flags: int) -> int {
    if flags < 8 {
        flags
    } else {
        (flags / 4) * 4 + (if flags % 4 == 3 {
            0int
        } else if flags % 4 == 2 {
            1int
        } else if flags % 4 == 0 {
            2int
        } else {
            3int
        })
    }
}

/// The place of a move in the order of the generator: by step, within a
/// step by the square the move starts from, then by the square it goes
/// to, then by its flag; castling king side comes before queen side.
pub open spec fn gen_rank(p: Position, m: Move) -> int {
    let c = category(p, m);
    c * 65536 + (if c == 10 {
        m.spec_flags()
    } else {
        m.spec_from() * 1024 + m.spec_to() * 16 + flag_key(m.spec_flags())
    })
}

/// Whether the moves of `s` stand in the order of the generator, each
/// before every move of a higher place, and all have a place below
/// `bound`.
#[verifier::opaque]
pub open spec fn ranked_below(p: Position, s: Seq<Move>, bound: int) -> bool {
    &&& forall|i: int, j: int|
        0 <= i < j < s.len() ==> gen_rank(p, #[trigger] s[i]) < gen_rank(p, #[trigger] s[j])
    &&& forall|i: int| 0 <= i < s.len() ==> gen_rank(p, #[trigger] s[i]) < bound
}

/// What `ranked_below` says: the places rise along the list, strictly, and
/// stay below the bound.
pub proof fn lemma_ranked(p: Position, s: Seq<Move>, bound: int)
    ensures
        ranked_below(p, s, bound) == ((forall|i: int, j: int|
            0 <= i < j < s.len() ==> gen_rank(p, #[trigger] s[i]) < gen_rank(p, #[trigger] s[j]))
            && (forall|i: int| 0 <= i < s.len() ==> gen_rank(p, #[trigger] s[i]) < bound)),
{
    reveal(ranked_below);
}

/// The empty list is in order.
pub proof fn lemma_ranked_empty(p: Position, bound: int)
    ensures
        ranked_below(p, Seq::<Move>::empty(), bound),
{
    reveal(ranked_below);
}

/// A list in order below a bound is in order below every higher bound.
pub proof fn lemma_ranked_weaken(p: Position, s: Seq<Move>, bound: int, upper: int)
    requires
        ranked_below(p, s, bound),
        bound <= upper,
    ensures
        ranked_below(p, s, upper),
{
    reveal(ranked_below);
}

/// A list in order stays in order when nothing is appended to it, or a
/// move of a place at or above its bound.
pub proof fn lemma_ranked_step(
    p: Position,
    before: Seq<Move>,
    after: Seq<Move>,
    m: Move,
    bound: int,
    upper: int,
)
    requires
        ranked_below(p, before, bound),
        bound <= gen_rank(p, m) < upper,
        after == before || after == before.push(m),
    ensures
        ranked_below(p, after, upper),
{
    reveal(ranked_below);
}

/// The place of a move that is no castling move.
pub proof fn lemma_rank_of(p: Position, from: int, to: int, flags: int, stage: int)
    requires
        0 <= from < 64,
        0 <= to < 64,
        0 <= flags < 16,
        category(p, Move::spec_parts(from, to, flags)) == stage,
    ensures
        stage != 10 ==> gen_rank(p, Move::spec_parts(from, to, flags)) == stage * 65536 + from
            * 1024 + to * 16 + flag_key(flags),
        stage == 10 ==> gen_rank(p, Move::spec_parts(from, to, flags)) == stage * 65536 + flags,
{
    Move::lemma_of_parts(from, to, flags);
}

/// The least places of a batch rise with the target square, and the
/// moves to one target square lie between two of them.
pub proof fn lemma_batch_floor(
    stage: int,
    done: int,
    to: int,
    fixed_from: int,
    white: bool,
    delta: int,
)
    requires
        0 <= done <= to < 64,
        0 <= fixed_from <= 64,
        0 <= delta <= 16,
    ensures
        batch_floor(stage, done, fixed_from, white, delta) <= batch_floor(
            stage,
            to + 1,
            fixed_from,
            white,
            delta,
        ),
        ({
            let from = batch_from(to, fixed_from, white, delta);
            0 <= from < 64 ==> batch_floor(stage, done, fixed_from, white, delta) <= stage * 65536
                + from * 1024 + to * 16 && stage * 65536 + from * 1024 + to * 16 + 16
                <= batch_floor(stage, to + 1, fixed_from, white, delta)
        }),
{
}

/// One move appended to a list in order, at or above its bound.
pub proof fn lemma_batch_one(
    p: Position,
    before: Seq<Move>,
    after: Seq<Move>,
    from: int,
    to: int,
    flags: int,
    stage: int,
    low: int,
    next: int,
)
    requires
        0 <= from < 64,
        0 <= to < 64,
        0 <= flags < 16,
        stage != 10,
        category(p, Move::spec_parts(from, to, flags)) == stage,
        ranked_below(p, before, low),
        low <= stage * 65536 + from * 1024 + to * 16,
        stage * 65536 + from * 1024 + to * 16 + 16 <= next,
        after == before || after == before.push(Move::spec_parts(from, to, flags)),
    ensures
        ranked_below(p, after, next),
{
    lemma_rank_of(p, from, to, flags, stage);
    lemma_ranked_step(p, before, after, Move::spec_parts(from, to, flags), low, next);
}

/// The four promotions to one square appended to a list in order: queen,
/// rook, knight, bishop.
pub proof fn lemma_batch_four(
    p: Position,
    before: Seq<Move>,
    l1: Seq<Move>,
    l2: Seq<Move>,
    l3: Seq<Move>,
    after: Seq<Move>,
    from: int,
    to: int,
    b: int,
    stage: int,
    low: int,
    next: int,
)
    requires
        0 <= from < 64,
        0 <= to < 64,
        b == 0 || b == 4,
        stage != 10,
        category(p, Move::spec_parts(from, to, b + 11)) == stage,
        category(p, Move::spec_parts(from, to, b + 10)) == stage,
        category(p, Move::spec_parts(from, to, b + 8)) == stage,
        category(p, Move::spec_parts(from, to, b + 9)) == stage,
        ranked_below(p, before, low),
        low <= stage * 65536 + from * 1024 + to * 16,
        stage * 65536 + from * 1024 + to * 16 + 16 <= next,
        l1 == before || l1 == before.push(Move::spec_parts(from, to, b + 11)),
        l2 == l1 || l2 == l1.push(Move::spec_parts(from, to, b + 10)),
        l3 == l2 || l3 == l2.push(Move::spec_parts(from, to, b + 8)),
        after == l3 || after == l3.push(Move::spec_parts(from, to, b + 9)),
    ensures
        ranked_below(p, after, next),
{
    let at = stage * 65536 + from * 1024 + to * 16;
    lemma_rank_of(p, from, to, b + 11, stage);
    lemma_rank_of(p, from, to, b + 10, stage);
    lemma_rank_of(p, from, to, b + 8, stage);
    lemma_rank_of(p, from, to, b + 9, stage);
    lemma_ranked_step(p, before, l1, Move::spec_parts(from, to, b + 11), low, at + b + 9);
    lemma_ranked_step(p, l1, l2, Move::spec_parts(from, to, b + 10), at + b + 9, at + b + 10);
    lemma_ranked_step(p, l2, l3, Move::spec_parts(from, to, b + 8), at + b + 10, at + b + 11);
    lemma_ranked_step(p, l3, after, Move::spec_parts(from, to, b + 9), at + b + 11, next);
}

/// Whether `made` lists the wanted moves of the sliding piece of the
/// given kind on `idx`: each once, in the order of the generator, none
/// but wanted moves from `idx`, and all of them unless they are as many
/// as the move buffer holds.
pub open spec fn slide_list(
    p: Position,
    idx: int,
    kind: BBPiece,
    legal_only: bool,
    made: Seq<Move>,
) -> bool {
    &&& made.no_duplicates()
    &&& ranked_below(p, made, stage_of(kind) * 65536 + (idx + 1) * 1024)
    &&& forall|m: Move| #[trigger]
        made.contains(m) ==> m.spec_from() == idx && p.pseudo_legal(m) && (legal_only
            ==> p.legal(m))
    &&& made.len() < MOVE_CAPACITY ==> forall|m: Move|
        #![trigger made.contains(m)]
        #![trigger p.pseudo_legal(m)]
        m.spec_from() == idx && p.pseudo_legal(m) && (legal_only ==> p.legal(m))
            ==> made.contains(m)
}

/// The order of the generator leaves no choice: two lists in order that
/// hold the same moves are the same list.
pub proof fn lemma_ranked_unique(p: Position, a: Seq<Move>, b: Seq<Move>, bound: int)
    requires
        ranked_below(p, a, bound),
        ranked_below(p, b, bound),
        forall|m: Move| #[trigger] a.contains(m) == b.contains(m),
    ensures
        a == b,
    decreases a.len(),
{
    reveal(ranked_below);
    if a.len() == 0 {
        if b.len() > 0 {
            assert(b.contains(b[0]));
            assert(a.contains(b[0]));
            let i = choose|i: int| 0 <= i < a.len() && a[i] == b[0];
            assert(false);
        }
        assert(a =~= b);
    } else {
        let x = a.last();
        assert(a.contains(x));
        assert(b.contains(x));
        let k = choose|k: int| 0 <= k < b.len() && b[k] == x;
        let y = b.last();
        assert(b.contains(y));
        assert(a.contains(y));
        let i = choose|i: int| 0 <= i < a.len() && a[i] == y;
        if i < a.len() - 1 {
            assert(gen_rank(p, a[i]) < gen_rank(p, a[a.len() - 1]));
        }
        if k < b.len() - 1 {
            assert(gen_rank(p, b[k]) < gen_rank(p, b[b.len() - 1]));
        }
        assert(x == y);
        let a0 = a.drop_last();
        let b0 = b.drop_last();
        assert forall|m: Move| #[trigger] a0.contains(m) == b0.contains(m) by {
            if a0.contains(m) {
                let j = choose|j: int| 0 <= j < a0.len() && a0[j] == m;
                assert(a[j] == m);
                assert(gen_rank(p, a[j]) < gen_rank(p, a[a.len() - 1]));
                assert(a.contains(m));
                assert(b.contains(m));
                let h = choose|h: int| 0 <= h < b.len() && b[h] == m;
                assert(m != y);
                assert(h < b.len() - 1);
                assert(b0[h] == m);
            }
            if b0.contains(m) {
                let j = choose|j: int| 0 <= j < b0.len() && b0[j] == m;
                assert(b[j] == m);
                assert(gen_rank(p, b[j]) < gen_rank(p, b[b.len() - 1]));
                assert(b.contains(m));
                assert(a.contains(m));
                let h = choose|h: int| 0 <= h < a.len() && a[h] == m;
                assert(m != x);
                assert(h < a.len() - 1);
                assert(a0[h] == m);
            }
        }
        assert(ranked_below(p, a0, bound)) by {
            assert forall|i: int, j: int| 0 <= i < j < a0.len() implies gen_rank(
                p,
                #[trigger] a0[i],
            ) < gen_rank(p, #[trigger] a0[j]) by {
                assert(a0[i] == a[i] && a0[j] == a[j]);
            }
            assert forall|i: int| 0 <= i < a0.len() implies gen_rank(p, #[trigger] a0[i])
                < bound by {
                assert(a0[i] == a[i]);
            }
        }
        assert(ranked_below(p, b0, bound)) by {
            assert forall|i: int, j: int| 0 <= i < j < b0.len() implies gen_rank(
                p,
                #[trigger] b0[i],
            ) < gen_rank(p, #[trigger] b0[j]) by {
                assert(b0[i] == b[i] && b0[j] == b[j]);
            }
            assert forall|i: int| 0 <= i < b0.len() implies gen_rank(p, #[trigger] b0[i])
                < bound by {
                assert(b0[i] == b[i]);
            }
        }
        lemma_ranked_unique(p, a0, b0, bound);
        assert(a =~= a0.push(x));
        assert(b =~= b0.push(y));
    }
}

/// The legal moves among the moves of `s`, in their order.
pub open spec fn legal_of(p: Position, s: Seq<Move>) -> Seq<Move>
    decreases s.len(),
{
    if s.len() == 0 {
        s
    } else if p.legal(s.last()) {
        legal_of(p, s.drop_last()).push(s.last())
    } else {
        legal_of(p, s.drop_last())
    }
}

/// The legal moves of a list in order are a list in order, and hold the
/// legal moves of the list and no others.
pub proof fn lemma_legal_of(p: Position, s: Seq<Move>, bound: int)
    requires
        ranked_below(p, s, bound),
    ensures
        ranked_below(p, legal_of(p, s), bound),
        forall|m: Move| #[trigger] legal_of(p, s).contains(m) == (s.contains(m) && p.legal(m)),
    decreases s.len(),
{
    reveal(ranked_below);
    if s.len() == 0 {
        assert forall|m: Move| #[trigger] legal_of(p, s).contains(m) == (s.contains(m) && p.legal(
            m,
        )) by {}
    } else {
        let front = s.drop_last();
        let x = s.last();
        assert(ranked_below(p, front, gen_rank(p, x))) by {
            assert forall|i: int, j: int| 0 <= i < j < front.len() implies gen_rank(
                p,
                #[trigger] front[i],
            ) < gen_rank(p, #[trigger] front[j]) by {
                assert(front[i] == s[i] && front[j] == s[j]);
            }
            assert forall|i: int| 0 <= i < front.len() implies gen_rank(p, #[trigger] front[i])
                < gen_rank(p, x) by {
                assert(front[i] == s[i]);
                assert(gen_rank(p, s[i]) < gen_rank(p, s[s.len() - 1]));
            }
        }
        lemma_legal_of(p, front, gen_rank(p, x));
        let lf = legal_of(p, front);
        lemma_push_contains(lf, x);
        lemma_push_contains(front, x);
        assert(s =~= front.push(x));
        assert(gen_rank(p, x) < bound) by {
            assert(s[s.len() - 1] == x);
        }
        if p.legal(x) {
            lemma_ranked_step(p, lf, lf.push(x), x, gen_rank(p, x), bound);
        } else {
            lemma_ranked_weaken(p, lf, gen_rank(p, x), bound);
        }
    }
}

/// The list of the legal moves is the list of the pseudo-legal moves
/// without the moves that are not legal, in the same order: where `all`
/// is what the generator lists when asked for the pseudo-legal moves and
/// `legal` what it lists when asked for the legal ones, and neither list
/// filled the move buffer.
pub proof fn lemma_legal_list_keeps_order(p: Position, all: Seq<Move>, legal: Seq<Move>)
    requires
        ranked_below(p, all, 786432),
        ranked_below(p, legal, 786432),
        forall|m: Move| #[trigger] all.contains(m) == p.pseudo_legal(m),
        forall|m: Move| #[trigger] legal.contains(m) == (p.pseudo_legal(m) && p.legal(m)),
    ensures
        legal == legal_of(p, all),
{
    lemma_legal_of(p, all, 786432);
    lemma_ranked_unique(p, legal, legal_of(p, all), 786432);
}

/// Whether every list of pseudo-legal moves of the position without
/// repeats fits into the move buffer with room to spare.
#[verifier::opaque]
pub open spec fn roomy(p: Position) -> bool {
    forall|s: Seq<Move>|
        s.no_duplicates() && (forall|m: Move| #[trigger] s.contains(m) ==> p.pseudo_legal(m))
            ==> #[trigger] s.len() < MOVE_CAPACITY
}

/// In a roomy position a list of pseudo-legal moves without repeats is
/// shorter than the move buffer.
pub proof fn lemma_roomy(p: Position, s: Seq<Move>)
    requires
        roomy(p),
        s.no_duplicates(),
        forall|m: Move| #[trigger] s.contains(m) ==> p.pseudo_legal(m),
    ensures
        s.len() < MOVE_CAPACITY,
{
    reveal(roomy);
}

/// Whether `s` lists the pseudo-legal moves of the position, or the
/// legal ones when `legal_only` is set, in the order of the generator.
pub open spec fn is_gen_list(p: Position, legal_only: bool, s: Seq<Move>) -> bool {
    &&& ranked_below(p, s, 786432)
    &&& forall|m: Move| #[trigger]
        s.contains(m) == (p.pseudo_legal(m) && (legal_only ==> p.legal(m)))
}

/// The pseudo-legal moves of the position, or the legal ones when
/// `legal_only` is set, in the order of the generator.
pub open spec fn gen_list(p: Position, legal_only: bool) -> Seq<Move> {
    choose|s: Seq<Move>| is_gen_list(p, legal_only, s)
}

/// There is one list of the moves in the order of the generator.
pub proof fn lemma_gen_list(p: Position, legal_only: bool, s: Seq<Move>)
    requires
        is_gen_list(p, legal_only, s),
    ensures
        s == gen_list(p, legal_only),
{
    lemma_ranked_unique(p, s, gen_list(p, legal_only), 786432);
}

/// The least place that a move of a batch to the square `t` or beyond
/// can have.
pub open spec fn batch_floor(stage: int, t: int, fixed_from: int, white: bool, delta: int) -> int {
    let f = batch_from(t, fixed_from, white, delta);
    stage * 65536 + (if f < 0 {
        0int
    } else if f > 63 {
        63int
    } else {
        f
    }) * 1024 + t * 16
}

impl Board {
    /// Whether the pseudo-legal move `m` is legal, tried by making it,
    /// looking whether the mover's king is attacked, and taking it back.
    pub fn is_legal_move(&mut self, m: &Move) -> (r: bool)
        requires
            old(self).wf(),
            old(self)@.pseudo_legal(*m),
        ensures
            r == old(self)@.legal(*m),
            final(self).wf(),
            final(self).same_position(old(self)),
            final(self).moves == old(self).moves,
    {
        proof {
            lemma_make_undo(self@, *m);
        }
        let _ = make_move(self, m);
        let is_legal = !self.king_is_attacked();
        let _ = undo_move(self);
        proof {
            self.lemma_restored(old(self));
        }
        is_legal
    }

    /// Appends `m` to the move buffer if it is wanted and there is room.
    pub fn add_move(&mut self, m: &Move, legal_only: bool)
        requires
            old(self).wf(),
            old(self)@.pseudo_legal(*m),
        ensures
            final(self).wf(),
            final(self).same_position(old(self)),
            final(self).moves@ == (if wanted(old(self)@, *m, legal_only) && old(self).moves@.len()
                < MOVE_CAPACITY {
                old(self).moves@.push(*m)
            } else {
                old(self).moves@
            }),
    {
        proof {
            lemma_wanted(self@, *m, legal_only);
        }
        if !legal_only || self.is_legal_move(m) {
            let ghost before = *self;
            let _ = self.moves.push(*m);
            proof {
                assert(self@ == before@);
            }
        }
    }

    /// Appends one pseudo-legal move if it is wanted and there is room, and
    /// says what the buffer then contains.
    fn add_one(&mut self, from: usize, to: usize, flags: u8, legal_only: bool)
        requires
            old(self).wf(),
            from < 64,
            to < 64,
            flags < 16,
            old(self)@.pseudo_legal(Move::spec_parts(from as int, to as int, flags as int)),
        ensures
            final(self).wf(),
            final(self).same_position(old(self)),
            old(self).moves@.len() <= final(self).moves@.len(),
            forall|y: Move| #[trigger]
                final(self).moves@.contains(y) == (old(self).moves@.contains(y) || (y
                    == Move::spec_parts(from as int, to as int, flags as int) && wanted(
                    old(self)@,
                    y,
                    legal_only,
                ) && old(self).moves@.len() < MOVE_CAPACITY)),
            old(self).moves@.no_duplicates() && !old(self).moves@.contains(
                Move::spec_parts(from as int, to as int, flags as int),
            ) ==> final(self).moves@.no_duplicates(),
            final(self).moves@ == old(self).moves@ || final(self).moves@ == old(self).moves@.push(
                Move::spec_parts(from as int, to as int, flags as int),
            ),
    {
        let m = Move::from_parts(from as u8, to as u8, flags);
        proof {
            lemma_push_contains(self.moves@, m);
        }
        self.add_move(&m, legal_only);
    }

    /// Appends the wanted moves of one batch: for each target square, in
    /// ascending order, the move to it, or its four promotions.
    #[verifier::rlimit(60)]
    fn add_batch(
        &mut self,
        targets: u64,
        fixed_from: usize,
        delta: usize,
        base: u8,
        capture_bb: u64,
        promote: bool,
        legal_only: bool,
        Ghost(stage): Ghost<int>,
    )
        requires
            old(self).wf(),
            fixed_from <= 64,
            delta <= 16,
            base <= 5,
            promote ==> base == 0,
            0 <= stage <= 11 && stage != 10,
            forall|m: Move| #[trigger]
                in_batch(
                    m,
                    targets,
                    fixed_from as int,
                    old(self)@.white_to_move,
                    delta as int,
                    base as int,
                    capture_bb,
                    promote,
                ) ==> category(old(self)@, m) == stage,
            ranked_below(
                old(self)@,
                old(self).moves@,
                stage * 65536 + (if fixed_from < 64 {
                    fixed_from * 1024
                } else {
                    0
                }),
            ),
            forall|m: Move| #[trigger]
                in_batch(
                    m,
                    targets,
                    fixed_from as int,
                    old(self)@.white_to_move,
                    delta as int,
                    base as int,
                    capture_bb,
                    promote,
                ) ==> old(self)@.pseudo_legal(m) && !old(self).moves@.contains(m),
            old(self).moves@.no_duplicates(),
        ensures
            final(self).wf(),
            final(self).same_position(old(self)),
            final(self).moves@.no_duplicates(),
            old(self).moves@.len() <= final(self).moves@.len(),
            forall|m: Move| #[trigger]
                final(self).moves@.contains(m) ==> old(self).moves@.contains(m) || (in_batch(
                    m,
                    targets,
                    fixed_from as int,
                    old(self)@.white_to_move,
                    delta as int,
                    base as int,
                    capture_bb,
                    promote,
                ) && wanted(old(self)@, m, legal_only)),
            forall|m: Move| #[trigger]
                old(self).moves@.contains(m) ==> final(self).moves@.contains(m),
            final(self).moves@.len() < MOVE_CAPACITY ==> forall|m: Move| #[trigger]
                in_batch(
                    m,
                    targets,
                    fixed_from as int,
                    old(self)@.white_to_move,
                    delta as int,
                    base as int,
                    capture_bb,
                    promote,
                ) && wanted(old(self)@, m, legal_only) ==> final(self).moves@.contains(m),
            ranked_below(
                old(self)@,
                final(self).moves@,
                stage * 65536 + (if fixed_from < 64 {
                    (fixed_from + 1) * 1024
                } else {
                    65536
                }),
            ),
    {
        let ghost p = self@;
        let ghost start = self.moves@;
        let white = self.move_color == 1;
        let mut remaining: u64 = targets;
        let ghost mut done: int = 0;
        proof {
            lemma_ranked_weaken(
                p,
                start,
                stage * 65536 + (if fixed_from < 64 {
                    fixed_from * 1024
                } else {
                    0
                }),
                batch_floor(stage, 0, fixed_from as int, white, delta as int),
            );
        }
        while remaining != 0
            invariant
                0 <= done <= 64,
                0 <= stage <= 11 && stage != 10,
                forall|s: int| 0 <= s < 64 && #[trigger] member(remaining, s) ==> s >= done,
                ranked_below(
                    p,
                    self.moves@,
                    batch_floor(stage, done, fixed_from as int, white, delta as int),
                ),
                forall|m: Move| #[trigger]
                    in_batch(
                        m,
                        targets,
                        fixed_from as int,
                        white,
                        delta as int,
                        base as int,
                        capture_bb,
                        promote,
                    ) ==> category(p, m) == stage,
                self.wf(),
                self.same_position(old(self)),
                p == old(self)@,
                start == old(self).moves@,
                white == p.white_to_move,
                fixed_from <= 64,
                delta <= 16,
                base <= 5,
                promote ==> base == 0,
                forall|s: int| 0 <= s < 64 && #[trigger] member(remaining, s) ==> member(targets, s),
                forall|m: Move| #[trigger]
                    in_batch(
                        m,
                        targets,
                        fixed_from as int,
                        white,
                        delta as int,
                        base as int,
                        capture_bb,
                        promote,
                    ) ==> p.pseudo_legal(m) && !start.contains(m),
                self.moves@.no_duplicates(),
                start.len() <= self.moves@.len(),
                forall|m: Move| #[trigger]
                    self.moves@.contains(m) ==> start.contains(m) || (in_batch(
                        m,
                        targets,
                        fixed_from as int,
                        white,
                        delta as int,
                        base as int,
                        capture_bb,
                        promote,
                    ) && wanted(p, m, legal_only) && !member(remaining, m.spec_to())),
                forall|m: Move| #[trigger] start.contains(m) ==> self.moves@.contains(m),
                self.moves@.len() < MOVE_CAPACITY ==> forall|m: Move| #[trigger]
                    in_batch(
                        m,
                        targets,
                        fixed_from as int,
                        white,
                        delta as int,
                        base as int,
                        capture_bb,
                        promote,
                    ) && wanted(p, m, legal_only) && !member(remaining, m.spec_to())
                        ==> self.moves@.contains(m),
            decreases crate::bits::popcount(remaining),
        {
            let ghost before_rem = remaining;
            let ghost before = self.moves@;
            let to = bb_gs_low_bit(&mut remaining);
            proof {
                crate::bits::lemma_count_drop(before_rem, remaining, to as int);
            }
            let in_range: bool = fixed_from < 64 || (if white {
                to >= delta
            } else {
                to + delta < 64
            });
            let ghost gfrom = batch_from(to as int, fixed_from as int, white, delta as int);
            let cap = bb_get(capture_bb, to);
            let b: u8 = if cap {
                base + 4
            } else {
                base
            };
            let promo = promote && (if white {
                to >= 56
            } else {
                to <= 7
            });
            assert(promo == (promote && last_rank(to as int, white)));
            if in_range {
                let from: usize = if fixed_from < 64 {
                    fixed_from
                } else if white {
                    to - delta
                } else {
                    to + delta
                };
                assert(from == gfrom);
                proof {
                    assert forall|f: int| 0 <= f < 16 && batch_flag_ok(
                        f,
                        to as int,
                        white,
                        base as int,
                        capture_bb,
                        promote,
                    ) implies #[trigger] in_batch(
                        Move::spec_parts(from as int, to as int, f),
                        targets,
                        fixed_from as int,
                        white,
                        delta as int,
                        base as int,
                        capture_bb,
                        promote,
                    ) by {
                        Move::lemma_of_parts(from as int, to as int, f);
                    }
                }
                if promo {
                    proof {
                        Move::lemma_of_parts(from as int, to as int, b + 11);
                        Move::lemma_of_parts(from as int, to as int, b + 10);
                        Move::lemma_of_parts(from as int, to as int, b + 8);
                        Move::lemma_of_parts(from as int, to as int, b + 9);
                        assert(in_batch(
                            Move::spec_parts(from as int, to as int, b + 11),
                            targets,
                            fixed_from as int,
                            white,
                            delta as int,
                            base as int,
                            capture_bb,
                            promote,
                        ));
                        assert(in_batch(
                            Move::spec_parts(from as int, to as int, b + 10),
                            targets,
                            fixed_from as int,
                            white,
                            delta as int,
                            base as int,
                            capture_bb,
                            promote,
                        ));
                        assert(in_batch(
                            Move::spec_parts(from as int, to as int, b + 8),
                            targets,
                            fixed_from as int,
                            white,
                            delta as int,
                            base as int,
                            capture_bb,
                            promote,
                        ));
                        assert(in_batch(
                            Move::spec_parts(from as int, to as int, b + 9),
                            targets,
                            fixed_from as int,
                            white,
                            delta as int,
                            base as int,
                            capture_bb,
                            promote,
                        ));
                    }
                    self.add_one(from, to, b + 11, legal_only);
                    let ghost l1 = self.moves@;
                    self.add_one(from, to, b + 10, legal_only);
                    let ghost l2 = self.moves@;
                    self.add_one(from, to, b + 8, legal_only);
                    let ghost l3 = self.moves@;
                    self.add_one(from, to, b + 9, legal_only);
                    proof {
                        lemma_batch_floor(stage, done, to as int, fixed_from as int, white, delta as int);
                        lemma_batch_four(
                            p,
                            before,
                            l1,
                            l2,
                            l3,
                            self.moves@,
                            from as int,
                            to as int,
                            b as int,
                            stage,
                            batch_floor(stage, done, fixed_from as int, white, delta as int),
                            batch_floor(stage, to + 1, fixed_from as int, white, delta as int),
                        );
                    }
                } else {
                    proof {
                        Move::lemma_of_parts(from as int, to as int, b as int);
                        assert(in_batch(
                            Move::spec_parts(from as int, to as int, b as int),
                            targets,
                            fixed_from as int,
                            white,
                            delta as int,
                            base as int,
                            capture_bb,
                            promote,
                        ));
                    }
                    self.add_one(from, to, b, legal_only);
                    proof {
                        lemma_batch_floor(stage, done, to as int, fixed_from as int, white, delta as int);
                        lemma_batch_one(
                            p,
                            before,
                            self.moves@,
                            from as int,
                            to as int,
                            b as int,
                            stage,
                            batch_floor(stage, done, fixed_from as int, white, delta as int),
                            batch_floor(stage, to + 1, fixed_from as int, white, delta as int),
                        );
                    }
                }
            } else {
                proof {
                    lemma_batch_floor(stage, done, to as int, fixed_from as int, white, delta as int);
                    lemma_ranked_weaken(
                        p,
                        self.moves@,
                        batch_floor(stage, done, fixed_from as int, white, delta as int),
                        batch_floor(stage, to + 1, fixed_from as int, white, delta as int),
                    );
                }
            }
            proof {
                done = to + 1;
            }
            proof {
                let now = self.moves@;
                assert forall|m: Move| #[trigger] now.contains(m) implies start.contains(m) || (
                in_batch(
                    m,
                    targets,
                    fixed_from as int,
                    white,
                    delta as int,
                    base as int,
                    capture_bb,
                    promote,
                ) && wanted(p, m, legal_only) && !member(remaining, m.spec_to())) by {
                    m.lemma_parts();
                    if before.contains(m) {
                    } else {
                        assert(m.spec_to() == to);
                    }
                }
                assert forall|m: Move| #[trigger] start.contains(m) implies now.contains(m) by {
                    assert(before.contains(m));
                }
                if now.len() < MOVE_CAPACITY {
                    assert(before.len() < MOVE_CAPACITY);
                    assert forall|m: Move| #[trigger]
                        in_batch(
                            m,
                            targets,
                            fixed_from as int,
                            white,
                            delta as int,
                            base as int,
                            capture_bb,
                            promote,
                        ) && wanted(p, m, legal_only) && !member(
                            remaining,
                            m.spec_to(),
                        ) implies now.contains(m) by {
                        m.lemma_parts();
                        if m.spec_to() != to {
                            assert(member(before_rem, m.spec_to()) == member(
                                remaining,
                                m.spec_to(),
                            ));
                            assert(before.contains(m));
                        } else {
                            m.lemma_parts();
                            assert(m.spec_from() == gfrom);
                            assert(in_range);
                            assert(m == Move::spec_parts(gfrom, to as int, m.spec_flags()));
                        }
                    }
                }
            }
        }
        proof {
            lemma_bit_ops();
            assert forall|m: Move| !member(remaining, #[trigger] m.spec_to()) by {
                m.lemma_parts();
            }
            lemma_ranked_weaken(
                p,
                self.moves@,
                batch_floor(stage, done, fixed_from as int, white, delta as int),
                stage * 65536 + (if fixed_from < 64 {
                    (fixed_from + 1) * 1024
                } else {
                    65536
                }),
            );
        }
    }

    /// Lists the wanted pawn moves of one step: the pawns are shifted as
    /// one set onto their target squares.
    fn gen_pawn_moves(&mut self, stage: u8, legal_only: bool)
        requires
            old(self).wf(),
            stage < 6,
            old(self).moves@.no_duplicates(),
            forall|m: Move| #[trigger]
                stage_batch(old(self)@, m, stage as int) ==> !old(self).moves@.contains(m),
            ranked_below(old(self)@, old(self).moves@, stage * 65536),
        ensures
            final(self).wf(),
            final(self).same_position(old(self)),
            final(self).moves@.no_duplicates(),
            stage_step(old(self).moves@, final(self).moves@, old(self)@, legal_only, stage as int),
            ranked_below(old(self)@, final(self).moves@, (stage + 1) * 65536),
    {
        let ghost p = self@;
        let white = self.move_color == 1;
        let pawns = self.pieces_of(white, BBPiece::Pawn);
        let occ = self.occupied();
        let opp = self.side_pieces(!white);
        proof {
            lemma_bit_ops();
            lemma_masks();
            assert forall|s: int| 0 <= s < 64 implies #[trigger] p.squares[s]
                == self.spec_piece_at(s) by {}
        }
        let empty: u64 = !occ;
        let delta: usize = if stage == 0 {
            8
        } else if stage == 1 {
            16
        } else if stage == 2 || stage == 4 {
            7
        } else {
            9
        };
        let base: u8 = if stage == 1 {
            1
        } else if stage >= 4 {
            5
        } else {
            0
        };
        let towards_a = (stage == 2 || stage == 4) == white;
        let file: u64 = if towards_a {
            NOT_A_FILE
        } else {
            NOT_H_FILE
        };
        let mid: u64 = if white {
            RANK_3
        } else {
            RANK_6
        };
        let pushed = bb_shift(pawns, 8, white);
        let single = pushed & empty;
        let pushed_twice = bb_shift(single & mid, 8, white);
        let double = pushed_twice & empty;
        let hits = bb_shift(pawns & file, delta as u32, white);
        let ep_bb: u64 = match self.en_passant {
            Some(e) => bb_single(e),
            None => 0,
        };
        let targets: u64 = if stage == 0 {
            single
        } else if stage == 1 {
            double
        } else if stage < 4 {
            hits & opp
        } else {
            hits & ep_bb
        };
        let capture_bb: u64 = if stage == 2 || stage == 3 {
            targets
        } else {
            0
        };
        let promote: bool = stage == 0 || stage == 2 || stage == 3;
        proof {
            assert forall|t: int| 0 <= t < 64 implies #[trigger] member(targets, t) == pawn_target(
                p,
                stage as int,
                t,
            ) by {
                let from = batch_from(t, 64, white, delta as int);
                assert(p.squares[t] == self.spec_piece_at(t));
                assert(member(empty, t) == !member(occ, t));
                if 0 <= from < 64 {
                    assert(p.squares[from] == self.spec_piece_at(from));
                    assert(member(pawns, from) == p.holds(from, white, BBPiece::Pawn));
                    assert(member(pawns & file, from) == (member(pawns, from) && member(
                        file,
                        from,
                    )));
                    assert(member(file, from) == (if towards_a {
                        from % 8 != 0
                    } else {
                        from % 8 != 7
                    }));
                }
                if stage == 0 {
                    assert(member(single, t) == (member(pushed, t) && member(empty, t)));
                } else if stage == 1 {
                    assert(member(double, t) == (member(pushed_twice, t) && member(empty, t)));
                    let mid_sq = if white {
                        t - 8
                    } else {
                        t + 8
                    };
                    assert(mid_sq == (from + t) / 2);
                    if 0 <= mid_sq < 64 {
                        assert(p.squares[mid_sq] == self.spec_piece_at(mid_sq));
                        assert(member(empty, mid_sq) == !member(occ, mid_sq));
                        assert(member(single, mid_sq) == (member(pushed, mid_sq) && member(
                            empty,
                            mid_sq,
                        )));
                        assert(member(single & mid, mid_sq) == (member(single, mid_sq) && member(
                            mid,
                            mid_sq,
                        )));
                        assert(member(mid, mid_sq) == (if white {
                            16 <= mid_sq < 24
                        } else {
                            40 <= mid_sq < 48
                        }));
                    }
                } else if stage < 4 {
                    assert(member(hits & opp, t) == (member(hits, t) && member(opp, t)));
                } else {
                    assert(member(hits & ep_bb, t) == (member(hits, t) && member(ep_bb, t)));
                }
            }
            assert forall|m: Move|
                #![trigger in_batch(m, targets, 64, white, delta as int, base as int, capture_bb, promote)]
                #![trigger stage_batch(p, m, stage as int)]
                in_batch(
                    m,
                    targets,
                    64,
                    white,
                    delta as int,
                    base as int,
                    capture_bb,
                    promote,
                ) == stage_batch(p, m, stage as int) by {
                lemma_pawn_batch(p, stage as int, targets, m);
            }
        }
        self.add_batch(targets, 64, delta, base, capture_bb, promote, legal_only, Ghost(stage as int));
    }

    /// Lists the wanted moves of the piece on `from`.
    fn gen_piece_from(&mut self, kind: BBPiece, from: usize, legal_only: bool)
        requires
            old(self).wf(),
            from < 64,
            old(self)@.holds(from as int, old(self)@.white_to_move, kind),
            kind == BBPiece::Knight || kind == BBPiece::Bishop || kind == BBPiece::Rook || kind
                == BBPiece::Queen || kind == BBPiece::King,
            old(self).moves@.no_duplicates(),
            forall|m: Move| #[trigger]
                stage_batch(old(self)@, m, stage_of(kind)) && m.spec_from() == from ==> !old(self).moves@.contains(m),
            ranked_below(old(self)@, old(self).moves@, stage_of(kind) * 65536 + from * 1024),
        ensures
            ranked_below(old(self)@, final(self).moves@, stage_of(kind) * 65536 + (from + 1) * 1024),
            final(self).wf(),
            final(self).same_position(old(self)),
            final(self).moves@.no_duplicates(),
            old(self).moves@.len() <= final(self).moves@.len(),
            forall|m: Move| #[trigger]
                old(self).moves@.contains(m) ==> final(self).moves@.contains(m),
            forall|m: Move| #[trigger]
                final(self).moves@.contains(m) ==> old(self).moves@.contains(m) || (stage_batch(
                    old(self)@,
                    m,
                    stage_of(kind),
                ) && m.spec_from() == from && wanted(old(self)@, m, legal_only)),
            final(self).moves@.len() < MOVE_CAPACITY ==> forall|m: Move| #[trigger]
                stage_batch(old(self)@, m, stage_of(kind)) && m.spec_from() == from && wanted(
                    old(self)@,
                    m,
                    legal_only,
                ) ==> final(self).moves@.contains(m),
    {
        let ghost p = self@;
        let ghost st = stage_of(kind);
        let white = self.move_color == 1;
        let opp = self.side_pieces(!white);
        let targets = self.piece_targets(kind, from, white);
        proof {
            assert forall|t: int| 0 <= t < 64 implies #[trigger] member(opp, t) == (
            p.squares[t] matches Some(q) && q.white != white) by {
                assert(p.squares[t] == self.spec_piece_at(t));
            }
            assert forall|m: Move|
                #![trigger in_batch(m, targets, from as int, white, 0, 0, opp, false)]
                #![trigger stage_batch(p, m, st)]
                in_batch(m, targets, from as int, white, 0, 0, opp, false) == (stage_batch(p, m, st)
                    && m.spec_from() == from) by {
                lemma_piece_batch(p, kind, from as int, targets, opp, m);
            }
        }
        self.add_batch(targets, from, 0, 0, opp, false, legal_only, Ghost(st));
    }

    /// Appends the wanted moves of the piece of the side to move on `idx`
    /// that slides along ranks and files when `orth` is set and along
    /// diagonals when `diag` is set: a rook, a bishop or a queen. The
    /// moves are appended in ascending order of the squares they go to,
    /// for as long as the buffer has room; see [`slide_list`].
    pub fn gen_sliding_moves(&mut self, idx: usize, legal_only: bool, orth: bool, diag: bool)
        requires
            old(self).wf(),
            idx < 64,
            orth || diag,
            old(self)@.holds(idx as int, old(self)@.white_to_move, slider_kind(orth, diag)),
        ensures
            final(self).wf(),
            final(self).same_position(old(self)),
            exists|made: Seq<Move>| #[trigger]
                slide_list(old(self)@, idx as int, slider_kind(orth, diag), legal_only, made)
                    && final(self).moves@ == old(self).moves@ + made.take(
                    if made.len() <= MOVE_CAPACITY - old(self).moves@.len() {
                        made.len() as int
                    } else {
                        MOVE_CAPACITY - old(self).moves@.len()
                    },
                ),
    {
        let ghost p = self@;
        let ghost start = *self;
        let kind = if orth && diag {
            BBPiece::Queen
        } else if orth {
            BBPiece::Rook
        } else {
            BBPiece::Bishop
        };
        let held = self.moves;
        self.moves.clear();
        proof {
            assert(self@ == p);
            lemma_ranked_empty(p, stage_of(kind) * 65536 + idx * 1024);
            assert forall|m: Move| p.pseudo_legal(m) && m.spec_from() == idx implies #[trigger] stage_batch(
                p,
                m,
                stage_of(kind),
            ) by {
                m.lemma_parts();
            }
        }
        self.gen_piece_from(kind, idx, legal_only);
        let made = self.moves.iter();
        proof {
            assert forall|m: Move| #[trigger] made@.contains(m) implies m.spec_from() == idx
                && p.pseudo_legal(m) && (legal_only ==> p.legal(m)) by {
                lemma_wanted(p, m, legal_only);
            }
            if made@.len() < MOVE_CAPACITY {
                assert forall|m: Move|
                    #![trigger made@.contains(m)]
                    #![trigger p.pseudo_legal(m)]
                    m.spec_from() == idx && p.pseudo_legal(m) && (legal_only ==> p.legal(
                        m,
                    )) implies made@.contains(m) by {
                    lemma_wanted(p, m, legal_only);
                    assert(stage_batch(p, m, stage_of(kind)));
                }
            }
            assert(slide_list(p, idx as int, kind, legal_only, made@));
        }
        self.moves = held;
        self.moves.extend(made.as_slice());
        proof {
            assert(self@ == p);
            assert(self.same_position(&start));
        }
    }

    /// Lists the wanted moves of the pieces of one kind, piece by piece in
    /// ascending order of their squares.
    fn gen_piece_moves(&mut self, kind: BBPiece, legal_only: bool)
        requires
            old(self).wf(),
            kind == BBPiece::Knight || kind == BBPiece::Bishop || kind == BBPiece::Rook || kind
                == BBPiece::Queen || kind == BBPiece::King,
            old(self).moves@.no_duplicates(),
            forall|m: Move| #[trigger]
                stage_batch(old(self)@, m, stage_of(kind)) ==> !old(self).moves@.contains(m),
            ranked_below(old(self)@, old(self).moves@, stage_of(kind) * 65536),
        ensures
            final(self).wf(),
            final(self).same_position(old(self)),
            final(self).moves@.no_duplicates(),
            stage_step(old(self).moves@, final(self).moves@, old(self)@, legal_only, stage_of(kind)),
            ranked_below(old(self)@, final(self).moves@, (stage_of(kind) + 1) * 65536),
    {
        let ghost p = self@;
        let ghost start = self.moves@;
        let ghost st = stage_of(kind);
        let ghost mut done: int = 0;
        let white = self.move_color == 1;
        let mut pcs = self.pieces_of(white, kind);
        proof {
            assert forall|s: int| 0 <= s < 64 implies #[trigger] member(pcs, s) == p.holds(
                s,
                white,
                kind,
            ) by {
                assert(p.squares[s] == self.spec_piece_at(s));
            }
            assert forall|m: Move| #[trigger] stage_batch(p, m, st) implies member(
                pcs,
                m.spec_from(),
            ) by {
                lemma_stage_mover(p, m, kind);
            }
        }
        while pcs != 0
            invariant
                0 <= done <= 64,
                forall|s: int| 0 <= s < 64 && #[trigger] member(pcs, s) ==> s >= done,
                ranked_below(p, self.moves@, st * 65536 + done * 1024),
                self.wf(),
                self.same_position(old(self)),
                p == old(self)@,
                start == old(self).moves@,
                st == stage_of(kind),
                white == p.white_to_move,
                kind == BBPiece::Knight || kind == BBPiece::Bishop || kind == BBPiece::Rook || kind
                    == BBPiece::Queen || kind == BBPiece::King,
                forall|s: int| 0 <= s < 64 && #[trigger] member(pcs, s) ==> p.holds(s, white, kind),
                forall|m: Move| #[trigger] stage_batch(p, m, st) ==> !start.contains(m),
                self.moves@.no_duplicates(),
                start.len() <= self.moves@.len(),
                forall|m: Move| #[trigger] start.contains(m) ==> self.moves@.contains(m),
                forall|m: Move| #[trigger]
                    self.moves@.contains(m) ==> start.contains(m) || (stage_batch(p, m, st)
                        && wanted(p, m, legal_only) && !member(pcs, m.spec_from())),
                self.moves@.len() < MOVE_CAPACITY ==> forall|m: Move| #[trigger]
                    stage_batch(p, m, st) && wanted(p, m, legal_only) && !member(
                        pcs,
                        m.spec_from(),
                    ) ==> self.moves@.contains(m),
            decreases crate::bits::popcount(pcs),
        {
            let ghost before_pcs = pcs;
            let ghost before = self.moves@;
            let from = bb_gs_low_bit(&mut pcs);
            proof {
                crate::bits::lemma_count_drop(before_pcs, pcs, from as int);
                assert forall|m: Move| #[trigger]
                    stage_batch(p, m, st) && m.spec_from() == from implies !before.contains(m) by {
                    if before.contains(m) {
                        assert(start.contains(m) || !member(before_pcs, m.spec_from()));
                    }
                }
                lemma_ranked_weaken(p, before, st * 65536 + done * 1024, st * 65536 + from * 1024);
            }
            self.gen_piece_from(kind, from, legal_only);
            proof {
                done = from + 1;
            }
            proof {
                let now = self.moves@;
                assert forall|m: Move| #[trigger] now.contains(m) implies start.contains(m) || (
                stage_batch(p, m, st) && wanted(p, m, legal_only) && !member(
                    pcs,
                    m.spec_from(),
                )) by {
                    m.lemma_parts();
                }
                assert forall|m: Move| #[trigger] start.contains(m) implies now.contains(m) by {
                    assert(before.contains(m));
                }
                if now.len() < MOVE_CAPACITY {
                    assert forall|m: Move| #[trigger]
                        stage_batch(p, m, st) && wanted(p, m, legal_only) && !member(
                            pcs,
                            m.spec_from(),
                        ) implies now.contains(m) by {
                        m.lemma_parts();
                        if m.spec_from() != from {
                            assert(!member(before_pcs, m.spec_from()));
                            assert(before.contains(m));
                        }
                    }
                }
            }
        }
        proof {
            lemma_bit_ops();
            let now = self.moves@;
            assert forall|m: Move| #[trigger] now.contains(m) implies start.contains(m) || (
            stage_batch(p, m, st) && wanted(p, m, legal_only)) by {}
            if now.len() < MOVE_CAPACITY {
                assert forall|m: Move| #[trigger]
                    stage_batch(p, m, st) && wanted(p, m, legal_only) implies now.contains(m) by {
                    m.lemma_parts();
                    assert(!member(pcs, m.spec_from()));
                }
            }
            assert(stage_step(start, now, p, legal_only, st));
            lemma_ranked_weaken(p, now, st * 65536 + done * 1024, (st + 1) * 65536);
        }
    }

    /// Lists the wanted castling moves: the right is held, the king stands
    /// on its home square and the squares between king and rook are empty.
    fn gen_castling(&mut self, legal_only: bool)
        requires
            old(self).wf(),
            old(self).moves@.no_duplicates(),
            forall|m: Move| #[trigger]
                stage_batch(old(self)@, m, 10) ==> !old(self).moves@.contains(m),
            ranked_below(old(self)@, old(self).moves@, 655360int),
        ensures
            final(self).wf(),
            final(self).same_position(old(self)),
            final(self).moves@.no_duplicates(),
            stage_step(old(self).moves@, final(self).moves@, old(self)@, legal_only, 10),
            ranked_below(old(self)@, final(self).moves@, 720896int),
    {
        let ghost p = self@;
        let ghost start = self.moves@;
        let white = self.move_color == 1;
        let home: usize = if white {
            4
        } else {
            60
        };
        let king_side: usize = if white {
            0
        } else {
            2
        };
        let occ = self.occupied();
        proof {
            assert forall|m: Move|
                #![trigger stage_batch(p, m, 10)]
                stage_batch(p, m, 10) == (p.holds(home as int, white, BBPiece::King) && ((m
                    == Move::spec_parts(home as int, home + 2, 2) && p.castle_ok(
                    home as int,
                    home + 2,
                    2,
                )) || (m == Move::spec_parts(home as int, home - 2, 3) && p.castle_ok(
                    home as int,
                    home - 2,
                    3,
                )))) by {
                lemma_castle_batch(p, m);
            }
            assert forall|s: int| 0 <= s < 64 implies #[trigger] p.squares[s]
                == self.spec_piece_at(s) by {}
            Move::lemma_of_parts(home as int, home + 2, 2);
            Move::lemma_of_parts(home as int, home - 2, 3);
        }
        let king_home = self.piece_at(home) == Some(Piece { white: white, kind: BBPiece::King });
        let short = king_home && self.castling_rights[king_side] && !bb_get(occ, home + 1)
            && !bb_get(occ, home + 2);
        let long = king_home && self.castling_rights[king_side + 1] && !bb_get(occ, home - 1)
            && !bb_get(occ, home - 2) && !bb_get(occ, home - 3);
        proof {
            assert(short == (p.holds(home as int, white, BBPiece::King) && p.castle_ok(
                home as int,
                home + 2,
                2,
            )));
            assert(long == (p.holds(home as int, white, BBPiece::King) && p.castle_ok(
                home as int,
                home - 2,
                3,
            )));
        }
        if short {
            proof {
                assert(stage_batch(p, Move::spec_parts(home as int, home + 2, 2), 10));
            }
            self.add_one(home, home + 2, 2, legal_only);
            proof {
                lemma_rank_of(p, home as int, home + 2, 2, 10);
                lemma_ranked_step(
                    p,
                    start,
                    self.moves@,
                    Move::spec_parts(home as int, home + 2, 2),
                    655360int,
                    655363int,
                );
            }
        } else {
            proof {
                lemma_ranked_weaken(p, start, 655360int, 655363int);
            }
        }
        let ghost mid = self.moves@;
        if long {
            proof {
                assert(stage_batch(p, Move::spec_parts(home as int, home - 2, 3), 10));
            }
            self.add_one(home, home - 2, 3, legal_only);
            proof {
                lemma_rank_of(p, home as int, home - 2, 3, 10);
                lemma_ranked_step(
                    p,
                    mid,
                    self.moves@,
                    Move::spec_parts(home as int, home - 2, 3),
                    655363int,
                    720896int,
                );
            }
        } else {
            proof {
                lemma_ranked_weaken(p, mid, 655363int, 720896int);
            }
        }
        proof {
            let now = self.moves@;
            assert forall|m: Move| #[trigger] start.contains(m) implies now.contains(m) by {
                assert(mid.contains(m));
            }
            assert forall|m: Move| #[trigger] now.contains(m) implies start.contains(m) || (
            stage_batch(p, m, 10) && wanted(p, m, legal_only)) by {
                assert(mid.contains(m) || m == Move::spec_parts(home as int, home - 2, 3));
            }
            if now.len() < MOVE_CAPACITY {
                assert forall|m: Move| #[trigger]
                    stage_batch(p, m, 10) && wanted(p, m, legal_only) implies now.contains(m) by {
                    if m == Move::spec_parts(home as int, home + 2, 2) {
                        assert(mid.contains(m));
                    }
                }
            }
        }
    }

    /// Fills the move buffer with the pseudo-legal moves of the side to
    /// move, or, when `legal_only` is set, with the legal ones. The
    /// position is left as it was.
    ///
    /// Every move in the buffer is one that was asked for, and no move is
    /// in it twice. When the buffer did not fill up, every move that was
    /// asked for is in it. The moves stand in the order of the generator,
    /// which leaves no choice: see [`gen_rank`] and [`gen_list`].
    pub fn gen_moves(&mut self, legal_only: bool)
        requires
            old(self).wf(),
        ensures
            final(self).wf(),
            final(self).same_position(old(self)),
            final(self).moves@.no_duplicates(),
            forall|m: Move| #[trigger]
                final(self).moves@.contains(m) ==> old(self)@.pseudo_legal(m) && (legal_only
                    ==> old(self)@.legal(m)),
            final(self).moves@.len() < MOVE_CAPACITY ==> forall|m: Move|
                #![trigger final(self).moves@.contains(m)]
                #![trigger old(self)@.pseudo_legal(m)]
                old(self)@.pseudo_legal(m) && (legal_only ==> old(self)@.legal(m)) ==> final(self).moves@.contains(m),
            ranked_below(old(self)@, final(self).moves@, 786432int),
            final(self).moves@.len() < MOVE_CAPACITY ==> final(self).moves@ == gen_list(
                old(self)@,
                legal_only,
            ),
    {
        let ghost p = self@;
        let ghost before = *self;
        self.moves.clear();
        proof {
            assert(self@ == p);
            assert(self.same_position(&before));
            lemma_ranked_empty(p, 0);
        }
        let mut stage: u8 = 0;
        while stage < 6
            invariant
                stage <= 6,
                self.wf(),
                self.same_position(&before),
                p == before@,
                self.moves@.no_duplicates(),
                listed_upto(self.moves@, p, legal_only, stage as int),
                ranked_below(p, self.moves@, stage * 65536),
            decreases 6 - stage,
        {
            let ghost prev = self.moves@;
            proof {
                lemma_stage_fresh(prev, p, legal_only, stage as int);
            }
            self.gen_pawn_moves(stage, legal_only);
            proof {
                lemma_stage_glue(prev, self.moves@, p, legal_only, stage as int);
            }
            stage = stage + 1;
        }
        let ghost l6 = self.moves@;
        proof {
            lemma_stage_fresh(l6, p, legal_only, 6);
        }
        self.gen_piece_moves(BBPiece::Knight, legal_only);
        let ghost l7 = self.moves@;
        proof {
            lemma_stage_glue(l6, l7, p, legal_only, 6);
            lemma_stage_fresh(l7, p, legal_only, 7);
        }
        self.gen_piece_moves(BBPiece::Bishop, legal_only);
        let ghost l8 = self.moves@;
        proof {
            lemma_stage_glue(l7, l8, p, legal_only, 7);
            lemma_stage_fresh(l8, p, legal_only, 8);
        }
        self.gen_piece_moves(BBPiece::Rook, legal_only);
        let ghost l9 = self.moves@;
        proof {
            lemma_stage_glue(l8, l9, p, legal_only, 8);
            lemma_stage_fresh(l9, p, legal_only, 9);
        }
        self.gen_piece_moves(BBPiece::Queen, legal_only);
        let ghost l10 = self.moves@;
        proof {
            lemma_stage_glue(l9, l10, p, legal_only, 9);
            lemma_stage_fresh(l10, p, legal_only, 10);
        }
        self.gen_castling(legal_only);
        let ghost l11 = self.moves@;
        proof {
            lemma_stage_glue(l10, l11, p, legal_only, 10);
            lemma_stage_fresh(l11, p, legal_only, 11);
        }
        self.gen_piece_moves(BBPiece::King, legal_only);
        proof {
            lemma_stage_glue(l11, self.moves@, p, legal_only, 11);
        }
        proof {
            assert forall|m: Move| #[trigger] self.moves@.contains(m) implies p.pseudo_legal(m) && (
            legal_only ==> p.legal(m)) by {
                lemma_wanted(p, m, legal_only);
            }
            if self.moves@.len() < MOVE_CAPACITY {
                assert forall|m: Move|
                    #![trigger self.moves@.contains(m)]
                    #![trigger p.pseudo_legal(m)]
                    p.pseudo_legal(m) && (legal_only ==> p.legal(m)) implies self.moves@.contains(
                    m,
                ) by {
                    lemma_wanted(p, m, legal_only);
                    lemma_category_range(p, m);
                }
                lemma_gen_list(p, legal_only, self.moves@);
            }
        }
    }
}

} // verus!
