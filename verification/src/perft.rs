//! Counting the leaves of the tree of legal moves.

use vstd::prelude::*;
use crate::board::Board;
use crate::moves::{Move, MOVE_CAPACITY};
use crate::position::Position;
use crate::makemove::{make_move, undo_move};
use crate::laws::lemma_make_undo;

verus! {

/// The move with the given sixteen bits.
pub open spec fn move_of(n: int) -> Move {
    Move { info: n as u16 }
}

/// The number of lines of `depth` legal moves that start with one of the
/// legal moves whose sixteen bits are a number below `n`. A depth below
/// one counts as one.
pub open spec fn perft_below(p: Position, depth: nat, n: nat) -> nat
    decreases depth, n,
{
    if n == 0 {
        0
    } else {
        perft_below(p, depth, (n - 1) as nat) + if p.legal(move_of(n - 1)) {
            if depth <= 1 {
                1nat
            } else {
                perft_below(p.make(move_of(n - 1)), (depth - 1) as nat, 65536)
            }
        } else {
            0nat
        }
    }
}

/// The number of lines of `depth` legal moves that start at the position.
pub open spec fn spec_perft(p: Position, depth: nat) -> nat {
    perft_below(p, depth, 65536)
}

/// Whether `m` is a legal move of `p`.
pub open spec fn is_legal(p: Position, m: Move) -> bool {
    p.legal(m)
}

/// What a move counts in the sum of a node: the lines that start with it.
pub open spec fn line_count(p: Position, depth: nat, m: Move) -> nat {
    if depth <= 1 {
        1
    } else {
        spec_perft(p.make(m), (depth - 1) as nat)
    }
}

/// The sum of `w` over the moves that satisfy `ok`, among the moves whose
/// sixteen bits are a number below `n`.
pub open spec fn move_sum(ok: spec_fn(Move) -> bool, w: spec_fn(Move) -> nat, n: nat) -> nat
    decreases n,
{
    if n == 0 {
        0
    } else {
        move_sum(ok, w, (n - 1) as nat) + if ok(move_of(n - 1)) {
            w(move_of(n - 1))
        } else {
            0nat
        }
    }
}

/// The sum of `w` over the moves of a list.
pub open spec fn list_sum(list: Seq<Move>, w: spec_fn(Move) -> nat) -> nat
    decreases list.len(),
{
    if list.len() == 0 {
        0
    } else {
        list_sum(list.drop_last(), w) + w(list.last())
    }
}

/// The count of a node is the sum of the counts of its legal moves.
pub proof fn lemma_perft_is_sum(p: Position, depth: nat, n: nat)
    ensures
        perft_below(p, depth, n) == move_sum(
            |m: Move| is_legal(p, m),
            |m: Move| line_count(p, depth, m),
            n,
        ),
    decreases n,
{
    if n > 0 {
        lemma_perft_is_sum(p, depth, (n - 1) as nat);
    }
}

/// Sums over predicates that agree, of weights that agree where the
/// predicates hold, agree.
pub proof fn lemma_move_sum_same(
    ok: spec_fn(Move) -> bool,
    ok2: spec_fn(Move) -> bool,
    w: spec_fn(Move) -> nat,
    w2: spec_fn(Move) -> nat,
    n: nat,
)
    requires
        forall|m: Move| #[trigger] ok(m) == ok2(m),
        forall|m: Move| ok(m) ==> #[trigger] w(m) == w2(m),
    ensures
        move_sum(ok, w, n) == move_sum(ok2, w2, n),
    decreases n,
{
    if n > 0 {
        lemma_move_sum_same(ok, ok2, w, w2, (n - 1) as nat);
    }
}

/// Whether `m` satisfies `ok` and is not `x`.
pub open spec fn but(ok: spec_fn(Move) -> bool, x: Move, m: Move) -> bool {
    ok(m) && m != x
}

/// Leaving one move out of a sum takes its weight out, if it counted.
pub proof fn lemma_move_sum_without(
    ok: spec_fn(Move) -> bool,
    w: spec_fn(Move) -> nat,
    x: Move,
    n: nat,
)
    requires
        n <= 65536,
        ok(x),
    ensures
        move_sum(ok, w, n) == move_sum(|m: Move| but(ok, x, m), w, n) + if x.info < n {
            w(x)
        } else {
            0nat
        },
    decreases n,
{
    if n > 0 {
        lemma_move_sum_without(ok, w, x, (n - 1) as nat);
        assert(move_of(n - 1).info == n - 1);
        if x.info == n - 1 {
            assert(move_of(n - 1) == x);
        }
    }
}

/// A sum over nothing is nothing.
pub proof fn lemma_move_sum_none(ok: spec_fn(Move) -> bool, w: spec_fn(Move) -> nat, n: nat)
    requires
        forall|m: Move| !#[trigger] ok(m),
    ensures
        move_sum(ok, w, n) == 0,
    decreases n,
{
    if n > 0 {
        lemma_move_sum_none(ok, w, (n - 1) as nat);
    }
}

/// The sum over a list that holds each move that satisfies `ok` once, and
/// no other move, is the sum over the moves that satisfy `ok`.
pub proof fn lemma_list_sum(list: Seq<Move>, ok: spec_fn(Move) -> bool, w: spec_fn(Move) -> nat)
    requires
        list.no_duplicates(),
        forall|m: Move| #[trigger] list.contains(m) == ok(m),
    ensures
        list_sum(list, w) == move_sum(ok, w, 65536),
    decreases list.len(),
{
    if list.len() == 0 {
        assert forall|m: Move| !#[trigger] ok(m) by {
            assert(!list.contains(m));
        }
        lemma_move_sum_none(ok, w, 65536);
    } else {
        let x = list.last();
        let front = list.drop_last();
        let rest = |m: Move| but(ok, x, m);
        assert(list.contains(x));
        assert forall|m: Move| #[trigger] front.contains(m) == rest(m) by {
            if front.contains(m) {
                let i = choose|i: int| 0 <= i < front.len() && front[i] == m;
                assert(list[i] == m);
                assert(list[i] != list[list.len() - 1]);
            }
            if rest(m) {
                assert(but(ok, x, m));
                assert(list.contains(m) == ok(m));
                let i = choose|i: int| 0 <= i < list.len() && list[i] == m;
                assert(i < list.len() - 1);
                assert(front[i] == m);
            } else if front.contains(m) {
                assert(list.contains(m) == ok(m));
                assert(but(ok, x, m));
            }
        }
        assert forall|i: int, j: int|
            0 <= i < front.len() && 0 <= j < front.len() && i != j implies front[i]
            != front[j] by {
            assert(list[i] != list[j]);
        }
        lemma_list_sum(front, rest, w);
        lemma_move_sum_without(ok, w, x, 65536);
    }
}

/// A list without duplicates of moves that satisfy `ok` is at most as
/// long as there are such moves.
pub proof fn lemma_list_len(list: Seq<Move>, ok: spec_fn(Move) -> bool)
    requires
        list.no_duplicates(),
        forall|m: Move| #[trigger] list.contains(m) ==> ok(m),
    ensures
        list.len() <= move_sum(ok, |m: Move| 1nat, 65536),
    decreases list.len(),
{
    if list.len() > 0 {
        let x = list.last();
        let front = list.drop_last();
        let rest = |m: Move| but(ok, x, m);
        assert(list.contains(x));
        assert forall|m: Move| #[trigger] front.contains(m) implies rest(m) by {
            let i = choose|i: int| 0 <= i < front.len() && front[i] == m;
            assert(list[i] == m);
            assert(list.contains(m));
            assert(list[i] != list[list.len() - 1]);
        }
        assert forall|i: int, j: int|
            0 <= i < front.len() && 0 <= j < front.len() && i != j implies front[i]
            != front[j] by {
            assert(list[i] != list[j]);
        }
        lemma_list_len(front, rest);
        lemma_move_sum_without(ok, |m: Move| 1nat, x, 65536);
    }
}

/// The sum over a part of a list is at most the sum over the list.
pub proof fn lemma_list_sum_take(list: Seq<Move>, w: spec_fn(Move) -> nat, k: int)
    requires
        0 <= k <= list.len(),
    ensures
        list_sum(list.take(k), w) <= list_sum(list, w),
        k < list.len() ==> list_sum(list.take(k + 1), w) == list_sum(list.take(k), w) + w(list[k]),
    decreases list.len() - k,
{
    if k < list.len() {
        lemma_list_sum_take(list, w, k + 1);
        assert(list.take(k + 1).drop_last() =~= list.take(k));
        assert(list.take(k + 1).last() == list[k]);
    } else {
        assert(list.take(k) =~= list);
    }
}

/// The number of legal moves of a position.
pub open spec fn legal_count(p: Position) -> nat {
    move_sum(|m: Move| is_legal(p, m), |m: Move| 1nat, 65536)
}

/// Whether the count of the tree below a position can be taken: no node
/// of the tree has more legal moves than the move buffer holds, and the
/// count of every node fits into 64 bits.
pub open spec fn perft_fits(p: Position, depth: nat) -> bool
    decreases depth,
{
    &&& legal_count(p) < MOVE_CAPACITY
    &&& spec_perft(p, depth) <= u64::MAX
    &&& depth > 1 ==> forall|m: Move| #[trigger]
        p.legal(m) ==> perft_fits(p.make(m), (depth - 1) as nat)
}

/// What fits below a position fits below the positions after its legal
/// moves.
pub proof fn lemma_fits_child(p: Position, depth: nat, m: Move)
    requires
        perft_fits(p, depth),
        depth > 1,
        p.legal(m),
    ensures
        perft_fits(p.make(m), (depth - 1) as nat),
        legal_count(p) < MOVE_CAPACITY,
        spec_perft(p, depth) <= u64::MAX,
{
}

/// The number of lines of `depth` legal moves that start at the position,
/// counted by walking the tree; a depth below one counts as one. The
/// board is left as it was, but for its move buffer.
///
/// The count is exact when no node of the tree has more legal moves than
/// the move buffer holds and no count leaves 64 bits; a count that would
/// leave them stays at the largest number they hold.
pub fn perft(bd: &mut Board, depth: u8) -> (count: u64)
    requires
        old(bd).wf(),
    ensures
        final(bd).wf(),
        final(bd).same_position(old(bd)),
        perft_fits(old(bd)@, depth as nat) ==> count == spec_perft(old(bd)@, depth as nat),
    decreases depth,
{
    let ghost p = bd@;
    let ghost start = *bd;
    let ghost d = depth as nat;
    let ghost ok = |m: Move| is_legal(p, m);
    let ghost w = |m: Move| line_count(p, d, m);
    bd.gen_moves(true);
    let n = bd.moves.len();
    let moves = bd.moves.iter();
    let ghost list = moves@;
    proof {
        bd.lemma_restored(&start);
        lemma_perft_is_sum(p, d, 65536);
        assert forall|m: Move| #[trigger] list.contains(m) implies ok(m) by {}
        lemma_list_len(list, ok);
        if perft_fits(p, d) {
            assert(n < MOVE_CAPACITY);
            assert forall|m: Move| #[trigger] list.contains(m) == ok(m) by {
                if ok(m) {
                    assert(p.pseudo_legal(m));
                }
            }
            lemma_list_sum(list, ok, w);
        }
    }
    if depth <= 1 {
        proof {
            if perft_fits(p, d) {
                lemma_list_sum(list, ok, |m: Move| 1nat);
                lemma_move_sum_same(ok, ok, w, |m: Move| 1nat, 65536);
                lemma_list_len(list, ok);
                lemma_count_list(list);
            }
        }
        return n as u64;
    }
    let mut count: u64 = 0;
    let mut i: usize = 0;
    while i < n
        invariant
            i <= n,
            n == list.len(),
            list == moves@,
            depth > 1,
            d == depth,
            bd.wf(),
            start.wf(),
            bd.same_position(&start),
            start.same_position(old(bd)),
            p == start@,
            w == |m: Move| line_count(p, d, m),
            forall|m: Move| #[trigger] list.contains(m) ==> p.legal(m),
            perft_fits(p, d) ==> list_sum(list, w) == spec_perft(p, d),
            perft_fits(p, d) ==> count == list_sum(list.take(i as int), w),
        decreases n - i,
    {
        let m = moves[i];
        assert(list.contains(m));
        proof {
            lemma_make_undo(p, m);
            lemma_list_sum_take(list, w, i as int);
        }
        let _ = make_move(bd, &m);
        let below = perft(bd, depth - 1);
        let _ = undo_move(bd);
        proof {
            bd.lemma_restored(&start);
            if perft_fits(p, d) {
                lemma_fits_child(p, d, m);
                assert(below == w(m));
                lemma_list_sum_take(list, w, i + 1);
            }
        }
        count = count.saturating_add(below);
        i += 1;
    }
    proof {
        assert(list.take(n as int) =~= list);
    }
    count
}

/// The sum of ones over a list is its length.
pub proof fn lemma_count_list(list: Seq<Move>)
    ensures
        list_sum(list, |m: Move| 1nat) == list.len(),
    decreases list.len(),
{
    if list.len() > 0 {
        lemma_count_list(list.drop_last());
    }
}

} // verus!
