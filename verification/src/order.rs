//! Move ordering: the moves of a position sorted by how promising they
//! look, best first.

use vstd::prelude::*;
use crate::square::BBPiece;
use crate::moves::{Move, MoveStack, MOVE_CAPACITY, spec_score_move};
use crate::board::Board;
use crate::position::Position;

verus! {

/// The captures among `s`, in their order.
pub open spec fn captures_of(s: Seq<Move>) -> Seq<Move>
    decreases s.len(),
{
    if s.len() == 0 {
        Seq::empty()
    } else {
        let rest = captures_of(s.drop_last());
        if s.last().spec_is_capture() {
            rest.push(s.last())
        } else {
            rest
        }
    }
}

/// The captures among `s` are the members of `s` that are captures.
pub proof fn lemma_captures_of(s: Seq<Move>)
    ensures
        captures_of(s).len() <= s.len(),
        forall|m: Move| #[trigger]
            captures_of(s).contains(m) == (s.contains(m) && m.spec_is_capture()),
        s.no_duplicates() ==> captures_of(s).no_duplicates(),
    decreases s.len(),
{
    if s.len() > 0 {
        let front = s.drop_last();
        let x = s.last();
        lemma_captures_of(front);
        crate::movegen::lemma_push_contains(captures_of(front), x);
        assert forall|m: Move| #[trigger]
            captures_of(s).contains(m) == (s.contains(m) && m.spec_is_capture()) by {
            if s.contains(m) {
                let i = choose|i: int| 0 <= i < s.len() && s[i] == m;
                if i < front.len() {
                    assert(front[i] == m);
                }
            }
            if front.contains(m) {
                let i = choose|i: int| 0 <= i < front.len() && front[i] == m;
                assert(s[i] == m);
            }
            assert(s[s.len() - 1] == x);
        }
        if s.no_duplicates() {
            assert forall|i: int, j: int|
                0 <= i < front.len() && 0 <= j < front.len() && i != j implies front[i]
                != front[j] by {
                assert(s[i] != s[j]);
            }
            if front.contains(x) {
                let i = choose|i: int| 0 <= i < front.len() && front[i] == x;
                assert(s[i] == s[s.len() - 1]);
            }
        }
    }
}

/// What the capture-ordering knows of the piece a move takes: the kind of
/// the piece on its destination, if its flag announces a capture. An
/// en-passant capture finds its destination empty.
pub open spec fn spec_captured(p: Position, m: Move) -> Option<BBPiece> {
    if m.spec_is_capture() {
        match p.squares[m.spec_to()] {
            Some(q) => Some(q.kind),
            None => None,
        }
    } else {
        None
    }
}

/// The kind of the piece that moves.
pub open spec fn spec_mover(p: Position, m: Move) -> Option<BBPiece> {
    match p.squares[m.spec_from()] {
        Some(q) => Some(q.kind),
        None => None,
    }
}

/// The ordering score of a move in a position.
pub open spec fn spec_order_score(
    p: Position,
    m: Move,
    tt_move: Option<Move>,
    killer_moves: [Move; 2],
) -> int {
    spec_score_move(m, tt_move, killer_moves, spec_mover(p, m), spec_captured(p, m))
}

/// `x` put into a sequence sorted by descending score, behind every move
/// that scores at least as much.
pub open spec fn insert_by_score(sorted: Seq<Move>, x: Move, score: spec_fn(Move) -> int) -> Seq<
    Move,
>
    decreases sorted.len(),
{
    if sorted.len() == 0 {
        seq![x]
    } else if score(sorted.last()) >= score(x) {
        sorted.push(x)
    } else {
        insert_by_score(sorted.drop_last(), x, score).push(sorted.last())
    }
}

/// The moves of `s` by descending score; moves of equal score keep their
/// order.
pub open spec fn sorted_by_score(s: Seq<Move>, score: spec_fn(Move) -> int) -> Seq<Move>
    decreases s.len(),
{
    if s.len() == 0 {
        Seq::empty()
    } else {
        insert_by_score(sorted_by_score(s.drop_last(), score), s.last(), score)
    }
}

/// Whether the scores of a sequence never rise.
pub open spec fn descending(s: Seq<Move>, score: spec_fn(Move) -> int) -> bool {
    forall|i: int, j: int| 0 <= i < j < s.len() ==> score(s[i]) >= score(s[j])
}

/// Inserting keeps the members, adds the new one, and keeps the order
/// descending.
pub proof fn lemma_insert_by_score(sorted: Seq<Move>, x: Move, score: spec_fn(Move) -> int)
    ensures
        insert_by_score(sorted, x, score).len() == sorted.len() + 1,
        forall|m: Move| #[trigger]
            insert_by_score(sorted, x, score).contains(m) == (sorted.contains(m) || m == x),
        descending(sorted, score) ==> descending(insert_by_score(sorted, x, score), score),
    decreases sorted.len(),
{
    let r = insert_by_score(sorted, x, score);
    if sorted.len() == 0 {
        assert(r =~= Seq::<Move>::empty().push(x));
        assert(sorted =~= Seq::<Move>::empty());
        crate::movegen::lemma_push_contains(sorted, x);
        assert(r[0] == x);
    } else if score(sorted.last()) >= score(x) {
        crate::movegen::lemma_push_contains(sorted, x);
        if descending(sorted, score) {
            assert forall|i: int, j: int| 0 <= i < j < r.len() implies score(r[i]) >= score(
                r[j],
            ) by {
                if j == sorted.len() {
                    if i < sorted.len() - 1 {
                        assert(score(sorted[i]) >= score(sorted[sorted.len() - 1]));
                    }
                }
            }
        }
    } else {
        let front = sorted.drop_last();
        let last = sorted.last();
        lemma_insert_by_score(front, x, score);
        let mid = insert_by_score(front, x, score);
        crate::movegen::lemma_push_contains(mid, last);
        crate::movegen::lemma_push_contains(front, last);
        assert(sorted =~= front.push(last));
        if descending(sorted, score) {
            assert forall|i: int, j: int| 0 <= i < j < front.len() implies score(front[i])
                >= score(front[j]) by {
                assert(front[i] == sorted[i] && front[j] == sorted[j]);
            }
            assert(descending(front, score));
            assert forall|i: int, j: int| 0 <= i < j < r.len() implies score(r[i]) >= score(
                r[j],
            ) by {
                if j == mid.len() {
                    assert(mid.contains(mid[i]));
                    if front.contains(mid[i]) {
                        let k = choose|k: int| 0 <= k < front.len() && front[k] == mid[i];
                        assert(score(sorted[k]) >= score(sorted[sorted.len() - 1]));
                    }
                }
            }
        }
    }
}

/// Sorting keeps the moves and puts them in descending order of score.
pub proof fn lemma_sorted_by_score(s: Seq<Move>, score: spec_fn(Move) -> int)
    ensures
        sorted_by_score(s, score).len() == s.len(),
        forall|m: Move| #[trigger] sorted_by_score(s, score).contains(m) == s.contains(m),
        descending(sorted_by_score(s, score), score),
    decreases s.len(),
{
    if s.len() > 0 {
        let front = s.drop_last();
        lemma_sorted_by_score(front, score);
        lemma_insert_by_score(sorted_by_score(front, score), s.last(), score);
        crate::movegen::lemma_push_contains(front, s.last());
        assert(s =~= front.push(s.last()));
    } else {
        assert(s =~= Seq::<Move>::empty());
    }
}

impl Board {
    /// The kind of the piece that a capture takes on its destination.
    pub fn captured_piece(&self, m: &Move) -> (r: Option<BBPiece>)
        ensures
            r == spec_captured(self@, *m),
    {
        if m.is_capture() {
            match self.piece_at(m.to_square() as usize) {
                Some(q) => Some(q.kind),
                None => None,
            }
        } else {
            None
        }
    }

    /// The ordering score of a move: see [`spec_score_move`].
    pub fn order_score(&self, m: &Move, tt_move: Option<Move>, killer_moves: &[Move; 2]) -> (r: i32)
        ensures
            r == spec_order_score(self@, *m, tt_move, *killer_moves),
    {
        let mover: Option<BBPiece> = match self.piece_at(m.from_square() as usize) {
            Some(q) => Some(q.kind),
            None => None,
        };
        let taken = self.captured_piece(m);
        m.score_move(m, tt_move, killer_moves, mover, taken)
    }

    /// Keeps the captures of the move buffer and drops the other moves.
    pub fn captures_only(&mut self)
        requires
            old(self).moves.wf(),
        ensures
            final(self).moves.wf(),
            final(self).moves@ == captures_of(old(self).moves@),
            final(self).same_position(old(self)),
    {
        let n = self.moves.len();
        let ghost all = self.moves@;
        let mut kept: usize = 0;
        let mut i: usize = 0;
        while i < n
            invariant
                kept <= i <= n,
                n == all.len(),
                self.moves.wf(),
                self.moves@.len() == n,
                self.same_position(old(self)),
                all == old(self).moves@,
                self.moves@.take(kept as int) == captures_of(all.take(i as int)),
                forall|j: int| i <= j < n ==> self.moves@[j] == all[j],
            decreases n - i,
        {
            let m = self.moves.get(i);
            proof {
                assert(all.take(i + 1).drop_last() =~= all.take(i as int));
                assert(all.take(i + 1).last() == all[i as int]);
            }
            if m.is_capture() {
                let ghost before = self.moves@;
                self.moves.set(kept, m);
                proof {
                    assert(self.moves@.take(kept + 1) =~= before.take(kept as int).push(m));
                }
                kept += 1;
            }
            i += 1;
        }
        proof {
            assert(all.take(n as int) =~= all);
        }
        while self.moves.len() > kept
            invariant
                self.moves.wf(),
                kept <= self.moves@.len(),
                self.same_position(old(self)),
                self.moves@.take(kept as int) == captures_of(all),
            decreases self.moves@.len(),
        {
            let ghost before = self.moves@;
            let _ = self.moves.pop();
            proof {
                assert(self.moves@.take(kept as int) =~= before.take(kept as int));
            }
        }
        proof {
            assert(self.moves@.take(kept as int) =~= self.moves@);
        }
    }

    /// The moves of the position, best first: generated if `is_generated`
    /// does not say that the buffer holds them already, cut down to the
    /// captures if `captures_only` is set, and sorted by descending
    /// ordering score, moves of equal score in the order of the
    /// generator. The buffer of the board holds the same moves unsorted.
    pub fn get_ordered_moves(
        &mut self,
        is_generated: bool,
        legal_only: bool,
        captures_only: bool,
        tt_move: Option<Move>,
        killer_moves: &[Move; 2],
    ) -> (r: MoveStack)
        requires
            old(self).wf(),
        ensures
            final(self).wf(),
            final(self).same_position(old(self)),
            r.wf(),
            r@ == sorted_by_score(
                final(self).moves@,
                |m: Move| spec_order_score(old(self)@, m, tt_move, *killer_moves),
            ),
            is_generated ==> final(self).moves@ == (if captures_only {
                captures_of(old(self).moves@)
            } else {
                old(self).moves@
            }),
            !is_generated ==> final(self).moves@.no_duplicates() && (forall|m: Move| #[trigger]
                final(self).moves@.contains(m) ==> old(self)@.pseudo_legal(m) && (legal_only
                    ==> old(self)@.legal(m)) && (captures_only ==> m.spec_is_capture())),
            !is_generated && !captures_only && final(self).moves@.len() < MOVE_CAPACITY
                ==> forall|m: Move|
                #![trigger final(self).moves@.contains(m)]
                #![trigger old(self)@.pseudo_legal(m)]
                old(self)@.pseudo_legal(m) && (legal_only ==> old(self)@.legal(m)) ==> final(self).moves@.contains(m),
            !is_generated && crate::movegen::roomy(old(self)@) ==> final(self).moves@ == (
            if captures_only {
                captures_of(crate::movegen::gen_list(old(self)@, legal_only))
            } else {
                crate::movegen::gen_list(old(self)@, legal_only)
            }),
            !is_generated && !captures_only ==> crate::movegen::ranked_below(
                old(self)@,
                final(self).moves@,
                786432,
            ),
    {
        let ghost p = self@;
        if !is_generated {
            self.gen_moves(legal_only);
            proof {
                if crate::movegen::roomy(p) {
                    crate::movegen::lemma_roomy(p, self.moves@);
                }
            }
        }
        if captures_only {
            proof {
                lemma_captures_of(self.moves@);
            }
            self.captures_only();
        }
        let ghost score = |m: Move| spec_order_score(p, m, tt_move, *killer_moves);
        let n = self.moves.len();
        let mut sorted = MoveStack::new();
        let mut scores: Vec<i32> = Vec::new();
        let mut i: usize = 0;
        while i < n
            invariant
                i <= n,
                n == self.moves@.len(),
                n <= MOVE_CAPACITY,
                self.wf(),
                self@ == p,
                sorted.wf(),
                score == |m: Move| spec_order_score(p, m, tt_move, *killer_moves),
                sorted@ == sorted_by_score(self.moves@.take(i as int), score),
                scores@.len() == sorted@.len(),
                sorted@.len() == i,
                forall|j: int| 0 <= j < i ==> scores@[j] == score(sorted@[j]),
            decreases n - i,
        {
            let m = self.moves.get(i);
            let s = self.order_score(&m, tt_move, killer_moves);
            let ghost done = sorted@;
            proof {
                assert(self.moves@.take(i + 1).drop_last() =~= self.moves@.take(i as int));
                assert(self.moves@.take(i + 1).last() == m);
                assert(score(m) == s);
            }
            let mut at: usize = i;
            proof {
                assert(done.take(i as int) =~= done);
                assert(insert_by_score(done, m, score) + done.subrange(i as int, i as int)
                    =~= insert_by_score(done, m, score));
            }
            while at > 0 && scores[at - 1] < s
                invariant
                    at <= i,
                    i < MOVE_CAPACITY,
                    sorted.wf(),
                    sorted@ == done,
                    done.len() == i,
                    scores@.len() == i,
                    forall|j: int| 0 <= j < i ==> scores@[j] == score(done[j]),
                    score(m) == s,
                    insert_by_score(done, m, score) == insert_by_score(
                        done.take(at as int),
                        m,
                        score,
                    ) + done.subrange(at as int, i as int),
                decreases at,
            {
                proof {
                    let head = done.take(at as int);
                    assert(head.last() == done[at - 1]);
                    assert(head.drop_last() =~= done.take(at - 1));
                    assert(insert_by_score(head, m, score) == insert_by_score(
                        done.take(at - 1),
                        m,
                        score,
                    ).push(done[at - 1]));
                    assert(insert_by_score(done.take(at - 1), m, score).push(done[at - 1])
                        + done.subrange(at as int, i as int) =~= insert_by_score(
                        done.take(at - 1),
                        m,
                        score,
                    ) + done.subrange(at - 1, i as int));
                }
                at -= 1;
            }
            proof {
                let head = done.take(at as int);
                if at > 0 {
                    assert(head.last() == done[at - 1]);
                    assert(insert_by_score(head, m, score) == head.push(m));
                } else {
                    assert(head =~= Seq::<Move>::empty());
                    assert(insert_by_score(head, m, score) =~= head.push(m));
                }
                assert(head.push(m) + done.subrange(at as int, i as int) =~= done.insert(
                    at as int,
                    m,
                ));
                assert(done.take(i as int) =~= done);
            }
            let _ = sorted.insert(at, m);
            scores.insert(at, s);
            i += 1;
        }
        proof {
            assert(self.moves@.take(n as int) =~= self.moves@);
        }
        sorted
    }
}

} // verus!
