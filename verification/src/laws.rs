//! What holds of every position and every pseudo-legal move.

use vstd::prelude::*;
use crate::square::BBPiece;
use crate::moves::Move;
use crate::position::{Position, Piece, make_squares, undo_squares, rights_of_mask, castling_mask};

verus! {

/// A pseudo-legal move goes from one square of the board to another.
pub proof fn lemma_move_squares(p: Position, m: Move)
    requires
        p.wf(),
        p.pseudo_legal(m),
    ensures
        0 <= m.spec_from() < 64,
        0 <= m.spec_to() < 64,
        0 <= m.spec_flags() < 16,
        m.spec_from() != m.spec_to(),
        p.squares[m.spec_from()] matches Some(pc) && pc.white == p.white_to_move,
        m.spec_flags() >= 8 ==> p.squares[m.spec_from()].unwrap().kind == BBPiece::Pawn,
        m.spec_flags() == 5 ==> p.squares[m.spec_from()].unwrap().kind == BBPiece::Pawn,
        (m.spec_flags() == 2 || m.spec_flags() == 3) ==> p.squares[m.spec_from()].unwrap().kind
            == BBPiece::King,
        m.spec_flags() != 6 && m.spec_flags() != 7,
        m.spec_flags() != 5 ==> (m.spec_is_capture() <==> p.squares[m.spec_to()] is Some),
        p.squares[m.spec_to()] matches Some(q) ==> q.white != p.white_to_move,
        m.spec_flags() == 5 ==> p.ep == Some(m.spec_to() as usize) && p.pawn_ok(
            m.spec_from(),
            m.spec_to(),
            5,
        ),
        (m.spec_flags() == 2 || m.spec_flags() == 3) ==> p.castle_ok(
            m.spec_from(),
            m.spec_to(),
            m.spec_flags(),
        ),
        m.spec_flags() == 1 ==> p.squares[m.spec_from()].unwrap().kind == BBPiece::Pawn
            && p.pawn_ok(m.spec_from(), m.spec_to(), 1),
{
    reveal(Position::pseudo_legal);
    m.lemma_parts();
}

/// Taking a move back restores the squares.
proof fn lemma_squares_round_trip(p: Position, m: Move)
    requires
        p.wf(),
        p.pseudo_legal(m),
    ensures
        undo_squares(
            make_squares(p.squares, p.white_to_move, m.spec_from(), m.spec_to(), m.spec_flags()),
            p.white_to_move,
            m.spec_from(),
            m.spec_to(),
            m.spec_flags(),
            p.squares[m.spec_to()],
        ) == p.squares,
{
    lemma_move_squares(p, m);
    let from = m.spec_from();
    let to = m.spec_to();
    let flags = m.spec_flags();
    let made = make_squares(p.squares, p.white_to_move, from, to, flags);
    let back = undo_squares(made, p.white_to_move, from, to, flags, p.squares[to]);
    assert(back.len() == 64);
    assert forall|s: int| 0 <= s < 64 implies back[s] == p.squares[s] by {}
    assert(back =~= p.squares);
}

/// Make/unmake round trip: taking back a pseudo-legal move that was just
/// made gives the position from before it, with its hashes, castling
/// rights, en-passant square, clocks and stacks.
pub proof fn lemma_make_undo(p: Position, m: Move)
    requires
        p.wf(),
        p.pseudo_legal(m),
    ensures
        p.make(m).undo() == p,
{
    reveal(Position::make);
    reveal(Position::undo);
    lemma_move_squares(p, m);
    lemma_squares_round_trip(p, m);
    let q = p.make(m);
    let r = q.undo();
    assert(q.moves.last() == m);
    assert(q.states.last() == p.record());
    assert(q.hashes.last() == p.hash);
    assert(q.moves.drop_last() =~= p.moves);
    assert(q.states.drop_last() =~= p.states);
    assert(q.hashes.drop_last() =~= p.hashes);
    assert(rights_of_mask(castling_mask(p.castling)) =~= p.castling);
    if m.spec_is_capture() {
        let t = p.taken_by(m).unwrap();
        assert(q.captures.last() == t);
        assert(q.captures.drop_last() =~= p.captures);
        if m.spec_flags() != 5 {
            let taken = p.squares[m.spec_to()].unwrap();
            assert(Some(Piece { white: t.0 == BBPiece::White, kind: t.1 }) == p.squares[m.spec_to()]);
        }
    } else {
        assert(p.squares[m.spec_to()] is None);
    }
    assert(r.squares == p.squares);
    assert(r.castling == p.castling);
    assert(r.captures == p.captures);
}

/// A pseudo-legal move keeps a position well formed: the pieces stay
/// proper, the new en-passant square is consistent, no castling right
/// outlives its rook, and the hashes are those of the new position.
pub proof fn lemma_make_wf(p: Position, m: Move)
    requires
        p.wf(),
        p.pseudo_legal(m),
    ensures
        p.make(m).wf(),
        p.make(m).undoable(),
{
    reveal(Position::make);
    reveal(Position::undo);
    lemma_move_squares(p, m);
    lemma_make_undo(p, m);
    let q = p.make(m);
    let from = m.spec_from();
    let to = m.spec_to();
    assert forall|s: int| 0 <= s < 64 implies (#[trigger] q.squares[s] matches Some(pc)
        ==> pc.kind.is_kind()) by {
        assert(p.squares[s] matches Some(pc) ==> pc.kind.is_kind());
        assert(p.squares[from] matches Some(pc) ==> pc.kind.is_kind());
    }
    assert(q.ep_ok());
    assert(q.rooks_home());
}

/// Where the kings of one colour stand after a move that takes no king.
proof fn lemma_king_squares(p: Position, m: Move, white: bool, j: int)
    requires
        p.wf(),
        p.pseudo_legal(m),
        !p.takes_king(m),
        0 <= j < 64,
    ensures
        p.make(m).holds(j, white, BBPiece::King) == (if j == m.spec_to() {
            p.holds(m.spec_from(), white, BBPiece::King)
        } else {
            j != m.spec_from() && p.holds(j, white, BBPiece::King)
        }),
{
    reveal(Position::make);
    reveal(Position::undo);
    lemma_move_squares(p, m);
    let from = m.spec_from();
    let to = m.spec_to();
    let flags = m.spec_flags();
    let made = make_squares(p.squares, p.white_to_move, from, to, flags);
    assert(p.make(m).squares == made);
    if flags == 5 {
        assert(p.ep == Some(to as usize));
    } else if flags == 2 || flags == 3 {
        assert(p.castle_ok(from, to, flags));
    } else {
    }
}

/// A move that takes no king leaves a side with exactly one king.
proof fn lemma_one_king_kept(p: Position, m: Move, white: bool)
    requires
        p.wf(),
        p.one_king(white),
        p.pseudo_legal(m),
        !p.takes_king(m),
    ensures
        p.make(m).one_king(white),
{
    reveal(Position::make);
    reveal(Position::undo);
    lemma_move_squares(p, m);
    let q = p.make(m);
    let from = m.spec_from();
    let to = m.spec_to();
    let k = choose|k: int|
        0 <= k < 64 && #[trigger] p.holds(k, white, BBPiece::King) && forall|j: int|
            0 <= j < 64 && j != k ==> !#[trigger] p.holds(j, white, BBPiece::King);
    let k2 = if k == from {
        to
    } else {
        k
    };
    lemma_king_squares(p, m, white, k2);
    assert(q.holds(k2, white, BBPiece::King));
    assert forall|j: int| 0 <= j < 64 && j != k2 implies !#[trigger] q.holds(
        j,
        white,
        BBPiece::King,
    ) by {
        lemma_king_squares(p, m, white, j);
        if j == to {
            assert(!p.holds(from, white, BBPiece::King));
        } else {
            assert(j == from || !p.holds(j, white, BBPiece::King));
        }
    }
}

/// A move that takes no king leaves each side with exactly one king, and
/// leaves a castling right only to a king on its home square.
pub proof fn lemma_make_kings(p: Position, m: Move)
    requires
        p.wf(),
        p.kings_ok(),
        p.pseudo_legal(m),
        !p.takes_king(m),
    ensures
        p.make(m).kings_ok(),
{
    reveal(Position::make);
    reveal(Position::undo);
    lemma_move_squares(p, m);
    lemma_one_king_kept(p, m, true);
    lemma_one_king_kept(p, m, false);
    let q = p.make(m);
    if q.castling[0] || q.castling[1] {
        assert(p.holds(4, true, BBPiece::King));
        lemma_king_squares(p, m, true, 4);
    }
    if q.castling[2] || q.castling[3] {
        assert(p.holds(60, false, BBPiece::King));
        lemma_king_squares(p, m, false, 60);
    }
}

/// A null move taken back gives the position from before it.
pub proof fn lemma_null_round_trip(p: Position)
    requires
        p.wf(),
    ensures
        p.make_null().undo_null() == p,
        p.make_null().wf(),
        p.make_null().null_undoable(),
{
    let q = p.make_null();
    assert(q.states.drop_last() =~= p.states);
    assert(q.hashes.drop_last() =~= p.hashes);
    assert(q.states.last() == p.record());
}

/// Promotion completeness: of the moves of a pawn that stands one step
/// from the last rank, those to the square ahead are pseudo-legal exactly
/// when that square is empty and the flag is one of the four quiet
/// promotions, and those to a square diagonally ahead exactly when an
/// enemy piece stands there and the flag is one of the four capturing
/// promotions. So a generator that lists the pseudo-legal moves once each
/// lists four moves for each such target, and none for a target that is
/// not open to the pawn.
pub proof fn lemma_promotion_complete(p: Position, m: Move)
    requires
        p.wf(),
        p.holds(m.spec_from(), p.white_to_move, BBPiece::Pawn),
        if p.white_to_move {
            48 <= m.spec_from() < 56
        } else {
            8 <= m.spec_from() < 16
        },
    ensures
        ({
            let from = m.spec_from();
            let to = m.spec_to();
            let white = p.white_to_move;
            let ahead = if white {
                from + 8
            } else {
                from - 8
            };
            let towards_a = if white {
                from + 7
            } else {
                from - 9
            };
            let towards_h = if white {
                from + 9
            } else {
                from - 7
            };
            &&& to == ahead ==> (p.pseudo_legal(m) <==> p.squares[to] is None && 8
                <= m.spec_flags() <= 11)
            &&& (to == towards_a && from % 8 != 0) || (to == towards_h && from % 8 != 7) ==> (
            p.pseudo_legal(m) <==> (p.squares[to] matches Some(q) && q.white != white) && 12
                <= m.spec_flags() <= 15)
            &&& p.pseudo_legal(m) ==> to == ahead || (to == towards_a && from % 8 != 0) || (to
                == towards_h && from % 8 != 7)
        }),
{
    reveal(Position::pseudo_legal);
    m.lemma_parts();
}

} // verus!
