//! Making a move on the board and taking it back.

use vstd::prelude::*;
use crate::square::BBPiece;
use crate::moves::Move;
use crate::board::{Board, castling_rights_to_bits, castling_rights_from_bits};
use crate::position::{Position, Piece, StateRecord, make_squares, undo_squares};
use crate::laws::{lemma_move_squares, lemma_make_wf, lemma_make_kings, lemma_null_round_trip};

verus! {

/// The castling rights after a move of `mover` from `from` to a square
/// that held `target`.
fn rights_after(
    rights: [bool; 4],
    white: bool,
    mover: Piece,
    target: Option<Piece>,
    from: usize,
    to: usize,
) -> (r: [bool; 4])
    ensures
        r@ == seq![
            rights[0] && !(mover.kind == BBPiece::King && white) && !(mover.kind == BBPiece::Rook
                && white && from == 7) && !((target matches Some(q) && q.kind == BBPiece::Rook)
                && to == 7),
            rights[1] && !(mover.kind == BBPiece::King && white) && !(mover.kind == BBPiece::Rook
                && white && from == 0) && !((target matches Some(q) && q.kind == BBPiece::Rook)
                && to == 0),
            rights[2] && !(mover.kind == BBPiece::King && !white) && !(mover.kind == BBPiece::Rook
                && !white && from == 63) && !((target matches Some(q) && q.kind == BBPiece::Rook)
                && to == 63),
            rights[3] && !(mover.kind == BBPiece::King && !white) && !(mover.kind == BBPiece::Rook
                && !white && from == 56) && !((target matches Some(q) && q.kind == BBPiece::Rook)
                && to == 56),
        ],
{
    let mut r = rights;
    if mover.kind == BBPiece::King {
        if white {
            r[0] = false;
            r[1] = false;
        } else {
            r[2] = false;
            r[3] = false;
        }
    }
    if mover.kind == BBPiece::Rook {
        if white {
            if from == 0 {
                r[1] = false;
            } else if from == 7 {
                r[0] = false;
            }
        } else {
            if from == 56 {
                r[3] = false;
            } else if from == 63 {
                r[2] = false;
            }
        }
    }
    let rook_taken = match target {
        Some(q) => q.kind == BBPiece::Rook,
        None => false,
    };
    if rook_taken {
        if to == 0 {
            r[1] = false;
        } else if to == 7 {
            r[0] = false;
        } else if to == 56 {
            r[3] = false;
        } else if to == 63 {
            r[2] = false;
        }
    }
    assert(r@ =~= seq![
        rights[0] && !(mover.kind == BBPiece::King && white) && !(mover.kind == BBPiece::Rook
            && white && from == 7) && !((target matches Some(q) && q.kind == BBPiece::Rook) && to
            == 7),
        rights[1] && !(mover.kind == BBPiece::King && white) && !(mover.kind == BBPiece::Rook
            && white && from == 0) && !((target matches Some(q) && q.kind == BBPiece::Rook) && to
            == 0),
        rights[2] && !(mover.kind == BBPiece::King && !white) && !(mover.kind == BBPiece::Rook
            && !white && from == 63) && !((target matches Some(q) && q.kind == BBPiece::Rook)
            && to == 63),
        rights[3] && !(mover.kind == BBPiece::King && !white) && !(mover.kind == BBPiece::Rook
            && !white && from == 56) && !((target matches Some(q) && q.kind == BBPiece::Rook)
            && to == 56),
    ]);
    r
}

/// The kind that a promotion flag promotes to.
fn promotion_kind(flags: u8) -> (r: BBPiece)
    requires
        8 <= flags < 16,
    ensures
        r == crate::position::promo_kind(flags as int),
        r.is_kind(),
{
    let low: u8 = flags % 4;
    if low == 0 {
        BBPiece::Knight
    } else if low == 1 {
        BBPiece::Bishop
    } else if low == 2 {
        BBPiece::Rook
    } else {
        BBPiece::Queen
    }
}

/// Where the rook stands before castling to `to`.
fn rook_origin(to: usize) -> (r: usize)
    ensures
        r == crate::position::castle_rook_from(to as int),
        r < 64,
{
    if to == 6 {
        7
    } else if to == 2 {
        0
    } else if to == 62 {
        63
    } else {
        56
    }
}

/// Where the rook stands after castling to `to`.
fn rook_target(to: usize) -> (r: usize)
    ensures
        r == crate::position::castle_rook_to(to as int),
        r < 64,
{
    if to == 6 {
        5
    } else if to == 2 {
        3
    } else if to == 62 {
        61
    } else {
        59
    }
}

/// Moves the mover from `from` to `to`, taking what stands there, and
/// promotes it if the flag says so.
fn move_mover(board: &mut Board, from: usize, to: usize, flags: u8) -> (taken: Option<Piece>)
    requires
        old(board).inv(),
        from < 64,
        to < 64,
        from != to,
        flags < 16,
        old(board)@.squares[from as int] is Some,
        old(board)@.squares[from as int].unwrap().white == old(board)@.white_to_move,
    ensures
        final(board).inv(),
        final(board).same_state(old(board)),
        taken == old(board)@.squares[to as int],
        final(board)@.squares == old(board)@.squares.update(from as int, None).update(
            to as int,
            Some(
                if flags >= 8 {
                    Piece {
                        white: old(board)@.white_to_move,
                        kind: crate::position::promo_kind(flags as int),
                    }
                } else {
                    old(board)@.squares[from as int].unwrap()
                },
            ),
        ),
{
    let ghost step0 = board@.squares;
    let white = board.move_color == 1;
    let target = board.piece_at(to);
    if target.is_some() {
        let _ = board.remove_piece(to);
    }
    let ghost step1 = board@.squares;
    assert(step1 =~= step0.update(to as int, None));
    let mover = board.remove_piece(from);
    let ghost step2 = board@.squares;
    assert(step2 =~= step0.update(to as int, None).update(from as int, None));
    let placed: BBPiece = if flags >= 8 {
        promotion_kind(flags)
    } else {
        mover.kind
    };
    board.put_piece(to, white, placed);
    proof {
        let pc = Piece { white: white, kind: placed };
        assert(board@.squares =~= step0.update(from as int, None).update(to as int, Some(pc)));
    }
    target
}

/// Moves the pieces of a pseudo-legal move, keeping the hashes up to date,
/// and returns what the move takes.
fn move_pieces(board: &mut Board, from: usize, to: usize, flags: u8) -> (taken: Option<
    (BBPiece, BBPiece),
>)
    requires
        old(board).inv(),
        old(board)@.wf(),
        old(board)@.pseudo_legal(Move::spec_parts(from as int, to as int, flags as int)),
        from < 64,
        to < 64,
        flags < 16,
    ensures
        final(board).inv(),
        final(board).same_state(old(board)),
        final(board)@.squares == make_squares(
            old(board)@.squares,
            old(board)@.white_to_move,
            from as int,
            to as int,
            flags as int,
        ),
        taken == old(board)@.taken_by(Move::spec_parts(from as int, to as int, flags as int)),
{
    let ghost p = board@;
    let ghost m = Move::spec_parts(from as int, to as int, flags as int);
    proof {
        Move::lemma_of_parts(from as int, to as int, flags as int);
        lemma_move_squares(p, m);
    }
    let white = board.move_color == 1;
    let target = move_mover(board, from, to, flags);
    let ghost step1 = board@.squares;
    let mut taken: Option<(BBPiece, BBPiece)> = match target {
        Some(t) => Some((BBPiece::of_side(t.white), t.kind)),
        None => None,
    };
    if flags == 5 {
        let victim: usize = if white {
            to - 8
        } else {
            to + 8
        };
        assert(p.ep == Some(to));
        assert(step1[victim as int] == p.squares[victim as int]);
        let _ = board.remove_piece(victim);
        taken = Some((BBPiece::of_side(!white), BBPiece::Pawn));
    } else if flags == 2 || flags == 3 {
        let rook_from = rook_origin(to);
        let rook_to = rook_target(to);
        assert(p.castle_ok(from as int, to as int, flags as int));
        assert(step1[rook_from as int] == p.squares[rook_from as int]);
        assert(step1[rook_to as int] == p.squares[rook_to as int]);
        let _ = board.remove_piece(rook_from);
        board.put_piece(rook_to, white, BBPiece::Rook);
    }
    taken
}

/// Makes a pseudo-legal move: moves the pieces, updates castling rights,
/// en-passant square, side to move and clocks, keeps both hashes up to
/// date and pushes what `undo_move` needs on the stacks. The move buffer
/// is left alone.
///
/// The board stays well formed: the bitboards agree and both hashes are
/// the hashes of the new position. Unless the move takes a king, each
/// side that had exactly one king has exactly one king.
#[verifier::rlimit(40)]
pub fn make_move(board: &mut Board, _move: &Move) -> (r: Result<(), String>)
    requires
        old(board).wf(),
        old(board)@.pseudo_legal(*_move),
    ensures
        r is Ok,
        final(board)@ == old(board)@.make(*_move),
        final(board).wf(),
        final(board)@.undoable(),
        final(board).moves == old(board).moves,
        old(board)@.kings_ok() && !old(board)@.takes_king(*_move) ==> final(board)@.kings_ok(),
{
    proof {
        reveal(Position::make);
        reveal(Position::undo);
    }
    let ghost p = board@;
    proof {
        _move.lemma_parts();
        lemma_move_squares(p, *_move);
        lemma_make_wf(p, *_move);
        if p.kings_ok() && !p.takes_king(*_move) {
            lemma_make_kings(p, *_move);
        }
    }
    let from = _move.from_square() as usize;
    let to = _move.to_square() as usize;
    let flags = _move.flags();
    let white = board.move_color == 1;
    let mover = board.piece_at(from).unwrap();
    let target = board.piece_at(to);
    let rights = rights_after(board.castling_rights, white, mover, target, from, to);
    let record = StateRecord {
        castling: castling_rights_to_bits(&board.castling_rights) as u8,
        ep: board.en_passant,
        halfmove: board.halfmove_clock,
        fullmove: board.fullmove_number,
        pawn_hash: board.pawn_hash,
    };
    let hash = board.zobrist_hash;
    let taken = move_pieces(board, from, to, flags);
    board.state_history.push(record);
    board.position_history.push(hash);
    if let Some(t) = taken {
        board.captures_history.push(t);
    }
    board.set_castling(rights);
    board.flip_side();
    if !white && board.fullmove_number < 65535 {
        board.fullmove_number = board.fullmove_number + 1;
    }
    let ep: Option<usize> = if flags == 1 {
        Some(
            if white {
                from + 8
            } else {
                from - 8
            },
        )
    } else {
        None
    };
    board.set_en_passant(ep);
    if _move.is_capture() || mover.kind == BBPiece::Pawn {
        board.halfmove_clock = 0;
    } else if board.halfmove_clock < 255 {
        board.halfmove_clock = board.halfmove_clock + 1;
    }
    board.move_history.push(*_move);
    proof {
        let q = p.make(*_move);
        let b = board@;
        assert(b.squares == q.squares);
        assert(b.castling =~= q.castling);
        assert(b.captures == q.captures);
        assert(b.white_to_move == q.white_to_move);
        assert(b.ep == q.ep);
        assert(b.halfmove == q.halfmove);
        assert(b.fullmove == q.fullmove);
        assert(b.states == q.states);
        assert(b.moves == q.moves);
        assert(b.hashes == q.hashes);
        assert(b.hash == q.hash);
        assert(b.pawn_hash == q.pawn_hash);
        assert(b == q);
    }
    Ok(())
}

/// Puts the pieces back where they stood before `mv`, which the side
/// `white` made; the hashes are left to the caller.
fn undo_pieces(board: &mut Board, mv: Move, white: bool) -> (taken: Option<Piece>)
    requires
        old(board).bitboards_ok(),
        old(board)@.captures.len() > 0 || !mv.spec_is_capture(),
        mv.spec_from() != mv.spec_to(),
        mv.spec_flags() != 6 && mv.spec_flags() != 7,
        old(board)@.squares[mv.spec_to()] is Some,
        old(board)@.squares[mv.spec_to()].unwrap().white == white,
        old(board)@.squares[mv.spec_from()] is None,
        mv.spec_is_capture() ==> old(board)@.captures.last().1.is_kind(),
        mv.spec_flags() == 5 ==> 0 <= crate::position::ep_victim(mv.spec_to(), white) < 64 && old(board)@.squares[crate::position::ep_victim(mv.spec_to(), white)] is None
            && crate::position::ep_victim(mv.spec_to(), white) != mv.spec_from(),
        (mv.spec_flags() == 2 || mv.spec_flags() == 3) ==> (mv.spec_to() == 6 || mv.spec_to() == 2
            || mv.spec_to() == 62 || mv.spec_to() == 58) && (mv.spec_from() == 4 || mv.spec_from()
            == 60) && old(board)@.squares[crate::position::castle_rook_to(mv.spec_to())] is Some
            && old(board)@.squares[crate::position::castle_rook_from(mv.spec_to())] is None,
    ensures
        final(board).bitboards_ok(),
        final(board).zobrist_hash == old(board).zobrist_hash,
        final(board).pawn_hash == old(board).pawn_hash,
        final(board).move_color == old(board).move_color,
        final(board).castling_rights == old(board).castling_rights,
        final(board).en_passant == old(board).en_passant,
        final(board).halfmove_clock == old(board).halfmove_clock,
        final(board).fullmove_number == old(board).fullmove_number,
        final(board).moves == old(board).moves,
        final(board).state_history == old(board).state_history,
        final(board).move_history == old(board).move_history,
        final(board).position_history == old(board).position_history,
        final(board)@.captures == (if mv.spec_is_capture() {
            old(board)@.captures.drop_last()
        } else {
            old(board)@.captures
        }),
        taken == (if mv.spec_is_capture() {
            Some(
                Piece {
                    white: old(board)@.captures.last().0 == BBPiece::White,
                    kind: old(board)@.captures.last().1,
                },
            )
        } else {
            None
        }),
        final(board)@.squares == undo_squares(
            old(board)@.squares,
            white,
            mv.spec_from(),
            mv.spec_to(),
            mv.spec_flags(),
            taken,
        ),
{
    let ghost step0 = board@.squares;
    proof {
        mv.lemma_parts();
    }
    let from = mv.from_square() as usize;
    let to = mv.to_square() as usize;
    let flags = mv.flags();
    let placed = board.raw_remove(to);
    let ghost step1 = board@.squares;
    let mover_kind: BBPiece = if flags >= 8 {
        BBPiece::Pawn
    } else {
        placed.kind
    };
    board.raw_put(from, white, mover_kind);
    let ghost step2 = board@.squares;
    assert(step2 =~= step0.update(to as int, None).update(
        from as int,
        Some(Piece { white: white, kind: mover_kind }),
    ));
    if flags == 2 || flags == 3 {
        let rook_from = rook_origin(to);
        let rook_to = rook_target(to);
        assert(step2[rook_to as int] == step0[rook_to as int]);
        assert(step2[rook_from as int] == step0[rook_from as int]);
        let _ = board.raw_remove(rook_to);
        board.raw_put(rook_from, white, BBPiece::Rook);
    }
    let ghost step3 = board@.squares;
    let mut result: Option<Piece> = None;
    if mv.is_capture() {
        let taken = board.captures_history.pop().unwrap();
        let piece = Piece { white: taken.0 == BBPiece::White, kind: taken.1 };
        result = Some(piece);
        if flags == 5 {
            let victim: usize = if white {
                to - 8
            } else {
                to + 8
            };
            assert(step3[victim as int] == step0[victim as int]);
            board.raw_put(victim, !white, BBPiece::Pawn);
        } else {
            assert(step3[to as int] is None);
            board.raw_put(to, piece.white, piece.kind);
        }
    }
    proof {
        assert(board@.squares =~= undo_squares(
            step0,
            white,
            from as int,
            to as int,
            flags as int,
            result,
        ));
    }
    result
}

/// Takes back the last move: the pieces go back, the piece that was taken
/// returns, and castling rights, en-passant square, clocks and hashes are
/// restored from the stacks.
pub fn undo_move(board: &mut Board) -> (r: Result<(), String>)
    requires
        old(board).wf(),
        old(board)@.undoable(),
    ensures
        r is Ok,
        final(board)@ == old(board)@.undo(),
        final(board).wf(),
        final(board).moves == old(board).moves,
{
    proof {
        reveal(Position::make);
        reveal(Position::undo);
    }
    let ghost q = board@;
    let ghost p = q.undo();
    let ghost m = q.moves.last();
    proof {
        m.lemma_parts();
        lemma_move_squares(p, m);
        assert(q == p.make(m));
    }
    let mv = board.move_history.pop().unwrap();
    let hash = board.position_history.pop().unwrap();
    let rec = board.state_history.pop().unwrap();
    let from = mv.from_square() as usize;
    let to = mv.to_square() as usize;
    let flags = mv.flags();
    let white = board.move_color != 1;
    let _ = undo_pieces(board, mv, white);
    board.move_color = -board.move_color;
    board.castling_rights = castling_rights_from_bits(rec.castling);
    board.en_passant = rec.ep;
    board.halfmove_clock = rec.halfmove;
    board.fullmove_number = rec.fullmove;
    board.pawn_hash = rec.pawn_hash;
    board.zobrist_hash = hash;
    proof {
        assert(board@.squares =~= p.squares);
        assert(board@.castling =~= p.castling);
        assert(board@ == p);
    }
    Ok(())
}

/// Passes the turn: the other side is to move and no en passant is
/// possible. A state record and the hash are pushed for `undo_null_move`.
pub fn make_null_move(board: &mut Board)
    requires
        old(board).wf(),
    ensures
        final(board)@ == old(board)@.make_null(),
        final(board).wf(),
        final(board)@.null_undoable(),
        final(board).moves == old(board).moves,
{
    let ghost p = board@;
    proof {
        lemma_null_round_trip(p);
    }
    board.state_history.push(
        StateRecord {
            castling: castling_rights_to_bits(&board.castling_rights) as u8,
            ep: board.en_passant,
            halfmove: board.halfmove_clock,
            fullmove: board.fullmove_number,
            pawn_hash: board.pawn_hash,
        },
    );
    board.position_history.push(board.zobrist_hash);
    board.flip_side();
    board.set_en_passant(None);
    proof {
        assert(board@ == p.make_null());
    }
}

/// Takes back a null move.
pub fn undo_null_move(board: &mut Board)
    requires
        old(board).wf(),
        old(board)@.null_undoable(),
    ensures
        final(board)@ == old(board)@.undo_null(),
        final(board).wf(),
        final(board).moves == old(board).moves,
{
    let ghost q = board@;
    let ghost p = q.undo_null();
    let hash = board.position_history.pop().unwrap();
    let rec = board.state_history.pop().unwrap();
    board.move_color = -board.move_color;
    board.en_passant = rec.ep;
    board.zobrist_hash = hash;
    proof {
        assert(board@ == p);
    }
}

} // verus!
