//! The executable board: eight bitboards, the state of play, the two
//! hashes, the move buffer and the undo stacks.

use vstd::prelude::*;
use crate::bits::{member, lemma_bit_ops, lemma_bits_equal, bb_get, bb_set};
use crate::square::BBPiece;
use crate::moves::{Move, MoveStack};
use crate::position::{
    Position,
    Piece,
    StateRecord,
    castling_mask,
    hash_below,
    state_hash,
    ep_hash,
    side_hash,
    lemma_hash_update,
    lemma_hash_regroup,
    lemma_state_regroup,
    lemma_bb_of,
    lemma_hash_empty,
};
use crate::zobrist::{
    piece_key,
    castling_key,
    ep_key,
    side_key,
    spec_castling_key,
    lemma_xor_cancel,
};

verus! {

/// A chess position as the engine holds it.
///
/// Slot 0 and 1 of `bitboards` are the squares White and Black occupy,
/// slots 2 to 7 the squares of pawns, knights, bishops, rooks, queens and
/// kings. `move_color` is 1 when White is to move and -1 when Black is.
#[derive(Clone, Debug, PartialEq, Eq)]
pub struct Board {
    pub bitboards: [u64; 8],
    pub move_color: i8,
    pub castling_rights: [bool; 4],
    pub en_passant: Option<usize>,
    pub halfmove_clock: u8,
    pub fullmove_number: u16,
    pub zobrist_hash: u64,
    pub pawn_hash: u64,
    pub moves: MoveStack,
    pub state_history: Vec<StateRecord>,
    pub move_history: Vec<Move>,
    pub captures_history: Vec<(BBPiece, BBPiece)>,
    pub position_history: Vec<u64>,
}

/// Whether every bitboard in `pieces` holds `square`.
pub open spec fn all_hold(bitboards: [u64; 8], pieces: Seq<BBPiece>, square: int) -> bool {
    forall|i: int| 0 <= i < pieces.len() ==> member(bitboards[#[trigger] pieces[i].spec_idx()], square)
}

/// Whether some bitboard in `pieces` holds `square`.
pub open spec fn any_holds(bitboards: [u64; 8], pieces: Seq<BBPiece>, square: int) -> bool {
    exists|i: int| 0 <= i < pieces.len() && member(bitboards[#[trigger] pieces[i].spec_idx()], square)
}

/// Whether `pieces` names the bitboard in slot `k`.
pub open spec fn names_slot(pieces: Seq<BBPiece>, k: int) -> bool {
    exists|i: int| 0 <= i < pieces.len() && #[trigger] pieces[i].spec_idx() == k
}

/// The kind of the piece on `s`, read from the six kind bitboards.
pub open spec fn kind_on(bb: [u64; 8], s: int) -> BBPiece {
    if member(bb[2], s) {
        BBPiece::Pawn
    } else if member(bb[3], s) {
        BBPiece::Knight
    } else if member(bb[4], s) {
        BBPiece::Bishop
    } else if member(bb[5], s) {
        BBPiece::Rook
    } else if member(bb[6], s) {
        BBPiece::Queen
    } else {
        BBPiece::King
    }
}

/// What stands on `s`.
pub open spec fn piece_on(bb: [u64; 8], s: int) -> Option<Piece> {
    if member(bb[0], s) {
        Some(Piece { white: true, kind: kind_on(bb, s) })
    } else if member(bb[1], s) {
        Some(Piece { white: false, kind: kind_on(bb, s) })
    } else {
        None
    }
}

/// In how many colour bitboards `s` lies.
pub open spec fn color_count(bb: [u64; 8], s: int) -> int {
    (if member(bb[0], s) { 1int } else { 0int }) + (if member(bb[1], s) { 1int } else { 0int })
}

/// In how many kind bitboards `s` lies.
pub open spec fn kind_count(bb: [u64; 8], s: int) -> int {
    (if member(bb[2], s) { 1int } else { 0int }) + (if member(bb[3], s) { 1int } else { 0int }) + (
    if member(bb[4], s) {
        1int
    } else {
        0int
    }) + (if member(bb[5], s) { 1int } else { 0int }) + (if member(bb[6], s) {
        1int
    } else {
        0int
    }) + (if member(bb[7], s) { 1int } else { 0int })
}

/// The bitboard invariants: no square is both White's and Black's, no
/// square holds two kinds, and a square has a colour exactly when it has a
/// kind. So the union of the kinds is the union of the colours.
pub open spec fn boards_ok(bb: [u64; 8]) -> bool {
    forall|s: int| 0 <= s < 64 ==> #[trigger] color_count(bb, s) == kind_count(bb, s) && kind_count(bb, s) <= 1
}

/// What stands on each of the 64 squares.
pub open spec fn squares_of(bb: [u64; 8]) -> Seq<Option<Piece>> {
    Seq::new(64, |s: int| piece_on(bb, s))
}

impl Board {
    /// What stands on `s`.
    pub open spec fn spec_piece_at(&self, s: int) -> Option<Piece> {
        piece_on(self.bitboards, s)
    }

    /// The bitboard invariants hold of this board.
    pub open spec fn bitboards_ok(&self) -> bool {
        boards_ok(self.bitboards)
    }

    /// The position this board stands for.
    pub open spec fn view(&self) -> Position {
        Position {
            squares: squares_of(self.bitboards),
            white_to_move: self.move_color == 1,
            castling: self.castling_rights@,
            ep: self.en_passant,
            halfmove: self.halfmove_clock,
            fullmove: self.fullmove_number,
            hash: self.zobrist_hash,
            pawn_hash: self.pawn_hash,
            states: self.state_history@,
            moves: self.move_history@,
            captures: self.captures_history@,
            hashes: self.position_history@,
        }
    }

    /// What holds of a board even in the middle of a move: the bitboards
    /// agree, the side to move is a side, and both hashes are the hashes of
    /// the position.
    pub open spec fn inv(&self) -> bool {
        &&& self.bitboards_ok()
        &&& (self.move_color == 1 || self.move_color == -1)
        &&& self.moves.wf()
        &&& (self.en_passant matches Some(e) ==> e < 64)
        &&& self.zobrist_hash == self@.spec_hash()
        &&& self.pawn_hash == self@.spec_pawn_hash()
    }

    /// The invariant of a board between moves.
    pub open spec fn wf(&self) -> bool {
        self.inv() && self@.wf()
    }

    /// Whether two boards agree on everything but pieces and hashes.
    pub open spec fn same_state(&self, other: &Board) -> bool {
        &&& self.move_color == other.move_color
        &&& self.castling_rights == other.castling_rights
        &&& self.en_passant == other.en_passant
        &&& self.halfmove_clock == other.halfmove_clock
        &&& self.fullmove_number == other.fullmove_number
        &&& self.moves == other.moves
        &&& self.state_history == other.state_history
        &&& self.move_history == other.move_history
        &&& self.captures_history == other.captures_history
        &&& self.position_history == other.position_history
    }

    /// Whether two boards agree on everything but the state that a move
    /// changes besides the pieces: side, castling rights, en-passant square
    /// and the hash.
    pub open spec fn same_pieces(&self, other: &Board) -> bool {
        &&& self.bitboards == other.bitboards
        &&& self.pawn_hash == other.pawn_hash
        &&& self.halfmove_clock == other.halfmove_clock
        &&& self.fullmove_number == other.fullmove_number
        &&& self.moves == other.moves
        &&& self.state_history == other.state_history
        &&& self.move_history == other.move_history
        &&& self.captures_history == other.captures_history
        &&& self.position_history == other.position_history
    }

    /// Whether two boards agree on everything but the move buffer.
    pub open spec fn same_position(&self, other: &Board) -> bool {
        &&& self@ == other@
        &&& self.bitboards == other.bitboards
        &&& self.move_color == other.move_color
        &&& self.castling_rights == other.castling_rights
    }

    /// Two boards in their invariant that stand for the same position
    /// agree on everything but the move buffer.
    pub proof fn lemma_restored(&self, other: &Board)
        requires
            self.inv(),
            other.inv(),
            self@ == other@,
        ensures
            self.same_position(other),
    {
        self.lemma_same_view(other);
        assert(self.castling_rights@ == other.castling_rights@);
        assert(self.castling_rights =~= other.castling_rights);
    }

    /// The union of the colour bitboards is the occupancy of the position.
    pub proof fn lemma_occupancy(&self)
        ensures
            self.bitboards[0] | self.bitboards[1] == self@.occupancy(),
    {
        lemma_bit_ops();
        let p = self@;
        let f = |s: int| p.squares[s] is Some;
        lemma_bb_of(f, 64);
        let o = self.bitboards[0] | self.bitboards[1];
        assert forall|s: int| 0 <= s < 64 implies member(o, s) == member(p.occupancy(), s) by {
            assert(member(o, s) == (member(self.bitboards[0], s) || member(self.bitboards[1], s)));
            assert(p.squares[s] == self.spec_piece_at(s));
            assert(member(crate::position::bb_of(f, 64), s) == f(s));
        }
        lemma_bits_equal(o, p.occupancy());
    }

    /// Two boards in their invariant that stand for the same position have
    /// the same bitboards.
    pub proof fn lemma_same_view(&self, other: &Board)
        requires
            self.bitboards_ok(),
            other.bitboards_ok(),
            self@.squares == other@.squares,
        ensures
            self.bitboards == other.bitboards,
    {
        assert forall|k: int| 0 <= k < 8 implies self.bitboards[k] == other.bitboards[k] by {
            assert forall|s: int| 0 <= s < 64 implies member(self.bitboards[k], s) == member(
                other.bitboards[k],
                s,
            ) by {
                assert(self@.squares[s] == self.spec_piece_at(s));
                assert(other@.squares[s] == other.spec_piece_at(s));
                assert(color_count(self.bitboards, s) == kind_count(self.bitboards, s));
                assert(color_count(other.bitboards, s) == kind_count(other.bitboards, s));
            }
            lemma_bits_equal(self.bitboards[k], other.bitboards[k]);
        }
        assert(self.bitboards@ =~= other.bitboards@);
    }

    /// The board without pieces: White to move, no castling rights, no
    /// en-passant square, the clocks at 0 and 1, empty stacks.
    pub fn empty() -> (r: Self)
        ensures
            r.inv(),
            r@.wf(),
            forall|s: int| 0 <= s < 64 ==> (#[trigger] r@.squares[s]) is None,
            r@.white_to_move,
            r@.castling == seq![false, false, false, false],
            r@.ep is None,
            r@.halfmove == 0,
            r@.fullmove == 1,
            r@.states.len() == 0,
            r@.moves.len() == 0,
            r@.captures.len() == 0,
            r@.hashes.len() == 0,
            r.moves@.len() == 0,
    {
        let rights = [false, false, false, false];
        let r = Board {
            bitboards: [0u64; 8],
            move_color: 1,
            castling_rights: rights,
            en_passant: None,
            halfmove_clock: 0,
            fullmove_number: 1,
            zobrist_hash: castling_key(castling_rights_to_bits(&rights)),
            pawn_hash: 0,
            moves: MoveStack::new(),
            state_history: Vec::new(),
            move_history: Vec::new(),
            captures_history: Vec::new(),
            position_history: Vec::new(),
        };
        proof {
            lemma_bit_ops();
            assert forall|s: int| 0 <= s < 64 implies (#[trigger] r@.squares[s]) is None by {
                assert(r@.squares[s] == piece_on(r.bitboards, s));
            }
            assert forall|s: int| 0 <= s < 64 implies #[trigger] color_count(r.bitboards, s)
                == kind_count(r.bitboards, s) && kind_count(r.bitboards, s) <= 1 by {}
            lemma_hash_empty(r@.squares, 64, false);
            lemma_hash_empty(r@.squares, 64, true);
            let k = spec_castling_key(0);
            lemma_xor_cancel(k, 0, 0);
            lemma_xor_cancel(0, k, 0);
            assert(r@.castling =~= seq![false, false, false, false]);
        }
        r
    }

    /// The hash of the position, computed from nothing but the position.
    pub fn compute_hash(&self) -> (r: u64)
        requires
            self.bitboards_ok(),
            self.move_color == 1 || self.move_color == -1,
            self.en_passant matches Some(e) ==> e < 64,
        ensures
            r == self@.spec_hash(),
    {
        let mut h: u64 = 0;
        let mut s: usize = 0;
        while s < 64
            invariant
                s <= 64,
                h == hash_below(self@.squares, s as int, false),
            decreases 64 - s,
        {
            let k: u64 = match self.piece_at(s) {
                Some(pc) => piece_key(pc.kind, pc.white, s),
                None => 0,
            };
            h = h ^ k;
            s += 1;
        }
        let c = castling_key(castling_rights_to_bits(&self.castling_rights));
        let e: u64 = match self.en_passant {
            Some(sq) => ep_key(sq % 8),
            None => 0,
        };
        let d: u64 = if self.move_color == 1 {
            0
        } else {
            side_key()
        };
        h ^ ((c ^ e) ^ d)
    }

    /// The hash of the pawns, computed from nothing but the position.
    pub fn compute_pawn_hash(&self) -> (r: u64)
        requires
            self.bitboards_ok(),
        ensures
            r == self@.spec_pawn_hash(),
    {
        let mut h: u64 = 0;
        let mut s: usize = 0;
        while s < 64
            invariant
                s <= 64,
                h == hash_below(self@.squares, s as int, true),
            decreases 64 - s,
        {
            let k: u64 = match self.piece_at(s) {
                Some(pc) => if pc.kind == BBPiece::Pawn {
                    piece_key(pc.kind, pc.white, s)
                } else {
                    0
                },
                None => 0,
            };
            h = h ^ k;
            s += 1;
        }
        h
    }

    /// Whether the en-passant square and the castling rights agree with
    /// the pieces.
    pub fn shape_ok(&self) -> (r: bool)
        requires
            self.en_passant matches Some(e) ==> e < 64,
        ensures
            r == (self@.ep_ok() && self@.rooks_home()),
    {
        let white = self.move_color == 1;
        let ep_ok = match self.en_passant {
            None => true,
            Some(e) => if white {
                40 <= e && e < 48 && self.piece_at(e).is_none() && self.piece_at(e - 8) == Some(
                    Piece { white: false, kind: BBPiece::Pawn },
                )
            } else {
                16 <= e && e < 24 && self.piece_at(e).is_none() && self.piece_at(e + 8) == Some(
                    Piece { white: true, kind: BBPiece::Pawn },
                )
            },
        };
        let white_rook = Some(Piece { white: true, kind: BBPiece::Rook });
        let black_rook = Some(Piece { white: false, kind: BBPiece::Rook });
        let rooks = (!self.castling_rights[0] || self.piece_at(7) == white_rook) && (
        !self.castling_rights[1] || self.piece_at(0) == white_rook) && (!self.castling_rights[2]
            || self.piece_at(63) == black_rook) && (!self.castling_rights[3] || self.piece_at(56)
            == black_rook);
        ep_ok && rooks
    }

    /// Whether `square` lies in every bitboard that `pieces` names.
    #[inline]
    pub fn get(&self, pieces: &[BBPiece], square: usize) -> (r: bool)
        requires
            square < 64,
        ensures
            r == all_hold(self.bitboards, pieces@, square as int),
    {
        let mut i: usize = 0;
        while i < pieces.len()
            invariant
                square < 64,
                i <= pieces@.len(),
                forall|j: int|
                    0 <= j < i ==> member(self.bitboards[#[trigger] pieces@[j].spec_idx()], square as int),
            decreases pieces@.len() - i,
        {
            if !bb_get(self.bitboards[pieces[i].idx()], square) {
                return false;
            }
            i += 1;
        }
        true
    }

    /// Puts `square` into every bitboard that `pieces` names, or takes it
    /// out of them. Nothing else changes: not the other bitboards, not the
    /// hashes.
    #[inline]
    pub fn set(&mut self, pieces: &[BBPiece], square: usize, value: bool)
        requires
            square < 64,
        ensures
            forall|k: int, s: int|
                0 <= k < 8 && 0 <= s < 64 ==> #[trigger] member(final(self).bitboards[k], s) == (if s
                    == square && names_slot(pieces@, k) {
                    value
                } else {
                    member(old(self).bitboards[k], s)
                }),
            final(self).same_state(old(self)),
            final(self).zobrist_hash == old(self).zobrist_hash,
            final(self).pawn_hash == old(self).pawn_hash,
    {
        let mut i: usize = 0;
        while i < pieces.len()
            invariant
                square < 64,
                i <= pieces@.len(),
                forall|k: int, s: int|
                    0 <= k < 8 && 0 <= s < 64 ==> #[trigger] member(self.bitboards[k], s) == (if s
                        == square && names_slot(pieces@.take(i as int), k) {
                        value
                    } else {
                        member(old(self).bitboards[k], s)
                    }),
                self.same_state(old(self)),
                self.zobrist_hash == old(self).zobrist_hash,
                self.pawn_hash == old(self).pawn_hash,
            decreases pieces@.len() - i,
        {
            let slot: usize = pieces[i].idx();
            let ghost before = self.bitboards;
            bb_set(&mut self.bitboards[slot], square, value);
            proof {
                let done = pieces@.take(i as int);
                let next = pieces@.take(i + 1);
                assert forall|k: int| 0 <= k < 8 implies names_slot(next, k) == (names_slot(done, k)
                    || k == slot) by {
                    if names_slot(done, k) {
                        let j = choose|j: int| 0 <= j < done.len() && #[trigger] done[j].spec_idx() == k;
                        assert(next[j].spec_idx() == k);
                    }
                    if k == slot {
                        assert(next[i as int].spec_idx() == k);
                    }
                    if names_slot(next, k) {
                        let j = choose|j: int| 0 <= j < next.len() && #[trigger] next[j].spec_idx() == k;
                        if j < i {
                            assert(done[j].spec_idx() == k);
                        }
                    }
                }
                assert forall|k: int, s: int| 0 <= k < 8 && 0 <= s < 64 implies #[trigger] member(
                    self.bitboards[k],
                    s,
                ) == (if s == square && names_slot(next, k) {
                    value
                } else {
                    member(old(self).bitboards[k], s)
                }) by {
                    if k != slot {
                        assert(self.bitboards[k] == before[k]);
                    }
                    assert(member(before[k], s) == (if s == square && names_slot(done, k) {
                        value
                    } else {
                        member(old(self).bitboards[k], s)
                    }));
                }
            }
            i += 1;
        }
        assert(pieces@.take(pieces@.len() as int) =~= pieces@);
    }

    /// Takes `from` out of every bitboard that `pieces` names and puts `to`
    /// into them.
    #[inline]
    pub fn move_piece(&mut self, pieces: &[BBPiece], from: usize, to: usize)
        requires
            from < 64,
            to < 64,
        ensures
            forall|k: int, s: int|
                0 <= k < 8 && 0 <= s < 64 ==> #[trigger] member(final(self).bitboards[k], s) == (
                if names_slot(pieces@, k) && s == to {
                    true
                } else if names_slot(pieces@, k) && s == from {
                    false
                } else {
                    member(old(self).bitboards[k], s)
                }),
            final(self).same_state(old(self)),
            final(self).zobrist_hash == old(self).zobrist_hash,
            final(self).pawn_hash == old(self).pawn_hash,
    {
        self.set(pieces, from, false);
        self.set(pieces, to, true);
    }

    /// The intersection of the bitboards that `pieces` names when
    /// `exclusive` is set, their union when it is not; the empty set when
    /// `pieces` names none.
    #[inline]
    pub fn combined(&self, pieces: &[BBPiece], exclusive: bool) -> (r: u64)
        ensures
            forall|s: int|
                0 <= s < 64 ==> #[trigger] member(r, s) == (pieces@.len() > 0 && if exclusive {
                    all_hold(self.bitboards, pieces@, s)
                } else {
                    any_holds(self.bitboards, pieces@, s)
                }),
    {
        proof {
            lemma_bit_ops();
        }
        if pieces.len() == 0 {
            return 0;
        }
        let mut acc: u64 = self.bitboards[pieces[0].idx()];
        let mut i: usize = 1;
        proof {
            assert forall|s: int| 0 <= s < 64 implies #[trigger] member(acc, s) == (if exclusive {
                all_hold(self.bitboards, pieces@.take(1), s)
            } else {
                any_holds(self.bitboards, pieces@.take(1), s)
            }) by {
                let one = pieces@.take(1);
                assert(one[0] == pieces@[0]);
                if member(acc, s) {
                    assert(member(self.bitboards[one[0].spec_idx()], s));
                }
            }
        }
        while i < pieces.len()
            invariant
                1 <= i <= pieces@.len(),
                forall|s: int|
                    0 <= s < 64 ==> #[trigger] member(acc, s) == (if exclusive {
                        all_hold(self.bitboards, pieces@.take(i as int), s)
                    } else {
                        any_holds(self.bitboards, pieces@.take(i as int), s)
                    }),
            decreases pieces@.len() - i,
        {
            let bb: u64 = self.bitboards[pieces[i].idx()];
            let ghost prev = acc;
            if exclusive {
                acc = acc & bb;
            } else {
                acc = acc | bb;
            }
            proof {
                lemma_bit_ops();
                let done = pieces@.take(i as int);
                let next = pieces@.take(i + 1);
                assert forall|s: int| 0 <= s < 64 implies #[trigger] member(acc, s) == (if exclusive {
                    all_hold(self.bitboards, next, s)
                } else {
                    any_holds(self.bitboards, next, s)
                }) by {
                    assert(member(prev, s) == (if exclusive {
                        all_hold(self.bitboards, done, s)
                    } else {
                        any_holds(self.bitboards, done, s)
                    }));
                    assert(next[i as int] == pieces@[i as int]);
                    if exclusive {
                        assert(member(acc, s) == (member(prev, s) && member(bb, s)));
                        if all_hold(self.bitboards, next, s) {
                            assert(member(self.bitboards[next[i as int].spec_idx()], s));
                            assert forall|j: int| 0 <= j < done.len() implies member(
                                self.bitboards[#[trigger] done[j].spec_idx()],
                                s,
                            ) by {
                                assert(next[j] == done[j]);
                            }
                        }
                        if member(acc, s) {
                            assert forall|j: int| 0 <= j < next.len() implies member(
                                self.bitboards[#[trigger] next[j].spec_idx()],
                                s,
                            ) by {
                                if j < i {
                                    assert(next[j] == done[j]);
                                }
                            }
                        }
                    } else {
                        assert(member(acc, s) == (member(prev, s) || member(bb, s)));
                        if any_holds(self.bitboards, done, s) {
                            let j = choose|j: int|
                                0 <= j < done.len() && member(
                                    self.bitboards[#[trigger] done[j].spec_idx()],
                                    s,
                                );
                            assert(next[j] == done[j]);
                        }
                        if member(bb, s) {
                            assert(member(self.bitboards[next[i as int].spec_idx()], s));
                        }
                        if any_holds(self.bitboards, next, s) {
                            let j = choose|j: int|
                                0 <= j < next.len() && member(
                                    self.bitboards[#[trigger] next[j].spec_idx()],
                                    s,
                                );
                            if j < i {
                                assert(next[j] == done[j]);
                            }
                        }
                    }
                }
            }
            i += 1;
        }
        assert(pieces@.take(pieces@.len() as int) =~= pieces@);
        acc
    }

    /// The squares that hold a piece of the given colour and kind.
    pub fn pieces_of(&self, white: bool, kind: BBPiece) -> (r: u64)
        requires
            kind.is_kind(),
            self.bitboards_ok(),
        ensures
            forall|s: int|
                0 <= s < 64 ==> #[trigger] member(r, s) == (self.spec_piece_at(s) == Some(
                    Piece { white: white, kind: kind },
                )),
            r == self@.pieces(white, kind),
    {
        proof {
            lemma_bit_ops();
        }
        let c: u64 = if white {
            self.bitboards[0]
        } else {
            self.bitboards[1]
        };
        let r = c & self.bitboards[kind.idx()];
        proof {
            assert forall|s: int| 0 <= s < 64 implies #[trigger] member(r, s) == (self.spec_piece_at(
                s,
            ) == Some(Piece { white: white, kind: kind })) by {
                assert(color_count(self.bitboards, s) == kind_count(self.bitboards, s));
                assert(member(r, s) == (member(c, s) && member(self.bitboards[kind.spec_idx()], s)));
            }
            let p = self@;
            lemma_bb_of(|s: int| p.holds(s, white, kind), 64);
            assert forall|s: int| 0 <= s < 64 implies member(r, s) == member(
                p.pieces(white, kind),
                s,
            ) by {
                assert(p.squares[s] == self.spec_piece_at(s));
            }
            lemma_bits_equal(r, p.pieces(white, kind));
        }
        r
    }

    /// The squares that hold a piece of the given colour.
    pub fn side_pieces(&self, white: bool) -> (r: u64)
        requires
            self.bitboards_ok(),
        ensures
            forall|s: int|
                0 <= s < 64 ==> #[trigger] member(r, s) == (self.spec_piece_at(s) matches Some(q)
                    && q.white == white),
    {
        let r = if white {
            self.bitboards[0]
        } else {
            self.bitboards[1]
        };
        proof {
            assert forall|s: int| 0 <= s < 64 implies #[trigger] member(r, s) == (
            self.spec_piece_at(s) matches Some(q) && q.white == white) by {
                assert(color_count(self.bitboards, s) == kind_count(self.bitboards, s));
            }
        }
        r
    }

    /// The squares that hold any piece.
    pub fn occupied(&self) -> (r: u64)
        ensures
            r == self@.occupancy(),
            forall|s: int| 0 <= s < 64 ==> #[trigger] member(r, s) == (self.spec_piece_at(s) is Some),
    {
        proof {
            lemma_bit_ops();
            self.lemma_occupancy();
        }
        self.bitboards[0] | self.bitboards[1]
    }

    /// The kind of the piece on `sq`, if there is a piece.
    fn kind_at(&self, sq: usize) -> (r: BBPiece)
        requires
            sq < 64,
        ensures
            r == kind_on(self.bitboards, sq as int),
            r.is_kind(),
    {
        if bb_get(self.bitboards[2], sq) {
            BBPiece::Pawn
        } else if bb_get(self.bitboards[3], sq) {
            BBPiece::Knight
        } else if bb_get(self.bitboards[4], sq) {
            BBPiece::Bishop
        } else if bb_get(self.bitboards[5], sq) {
            BBPiece::Rook
        } else if bb_get(self.bitboards[6], sq) {
            BBPiece::Queen
        } else {
            BBPiece::King
        }
    }

    /// What stands on `sq`.
    pub fn piece_at(&self, sq: usize) -> (r: Option<Piece>)
        requires
            sq < 64,
        ensures
            r == self.spec_piece_at(sq as int),
            r == self@.squares[sq as int],
            r matches Some(p) ==> p.kind.is_kind(),
    {
        if bb_get(self.bitboards[0], sq) {
            Some(Piece { white: true, kind: self.kind_at(sq) })
        } else if bb_get(self.bitboards[1], sq) {
            Some(Piece { white: false, kind: self.kind_at(sq) })
        } else {
            None
        }
    }

    /// Whether White is to move.
    pub fn white_to_move(&self) -> (r: bool)
        ensures
            r == self@.white_to_move,
    {
        self.move_color == 1
    }

    /// Puts a piece on an empty square of the bitboards and leaves the
    /// hashes as they are.
    pub fn raw_put(&mut self, sq: usize, white: bool, kind: BBPiece)
        requires
            old(self).bitboards_ok(),
            sq < 64,
            kind.is_kind(),
            old(self)@.squares[sq as int] is None,
        ensures
            final(self).bitboards_ok(),
            final(self).same_state(old(self)),
            final(self).zobrist_hash == old(self).zobrist_hash,
            final(self).pawn_hash == old(self).pawn_hash,
            final(self)@.squares == old(self)@.squares.update(
                sq as int,
                Some(Piece { white: white, kind: kind }),
            ),
    {
        let ghost before = *self;
        let ghost pc = Some(Piece { white: white, kind: kind });
        assert(before@.squares[sq as int] == before.spec_piece_at(sq as int));
        let c: usize = if white {
            0
        } else {
            1
        };
        assert(color_count(before.bitboards, sq as int) == kind_count(before.bitboards, sq as int));
        bb_set(&mut self.bitboards[c], sq, true);
        bb_set(&mut self.bitboards[kind.idx()], sq, true);
        proof {
            assert forall|s: int| 0 <= s < 64 implies self.spec_piece_at(s) == (if s == sq {
                pc
            } else {
                before.spec_piece_at(s)
            }) && #[trigger] color_count(self.bitboards, s) == kind_count(self.bitboards, s)
                && kind_count(self.bitboards, s) <= 1 by {
                assert(color_count(before.bitboards, s) == kind_count(before.bitboards, s));
            }
            assert(self@.squares =~= before@.squares.update(sq as int, pc));
        }
    }

    /// Takes the piece off an occupied square of the bitboards and leaves
    /// the hashes as they are.
    pub fn raw_remove(&mut self, sq: usize) -> (r: Piece)
        requires
            old(self).bitboards_ok(),
            sq < 64,
            old(self)@.squares[sq as int] is Some,
        ensures
            final(self).bitboards_ok(),
            final(self).same_state(old(self)),
            final(self).zobrist_hash == old(self).zobrist_hash,
            final(self).pawn_hash == old(self).pawn_hash,
            Some(r) == old(self)@.squares[sq as int],
            r.kind.is_kind(),
            final(self)@.squares == old(self)@.squares.update(sq as int, None),
    {
        let ghost before = *self;
        assert(before@.squares[sq as int] == before.spec_piece_at(sq as int));
        let piece = self.piece_at(sq).unwrap();
        let c: usize = if piece.white {
            0
        } else {
            1
        };
        assert(color_count(before.bitboards, sq as int) == kind_count(before.bitboards, sq as int));
        bb_set(&mut self.bitboards[c], sq, false);
        bb_set(&mut self.bitboards[piece.kind.idx()], sq, false);
        proof {
            assert forall|s: int| 0 <= s < 64 implies self.spec_piece_at(s) == (if s == sq {
                None
            } else {
                before.spec_piece_at(s)
            }) && #[trigger] color_count(self.bitboards, s) == kind_count(self.bitboards, s)
                && kind_count(self.bitboards, s) <= 1 by {
                assert(color_count(before.bitboards, s) == kind_count(before.bitboards, s));
            }
            assert(self@.squares =~= before@.squares.update(sq as int, None));
        }
        piece
    }

    /// Puts a piece on an empty square and brings both hashes up to date.
    pub fn put_piece(&mut self, sq: usize, white: bool, kind: BBPiece)
        requires
            old(self).inv(),
            sq < 64,
            kind.is_kind(),
            old(self)@.squares[sq as int] is None,
        ensures
            final(self).inv(),
            final(self).same_state(old(self)),
            final(self)@.squares == old(self)@.squares.update(
                sq as int,
                Some(Piece { white: white, kind: kind }),
            ),
    {
        let ghost before = *self;
        let ghost pc = Some(Piece { white: white, kind: kind });
        assert(before@.squares[sq as int] == before.spec_piece_at(sq as int));
        let c: usize = if white {
            0
        } else {
            1
        };
        assert(color_count(before.bitboards, sq as int) == kind_count(before.bitboards, sq as int));
        bb_set(&mut self.bitboards[c], sq, true);
        bb_set(&mut self.bitboards[kind.idx()], sq, true);
        let key = piece_key(kind, white, sq);
        self.zobrist_hash = self.zobrist_hash ^ key;
        if kind == BBPiece::Pawn {
            self.pawn_hash = self.pawn_hash ^ key;
        }
        proof {
            assert forall|s: int| 0 <= s < 64 implies self.spec_piece_at(s) == (if s == sq {
                pc
            } else {
                before.spec_piece_at(s)
            }) && #[trigger] color_count(self.bitboards, s) == kind_count(self.bitboards, s) && kind_count(self.bitboards, s) <= 1 by {
                assert(color_count(before.bitboards, s) == kind_count(before.bitboards, s));
            }
            assert(self@.squares =~= before@.squares.update(sq as int, pc));
            lemma_hash_update(before@.squares, sq as int, pc, 64, false);
            lemma_hash_update(before@.squares, sq as int, pc, 64, true);
            let st = state_hash(before@.castling, before@.ep, before@.white_to_move);
            let ph = hash_below(before@.squares, 64, false);
            lemma_xor_cancel(ph, 0, key);
            lemma_hash_regroup(ph, st, key);
            let pp = hash_below(before@.squares, 64, true);
            lemma_xor_cancel(pp, 0, key);
            lemma_xor_cancel(pp, 0, 0);
        }
    }

    /// Takes the piece off an occupied square and brings both hashes up to
    /// date.
    pub fn remove_piece(&mut self, sq: usize) -> (r: Piece)
        requires
            old(self).inv(),
            sq < 64,
            old(self)@.squares[sq as int] is Some,
        ensures
            final(self).inv(),
            final(self).same_state(old(self)),
            Some(r) == old(self)@.squares[sq as int],
            r.kind.is_kind(),
            final(self)@.squares == old(self)@.squares.update(sq as int, None),
    {
        let ghost before = *self;
        assert(before@.squares[sq as int] == before.spec_piece_at(sq as int));
        let piece = self.piece_at(sq).unwrap();
        let c: usize = if piece.white {
            0
        } else {
            1
        };
        assert(color_count(before.bitboards, sq as int) == kind_count(before.bitboards, sq as int));
        bb_set(&mut self.bitboards[c], sq, false);
        bb_set(&mut self.bitboards[piece.kind.idx()], sq, false);
        let key = piece_key(piece.kind, piece.white, sq);
        self.zobrist_hash = self.zobrist_hash ^ key;
        if piece.kind == BBPiece::Pawn {
            self.pawn_hash = self.pawn_hash ^ key;
        }
        proof {
            assert forall|s: int| 0 <= s < 64 implies self.spec_piece_at(s) == (if s == sq {
                None
            } else {
                before.spec_piece_at(s)
            }) && #[trigger] color_count(self.bitboards, s) == kind_count(self.bitboards, s) && kind_count(self.bitboards, s) <= 1 by {
                assert(color_count(before.bitboards, s) == kind_count(before.bitboards, s));
            }
            assert(self@.squares =~= before@.squares.update(sq as int, None));
            assert(before@.squares[sq as int] == Some(piece));
            lemma_hash_update(before@.squares, sq as int, None, 64, false);
            lemma_hash_update(before@.squares, sq as int, None, 64, true);
            let st = state_hash(before@.castling, before@.ep, before@.white_to_move);
            let ph = hash_below(before@.squares, 64, false);
            lemma_xor_cancel(ph ^ key, 0, 0);
            lemma_hash_regroup(ph, st, key);
            let pp = hash_below(before@.squares, 64, true);
            lemma_xor_cancel(pp ^ key, 0, 0);
            lemma_xor_cancel(pp, 0, 0);
        }
        piece
    }

    /// Replaces the castling rights and brings the hash up to date.
    pub fn set_castling(&mut self, rights: [bool; 4])
        requires
            old(self).inv(),
        ensures
            final(self).inv(),
            final(self).same_pieces(old(self)),
            final(self).castling_rights == rights,
            final(self).move_color == old(self).move_color,
            final(self).en_passant == old(self).en_passant,
    {
        let ghost before = *self;
        let old_key = castling_key(castling_rights_to_bits(&self.castling_rights));
        let new_key = castling_key(castling_rights_to_bits(&rights));
        self.zobrist_hash = (self.zobrist_hash ^ old_key) ^ new_key;
        self.castling_rights = rights;
        proof {
            lemma_state_regroup(
                hash_below(before@.squares, 64, false),
                old_key,
                ep_hash(before@.ep),
                side_hash(before@.white_to_move),
                new_key,
            );
        }
    }

    /// Replaces the en-passant square and brings the hash up to date.
    pub fn set_en_passant(&mut self, ep: Option<usize>)
        requires
            old(self).inv(),
            ep matches Some(e) ==> e < 64,
        ensures
            final(self).inv(),
            final(self).same_pieces(old(self)),
            final(self).en_passant == ep,
            final(self).move_color == old(self).move_color,
            final(self).castling_rights == old(self).castling_rights,
    {
        let ghost before = *self;
        let old_key: u64 = match self.en_passant {
            Some(e) => ep_key(e % 8),
            None => 0,
        };
        let new_key: u64 = match ep {
            Some(e) => ep_key(e % 8),
            None => 0,
        };
        self.zobrist_hash = (self.zobrist_hash ^ old_key) ^ new_key;
        self.en_passant = ep;
        proof {
            lemma_state_regroup(
                hash_below(before@.squares, 64, false),
                spec_castling_key(castling_mask(before@.castling)),
                old_key,
                side_hash(before@.white_to_move),
                new_key,
            );
        }
    }

    /// Hands the move to the other side and brings the hash up to date.
    pub fn flip_side(&mut self)
        requires
            old(self).inv(),
        ensures
            final(self).inv(),
            final(self).same_pieces(old(self)),
            final(self).move_color == -old(self).move_color,
            final(self).en_passant == old(self).en_passant,
            final(self).castling_rights == old(self).castling_rights,
    {
        let ghost before = *self;
        let k = side_key();
        let old_key: u64 = if self.move_color == 1 {
            0
        } else {
            k
        };
        let new_key: u64 = if self.move_color == 1 {
            k
        } else {
            0
        };
        self.zobrist_hash = (self.zobrist_hash ^ old_key) ^ new_key;
        self.move_color = -self.move_color;
        proof {
            lemma_state_regroup(
                hash_below(before@.squares, 64, false),
                spec_castling_key(castling_mask(before@.castling)),
                ep_hash(before@.ep),
                old_key,
                new_key,
            );
        }
    }
}

/// The mask of four castling rights: bit 0 for White's king side, bit 1 for
/// White's queen side, bit 2 and 3 for Black's.
pub fn castling_rights_to_bits(castling_rights: &[bool; 4]) -> (r: usize)
    ensures
        r == castling_mask(castling_rights@),
        r < 16,
{
    let a: usize = if castling_rights[0] {
        1
    } else {
        0
    };
    let b: usize = if castling_rights[1] {
        2
    } else {
        0
    };
    let c: usize = if castling_rights[2] {
        4
    } else {
        0
    };
    let d: usize = if castling_rights[3] {
        8
    } else {
        0
    };
    a + b + c + d
}

/// The four castling rights of a mask.
pub fn castling_rights_from_bits(mask: u8) -> (r: [bool; 4])
    ensures
        r@ == crate::position::rights_of_mask(mask as int),
{
    let r = [mask % 2 == 1, (mask / 2) % 2 == 1, (mask / 4) % 2 == 1, (mask / 8) % 2 == 1];
    assert(r@ =~= crate::position::rights_of_mask(mask as int));
    r
}

} // verus!
