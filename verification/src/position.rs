//! The mathematical model of a chess position, and the rules that moves
//! obey on it.
//!
//! A [`Position`] says what stands on each square, whose turn it is, which
//! castling rights are left, where en passant is possible, the two clocks,
//! the two hashes and the four undo stacks. The executable board is held
//! to this model: its functions state what they do as functions on
//! positions.

use vstd::prelude::*;
use crate::bits::{member, lemma_bit_ops};
use crate::zobrist::lemma_xor_cancel;
use crate::square::BBPiece;
use crate::moves::Move;
use crate::attacks::{knight_reaches, king_reaches, rook_reaches, bishop_reaches};
use crate::square::on_board;
use crate::zobrist::{spec_piece_key, spec_castling_key, spec_ep_key, spec_side_key};

verus! {

/// A piece: its colour and its kind.
#[derive(Copy, Clone, Debug, PartialEq, Eq, Structural)]
pub struct Piece {
    pub white: bool,
    pub kind: BBPiece,
}

/// What a move cannot be taken back without: the castling mask, the
/// en-passant square, the two clocks and the pawn hash from before it.
#[derive(Copy, Clone, Debug, PartialEq, Eq, Structural)]
pub struct StateRecord {
    pub castling: u8,
    pub ep: Option<usize>,
    pub halfmove: u8,
    pub fullmove: u16,
    pub pawn_hash: u64,
}

/// A position with its history.
pub struct Position {
    /// What stands on each of the 64 squares.
    pub squares: Seq<Option<Piece>>,
    pub white_to_move: bool,
    /// The four castling rights: White king side, White queen side, Black
    /// king side, Black queen side.
    pub castling: Seq<bool>,
    pub ep: Option<usize>,
    pub halfmove: u8,
    pub fullmove: u16,
    pub hash: u64,
    pub pawn_hash: u64,
    pub states: Seq<StateRecord>,
    pub moves: Seq<Move>,
    pub captures: Seq<(BBPiece, BBPiece)>,
    pub hashes: Seq<u64>,
}

/// The bitboard whose members below `n` are the squares where `f` holds.
pub open spec fn bb_of(f: spec_fn(int) -> bool, n: int) -> u64
    decreases n,
{
    if n <= 0 {
        0
    } else {
        bb_of(f, n - 1) | (if f(n - 1) {
            1u64 << ((n - 1) as u64)
        } else {
            0u64
        })
    }
}

/// The members of `bb_of(f, n)` are the squares below `n` where `f` holds.
pub proof fn lemma_bb_of(f: spec_fn(int) -> bool, n: int)
    requires
        0 <= n <= 64,
    ensures
        forall|s: int| 0 <= s < 64 ==> #[trigger] member(bb_of(f, n), s) == (s < n && f(s)),
    decreases n,
{
    lemma_bit_ops();
    if n > 0 {
        lemma_bb_of(f, n - 1);
        let prev = bb_of(f, n - 1);
        let bit: u64 = if f(n - 1) {
            1u64 << ((n - 1) as u64)
        } else {
            0u64
        };
        assert forall|s: int| 0 <= s < 64 implies #[trigger] member(bb_of(f, n), s) == (s < n && f(
            s,
        )) by {
            assert(member(prev | bit, s) == (member(prev, s) || member(bit, s)));
        }
    }
}

/// The key that a square contributes to a hash: the key of the piece on
/// it, nothing for an empty square, and, in the pawn hash, nothing for a
/// piece that is no pawn.
pub open spec fn sq_key(pc: Option<Piece>, s: int, pawns_only: bool) -> u64 {
    match pc {
        Some(p) => if pawns_only && p.kind != BBPiece::Pawn {
            0
        } else {
            spec_piece_key(p.kind, p.white, s)
        },
        None => 0,
    }
}

/// The exclusive-or of the keys of the squares below `n`.
pub open spec fn hash_below(squares: Seq<Option<Piece>>, n: int, pawns_only: bool) -> u64
    decreases n,
{
    if n <= 0 {
        0
    } else {
        hash_below(squares, n - 1, pawns_only) ^ sq_key(squares[n - 1], n - 1, pawns_only)
    }
}

/// The mask of four castling rights, `0..16`.
pub open spec fn castling_mask(c: Seq<bool>) -> int {
    (if c[0] { 1int } else { 0int }) + (if c[1] { 2int } else { 0int }) + (if c[2] {
        4int
    } else {
        0int
    }) + (if c[3] { 8int } else { 0int })
}

/// The four castling rights of a mask.
pub open spec fn rights_of_mask(m: int) -> Seq<bool> {
    seq![m % 2 == 1, (m / 2) % 2 == 1, (m / 4) % 2 == 1, (m / 8) % 2 == 1]
}

/// The key of the en-passant square: the key of its file, or nothing.
pub open spec fn ep_hash(ep: Option<usize>) -> u64 {
    match ep {
        Some(e) => spec_ep_key(e as int % 8),
        None => 0,
    }
}

/// The key of the side to move: the side key for Black, nothing for White.
pub open spec fn side_hash(white_to_move: bool) -> u64 {
    if white_to_move {
        0
    } else {
        spec_side_key()
    }
}

/// The part of the hash that does not depend on the pieces.
pub open spec fn state_hash(castling: Seq<bool>, ep: Option<usize>, white_to_move: bool) -> u64 {
    (spec_castling_key(castling_mask(castling)) ^ ep_hash(ep)) ^ side_hash(white_to_move)
}

/// The kind a promotion flag promotes to.
pub open spec fn promo_kind(flags: int) -> BBPiece {
    if flags % 4 == 0 {
        BBPiece::Knight
    } else if flags % 4 == 1 {
        BBPiece::Bishop
    } else if flags % 4 == 2 {
        BBPiece::Rook
    } else {
        BBPiece::Queen
    }
}

/// The square of the pawn that an en-passant capture to `to` takes.
pub open spec fn ep_victim(to: int, white: bool) -> int {
    if white {
        to - 8
    } else {
        to + 8
    }
}

/// Where the rook stands before a castling move that takes the king to
/// `to`.
pub open spec fn castle_rook_from(to: int) -> int {
    if to == 6 {
        7
    } else if to == 2 {
        0
    } else if to == 62 {
        63
    } else {
        56
    }
}

/// Where the rook stands after a castling move that takes the king to `to`.
pub open spec fn castle_rook_to(to: int) -> int {
    if to == 6 {
        5
    } else if to == 2 {
        3
    } else if to == 62 {
        61
    } else {
        59
    }
}

/// A colour as the capture stack records it.
pub open spec fn color_tag(white: bool) -> BBPiece {
    if white {
        BBPiece::White
    } else {
        BBPiece::Black
    }
}

/// The squares after a move.
pub open spec fn make_squares(
    sq: Seq<Option<Piece>>,
    white: bool,
    from: int,
    to: int,
    flags: int,
) -> Seq<Option<Piece>> {
    let mover = sq[from].unwrap();
    let placed = if flags >= 8 {
        Piece { white: white, kind: promo_kind(flags) }
    } else {
        mover
    };
    let step1 = sq.update(from, None).update(to, Some(placed));
    if flags == 5 {
        step1.update(ep_victim(to, white), None)
    } else if flags == 2 || flags == 3 {
        step1.update(castle_rook_from(to), None).update(
            castle_rook_to(to),
            Some(Piece { white: white, kind: BBPiece::Rook }),
        )
    } else {
        step1
    }
}

/// The squares before a move, from the squares after it and the piece it
/// took, if it took one on its destination.
pub open spec fn undo_squares(
    sq: Seq<Option<Piece>>,
    white: bool,
    from: int,
    to: int,
    flags: int,
    taken: Option<Piece>,
) -> Seq<Option<Piece>> {
    let placed = sq[to].unwrap();
    let mover = if flags >= 8 {
        Piece { white: white, kind: BBPiece::Pawn }
    } else {
        placed
    };
    let step1 = sq.update(to, if flags == 5 { None } else { taken }).update(from, Some(mover));
    if flags == 5 {
        step1.update(ep_victim(to, white), Some(Piece { white: !white, kind: BBPiece::Pawn }))
    } else if flags == 2 || flags == 3 {
        step1.update(castle_rook_to(to), None).update(
            castle_rook_from(to),
            Some(Piece { white: white, kind: BBPiece::Rook }),
        )
    } else {
        step1
    }
}

/// A pawn of the given colour on `from` attacks `to`: the two squares
/// diagonally ahead of it.
pub open spec fn pawn_attacks(white: bool, from: int, to: int) -> bool {
    on_board(from) && on_board(to) && if white {
        (to == from + 7 && from % 8 != 0) || (to == from + 9 && from % 8 != 7)
    } else {
        (to == from - 9 && from % 8 != 0) || (to == from - 7 && from % 8 != 7)
    }
}

/// The piece `pc` on `from` attacks `to` when the board is occupied as
/// `occ` says.
pub open spec fn piece_attacks(pc: Piece, from: int, to: int, occ: u64) -> bool {
    match pc.kind {
        BBPiece::Pawn => pawn_attacks(pc.white, from, to),
        BBPiece::Knight => knight_reaches(from, to),
        BBPiece::Bishop => bishop_reaches(from, to, occ),
        BBPiece::Rook => rook_reaches(from, to, occ),
        BBPiece::Queen => rook_reaches(from, to, occ) || bishop_reaches(from, to, occ),
        BBPiece::King => king_reaches(from, to),
        _ => false,
    }
}

impl Position {
    /// The bitboard of all occupied squares.
    pub open spec fn occupancy(self) -> u64 {
        bb_of(|s: int| self.squares[s] is Some, 64)
    }

    /// The hash of this position, computed from nothing but the position.
    pub open spec fn spec_hash(self) -> u64 {
        hash_below(self.squares, 64, false) ^ state_hash(self.castling, self.ep, self.white_to_move)
    }

    /// The hash of the pawns of this position.
    pub open spec fn spec_pawn_hash(self) -> u64 {
        hash_below(self.squares, 64, true)
    }

    /// Whether a piece of the given colour and kind stands on `s`.
    pub open spec fn holds(self, s: int, white: bool, kind: BBPiece) -> bool {
        0 <= s < 64 && self.squares[s] == Some(Piece { white: white, kind: kind })
    }

    /// An en-passant square lies on the sixth rank of the side to move, is
    /// empty, and has directly behind it a pawn of the side that just moved.
    pub open spec fn ep_ok(self) -> bool {
        match self.ep {
            None => true,
            Some(e) => if self.white_to_move {
                40 <= e < 48 && self.squares[e as int] is None && self.holds(
                    e - 8,
                    false,
                    BBPiece::Pawn,
                )
            } else {
                16 <= e < 24 && self.squares[e as int] is None && self.holds(
                    e + 8,
                    true,
                    BBPiece::Pawn,
                )
            },
        }
    }

    /// A castling right is held only while the rook stands on its corner.
    pub open spec fn rooks_home(self) -> bool {
        &&& self.castling[0] ==> self.holds(7, true, BBPiece::Rook)
        &&& self.castling[1] ==> self.holds(0, true, BBPiece::Rook)
        &&& self.castling[2] ==> self.holds(63, false, BBPiece::Rook)
        &&& self.castling[3] ==> self.holds(56, false, BBPiece::Rook)
    }

    /// The invariant of a position: 64 squares holding pieces of proper
    /// kinds, a consistent en-passant square, castling rights backed by
    /// rooks, and both hashes equal to the hashes computed from nothing.
    pub open spec fn wf(self) -> bool {
        &&& self.squares.len() == 64
        &&& self.castling.len() == 4
        &&& forall|s: int|
            0 <= s < 64 ==> (#[trigger] self.squares[s] matches Some(pc) ==> pc.kind.is_kind())
        &&& self.ep_ok()
        &&& self.rooks_home()
        &&& self.hash == self.spec_hash()
        &&& self.pawn_hash == self.spec_pawn_hash()
    }

    /// The side has exactly one king.
    pub open spec fn one_king(self, white: bool) -> bool {
        exists|k: int|
            0 <= k < 64 && #[trigger] self.holds(k, white, BBPiece::King) && forall|j: int|
                0 <= j < 64 && j != k ==> !#[trigger] self.holds(j, white, BBPiece::King)
    }

    /// Each side has exactly one king, and a castling right is held only
    /// while the king stands on its home square.
    pub open spec fn kings_ok(self) -> bool {
        &&& self.one_king(true)
        &&& self.one_king(false)
        &&& (self.castling[0] || self.castling[1]) ==> self.holds(4, true, BBPiece::King)
        &&& (self.castling[2] || self.castling[3]) ==> self.holds(60, false, BBPiece::King)
    }

    /// The squares that hold a piece of the given colour and kind.
    pub open spec fn pieces(self, white: bool, kind: BBPiece) -> u64 {
        bb_of(|s: int| self.holds(s, white, kind), 64)
    }

    /// The squares that a piece of the given colour and kind on `from`
    /// could go to: those it attacks, but for the ones its own side
    /// occupies.
    pub open spec fn targets(self, white: bool, kind: BBPiece, from: int) -> u64 {
        bb_of(
            |t: int|
                piece_attacks(Piece { white: white, kind: kind }, from, t, self.occupancy()) && !(
                self.squares[t] matches Some(q) && q.white == white),
            64,
        )
    }

    /// The squares that a piece of the given colour and kind on `from`
    /// attacks.
    pub open spec fn attack_set(self, white: bool, kind: BBPiece, from: int) -> u64 {
        bb_of(
            |t: int| piece_attacks(Piece { white: white, kind: kind }, from, t, self.occupancy()),
            64,
        )
    }

    /// Whether a piece of colour `white` stands on `from` and attacks `sq`.
    pub open spec fn attacker(self, from: int, sq: int, white: bool) -> bool {
        0 <= from < 64 && (self.squares[from] matches Some(pc) && pc.white == white
            && piece_attacks(pc, from, sq, self.occupancy()))
    }

    /// Whether some piece of colour `white` attacks `sq`.
    pub open spec fn attacked_by(self, sq: int, white: bool) -> bool {
        exists|from: int| #[trigger] self.attacker(from, sq, white)
    }

    /// Whether some piece of the side to move attacks `sq`.
    pub open spec fn attacked(self, sq: int) -> bool {
        self.attacked_by(sq, self.white_to_move)
    }

    /// Whether `k` is the lowest square that holds a king of the colour.
    pub open spec fn is_king_square(self, k: int, white: bool) -> bool {
        self.holds(k, white, BBPiece::King) && forall|j: int|
            0 <= j < k ==> !#[trigger] self.holds(j, white, BBPiece::King)
    }

    /// Whether the king of colour `white` is attacked by the other side. A
    /// side without a king is attacked nowhere.
    pub open spec fn king_attacked_by_other(self, white: bool) -> bool {
        exists|k: int| #[trigger] self.is_king_square(k, white) && self.attacked_by(k, !white)
    }

    /// Whether the side to move is in check.
    pub open spec fn in_check(self) -> bool {
        self.king_attacked_by_other(self.white_to_move)
    }

    /// Whether the last move was a castling move whose king started on or
    /// passed over a square that the side now to move attacks.
    pub open spec fn castled_through_check(self) -> bool {
        self.moves.len() > 0 && {
            let m = self.moves.last();
            let from = m.spec_from();
            let to = m.spec_to();
            m.spec_is_castle() && ((from == 4 && to == 6 && (self.attacked(4) || self.attacked(5)))
                || (from == 4 && to == 2 && (self.attacked(4) || self.attacked(3))) || (from == 60
                && to == 62 && (self.attacked(60) || self.attacked(61))) || (from == 60 && to == 58
                && (self.attacked(60) || self.attacked(59))))
        }
    }

    /// Whether the move just made was illegal: the side to move attacks the
    /// king of the side that moved, or that side castled out of or through
    /// check.
    pub open spec fn king_is_attacked(self) -> bool {
        self.castled_through_check() || self.king_attacked_by_other(!self.white_to_move)
    }

    /// Whether the pseudo-legal move `m` is legal: after it, the mover's
    /// king is not attacked, and a castling king has passed over no
    /// attacked square.
    pub open spec fn legal(self, m: Move) -> bool {
        self.pseudo_legal(m) && !self.make(m).king_is_attacked()
    }

    /// Whether the position is drawn by the fifty-move rule or repeats an
    /// earlier position of its history.
    pub open spec fn is_draw(self) -> bool {
        self.halfmove >= 100 || self.hashes.contains(self.hash)
    }

    /// Whether the destination and the flag of a move of a piece (not a
    /// pawn) agree: quiet onto an empty square, capture onto an enemy.
    pub open spec fn target_ok(self, to: int, flags: int) -> bool {
        match self.squares[to] {
            None => flags == 0,
            Some(q) => q.white != self.white_to_move && flags == 4,
        }
    }

    /// The pawn moves: pushes, double pushes, captures, en passant, and the
    /// four promotions of each push or capture that reaches the last rank.
    pub open spec fn pawn_ok(self, from: int, to: int, flags: int) -> bool {
        let white = self.white_to_move;
        let ahead = if white {
            from + 8
        } else {
            from - 8
        };
        let last = if white {
            to >= 56
        } else {
            to <= 7
        };
        let left = if white {
            from + 7
        } else {
            from - 9
        };
        let right = if white {
            from + 9
        } else {
            from - 7
        };
        let diagonal = (to == left && from % 8 != 0) || (to == right && from % 8 != 7);
        0 <= to < 64 && if to == ahead {
            self.squares[to] is None && if last {
                8 <= flags <= 11
            } else {
                flags == 0
            }
        } else if flags == 1 {
            (if white {
                8 <= from < 16 && to == from + 16
            } else {
                48 <= from < 56 && to == from - 16
            }) && self.squares[ahead] is None && self.squares[to] is None
        } else if flags == 5 {
            diagonal && self.ep == Some(to as usize)
        } else {
            diagonal && (self.squares[to] matches Some(q) && q.white != white) && if last {
                12 <= flags <= 15
            } else {
                flags == 4
            }
        }
    }

    /// The castling moves: the right is held, the king stands on its home
    /// square and the squares between king and rook are empty. Whether the
    /// king passes through check is not asked here.
    pub open spec fn castle_ok(self, from: int, to: int, flags: int) -> bool {
        if self.white_to_move {
            from == 4 && ((flags == 2 && to == 6 && self.castling[0] && self.squares[5] is None
                && self.squares[6] is None) || (flags == 3 && to == 2 && self.castling[1]
                && self.squares[3] is None && self.squares[2] is None && self.squares[1] is None))
        } else {
            from == 60 && ((flags == 2 && to == 62 && self.castling[2] && self.squares[61] is None
                && self.squares[62] is None) || (flags == 3 && to == 58 && self.castling[3]
                && self.squares[59] is None && self.squares[58] is None
                && self.squares[57] is None))
        }
    }

    /// Whether `m` is a pseudo-legal move: one that the piece on its origin
    /// can make by the rules of movement, whether or not it leaves the
    /// mover's king attacked.
    #[verifier::opaque]
    pub open spec fn pseudo_legal(self, m: Move) -> bool {
        let from = m.spec_from();
        let to = m.spec_to();
        let flags = m.spec_flags();
        match self.squares[from] {
            None => false,
            Some(pc) => pc.white == self.white_to_move && match pc.kind {
                BBPiece::Pawn => self.pawn_ok(from, to, flags),
                BBPiece::Knight => knight_reaches(from, to) && self.target_ok(to, flags),
                BBPiece::Bishop => bishop_reaches(from, to, self.occupancy()) && self.target_ok(
                    to,
                    flags,
                ),
                BBPiece::Rook => rook_reaches(from, to, self.occupancy()) && self.target_ok(
                    to,
                    flags,
                ),
                BBPiece::Queen => (rook_reaches(from, to, self.occupancy()) || bishop_reaches(
                    from,
                    to,
                    self.occupancy(),
                )) && self.target_ok(to, flags),
                BBPiece::King => (king_reaches(from, to) && self.target_ok(to, flags))
                    || self.castle_ok(from, to, flags),
                _ => false,
            },
        }
    }

    /// Whether `m` takes a king.
    pub open spec fn takes_king(self, m: Move) -> bool {
        self.squares[m.spec_to()] matches Some(q) && q.kind == BBPiece::King
    }

    /// The castling rights after a move from `from` to `to`: a right is
    /// lost when the king moves, when the rook leaves its corner, and when
    /// a rook is taken on its corner.
    pub open spec fn make_castling(self, from: int, to: int) -> Seq<bool> {
        let c = self.castling;
        let white = self.white_to_move;
        let mover = self.squares[from].unwrap();
        let king = mover.kind == BBPiece::King;
        let rook = mover.kind == BBPiece::Rook;
        let taken = self.squares[to] matches Some(q) && q.kind == BBPiece::Rook;
        seq![
            c[0] && !(king && white) && !(rook && white && from == 7) && !(taken && to == 7),
            c[1] && !(king && white) && !(rook && white && from == 0) && !(taken && to == 0),
            c[2] && !(king && !white) && !(rook && !white && from == 63) && !(taken && to == 63),
            c[3] && !(king && !white) && !(rook && !white && from == 56) && !(taken && to == 56),
        ]
    }

    /// The en-passant square after a move: the square a double push passed
    /// over, or none.
    pub open spec fn make_ep(self, from: int, flags: int) -> Option<usize> {
        if flags == 1 {
            Some(
                (if self.white_to_move {
                    from + 8
                } else {
                    from - 8
                }) as usize,
            )
        } else {
            None
        }
    }

    /// The record that a move pushes on the state stack.
    pub open spec fn record(self) -> StateRecord {
        StateRecord {
            castling: castling_mask(self.castling) as u8,
            ep: self.ep,
            halfmove: self.halfmove,
            fullmove: self.fullmove,
            pawn_hash: self.pawn_hash,
        }
    }

    /// What a move pushes on the capture stack: the piece on its
    /// destination, or the pawn that is taken en passant.
    pub open spec fn taken_by(self, m: Move) -> Option<(BBPiece, BBPiece)> {
        if m.spec_flags() == 5 {
            Some((color_tag(!self.white_to_move), BBPiece::Pawn))
        } else {
            match self.squares[m.spec_to()] {
                Some(q) => Some((color_tag(q.white), q.kind)),
                None => None,
            }
        }
    }

    /// The position after the pseudo-legal move `m`.
    #[verifier::opaque]
    pub open spec fn make(self, m: Move) -> Position {
        let from = m.spec_from();
        let to = m.spec_to();
        let flags = m.spec_flags();
        let white = self.white_to_move;
        let mover = self.squares[from].unwrap();
        let squares = make_squares(self.squares, white, from, to, flags);
        let castling = self.make_castling(from, to);
        let ep = self.make_ep(from, flags);
        Position {
            squares: squares,
            white_to_move: !white,
            castling: castling,
            ep: ep,
            halfmove: if m.spec_is_capture() || mover.kind == BBPiece::Pawn {
                0u8
            } else if self.halfmove < 255 {
                (self.halfmove + 1) as u8
            } else {
                255u8
            },
            fullmove: if white {
                self.fullmove
            } else if self.fullmove < 65535 {
                (self.fullmove + 1) as u16
            } else {
                65535u16
            },
            hash: hash_below(squares, 64, false) ^ state_hash(castling, ep, !white),
            pawn_hash: hash_below(squares, 64, true),
            states: self.states.push(self.record()),
            moves: self.moves.push(m),
            captures: match self.taken_by(m) {
                Some(t) => self.captures.push(t),
                None => self.captures,
            },
            hashes: self.hashes.push(self.hash),
        }
    }

    /// The position before the last move, rebuilt from the four stacks.
    #[verifier::opaque]
    pub open spec fn undo(self) -> Position {
        let m = self.moves.last();
        let rec = self.states.last();
        let from = m.spec_from();
        let to = m.spec_to();
        let flags = m.spec_flags();
        let white = !self.white_to_move;
        let taken = if m.spec_is_capture() {
            Some(
                Piece {
                    white: self.captures.last().0 == BBPiece::White,
                    kind: self.captures.last().1,
                },
            )
        } else {
            None
        };
        Position {
            squares: undo_squares(self.squares, white, from, to, flags, taken),
            white_to_move: white,
            castling: rights_of_mask(rec.castling as int),
            ep: rec.ep,
            halfmove: rec.halfmove,
            fullmove: rec.fullmove,
            hash: self.hashes.last(),
            pawn_hash: rec.pawn_hash,
            states: self.states.drop_last(),
            moves: self.moves.drop_last(),
            captures: if m.spec_is_capture() {
                self.captures.drop_last()
            } else {
                self.captures
            },
            hashes: self.hashes.drop_last(),
        }
    }

    /// Whether the last move can be taken back: the stacks are not empty
    /// and the position is what its last move made of a well-formed
    /// position.
    pub open spec fn undoable(self) -> bool {
        &&& self.moves.len() > 0
        &&& self.states.len() > 0
        &&& self.hashes.len() > 0
        &&& self.undo().wf()
        &&& self.undo().pseudo_legal(self.moves.last())
        &&& self.undo().make(self.moves.last()) == self
    }

    /// The position after a null move: the other side is to move and no
    /// en passant is possible. A state record is pushed, nothing else.
    pub open spec fn make_null(self) -> Position {
        Position {
            white_to_move: !self.white_to_move,
            ep: None,
            hash: hash_below(self.squares, 64, false) ^ state_hash(
                self.castling,
                None,
                !self.white_to_move,
            ),
            states: self.states.push(self.record()),
            hashes: self.hashes.push(self.hash),
            ..self
        }
    }

    /// The position before the last null move.
    pub open spec fn undo_null(self) -> Position {
        Position {
            white_to_move: !self.white_to_move,
            ep: self.states.last().ep,
            hash: self.hashes.last(),
            states: self.states.drop_last(),
            hashes: self.hashes.drop_last(),
            ..self
        }
    }

    /// Whether the last thing done was a null move on a well-formed
    /// position.
    pub open spec fn null_undoable(self) -> bool {
        &&& self.states.len() > 0
        &&& self.hashes.len() > 0
        &&& self.undo_null().wf()
        &&& self.undo_null().make_null() == self
    }
}

/// Changing what stands on one square changes a hash by the key that the
/// square contributed before and the key that it contributes now.
pub proof fn lemma_hash_update(
    squares: Seq<Option<Piece>>,
    s: int,
    pc: Option<Piece>,
    n: int,
    pawns_only: bool,
)
    requires
        0 <= s < 64,
        squares.len() == 64,
        0 <= n <= 64,
    ensures
        hash_below(squares.update(s, pc), n, pawns_only) == (if s < n {
            (hash_below(squares, n, pawns_only) ^ sq_key(squares[s], s, pawns_only)) ^ sq_key(
                pc,
                s,
                pawns_only,
            )
        } else {
            hash_below(squares, n, pawns_only)
        }),
    decreases n,
{
    if n > 0 {
        lemma_hash_update(squares, s, pc, n - 1, pawns_only);
        let upd = squares.update(s, pc);
        let h = hash_below(squares, n - 1, pawns_only);
        let a = sq_key(squares[s], s, pawns_only);
        let b = sq_key(pc, s, pawns_only);
        if s == n - 1 {
            lemma_xor_cancel(h, a, b);
        } else if s < n - 1 {
            let c = sq_key(squares[n - 1], n - 1, pawns_only);
            assert(upd[n - 1] == squares[n - 1]);
            lemma_xor_cancel(h ^ a, b, c);
            lemma_xor_cancel(h, a, c);
        } else {
            assert(upd[n - 1] == squares[n - 1]);
        }
    }
}

/// A piece key moves through the state part of a hash.
pub proof fn lemma_hash_regroup(p: u64, s: u64, k: u64)
    by (bit_vector)
    ensures
        (p ^ s) ^ k == (p ^ k) ^ s,
{
}

/// Replacing one of the three state keys inside a full hash.
pub proof fn lemma_state_regroup(p: u64, c: u64, e: u64, d: u64, x: u64)
    by (bit_vector)
    ensures
        ((p ^ ((c ^ e) ^ d)) ^ c) ^ x == p ^ ((x ^ e) ^ d),
        ((p ^ ((c ^ e) ^ d)) ^ e) ^ x == p ^ ((c ^ x) ^ d),
        ((p ^ ((c ^ e) ^ d)) ^ d) ^ x == p ^ ((c ^ e) ^ x),
{
}

/// The hash of squares that are all empty is zero.
pub proof fn lemma_hash_empty(squares: Seq<Option<Piece>>, n: int, pawns_only: bool)
    requires
        0 <= n <= squares.len(),
        forall|s: int| 0 <= s < n ==> squares[s] is None,
    ensures
        hash_below(squares, n, pawns_only) == 0,
    decreases n,
{
    if n > 0 {
        lemma_hash_empty(squares, n - 1, pawns_only);
        lemma_xor_cancel(0, 0, 0);
    }
}

} // verus!
