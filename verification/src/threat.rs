//! Attack detection: which squares a side attacks, and whether a king
//! stands attacked.

use vstd::prelude::*;
use crate::bits::{member, lemma_bit_ops, lemma_bits_equal, lemma_zero_iff_empty, bb_gs_low_bit};
use crate::position::lemma_bb_of;
use crate::square::BBPiece;
use crate::attacks::{
    knight_attacks,
    king_attacks,
    rook_attacks,
    bishop_attacks,
    lemma_rook_symmetric,
    lemma_bishop_symmetric,
    lemma_leaper_symmetric,
    slider_attacks,
    knight_reaches,
    king_reaches,
    rook_reaches,
    bishop_reaches,
};
use crate::board::Board;
use crate::position::{Piece, piece_attacks, pawn_attacks};

verus! {

/// Attacks of pieces that are no pawns are mutual: what a piece on one
/// square attacks, a piece of its kind on the attacked square attacks
/// back.
pub proof fn lemma_mutual(s: int, t: int, occ: u64)
    requires
        0 <= s < 64,
    ensures
        0 <= t < 64 ==> rook_reaches(s, t, occ) == rook_reaches(t, s, occ),
        0 <= t < 64 ==> bishop_reaches(s, t, occ) == bishop_reaches(t, s, occ),
        knight_reaches(s, t) == knight_reaches(t, s),
        king_reaches(s, t) == king_reaches(t, s),
{
    if 0 <= t < 64 {
        lemma_rook_symmetric(s, t, occ);
        lemma_bishop_symmetric(s, t, occ);
    }
    lemma_leaper_symmetric(s, t);
}

/// Whether two bitboards have a member in common.
pub fn intersects(a: u64, b: u64) -> (r: bool)
    ensures
        r == exists|s: int| 0 <= s < 64 && #[trigger] member(a, s) && member(b, s),
{
    let c = a & b;
    proof {
        lemma_bit_ops();
        lemma_zero_iff_empty(c);
        if c != 0 {
            let s = choose|s: int| 0 <= s < 64 && member(c, s);
            assert(member(a, s) && member(b, s));
        } else {
            assert forall|s: int| 0 <= s < 64 implies !(#[trigger] member(a, s) && member(b, s)) by {
                assert(!member(c, s));
            }
        }
    }
    c != 0
}

impl Board {
    /// The squares that a piece of the given kind and colour on `from`
    /// attacks. Pawns are not asked for here.
    pub fn piece_attack_set(&self, kind: BBPiece, from: usize, white: bool) -> (attacks: u64)
        requires
            from < 64,
            kind == BBPiece::Knight || kind == BBPiece::Bishop || kind == BBPiece::Rook || kind
                == BBPiece::Queen || kind == BBPiece::King,
        ensures
            forall|t: int|
                0 <= t < 64 ==> #[trigger] member(attacks, t) == piece_attacks(
                    Piece { white: white, kind: kind },
                    from as int,
                    t,
                    self@.occupancy(),
                ),
            attacks == self@.attack_set(white, kind, from as int),
    {
        let occ = self.occupied();
        let attacks: u64 = match kind {
            BBPiece::Knight => knight_attacks(from),
            BBPiece::Bishop => slider_attacks(from, occ, false, true),
            BBPiece::Rook => slider_attacks(from, occ, true, false),
            BBPiece::Queen => slider_attacks(from, occ, true, true),
            _ => king_attacks(from),
        };
        proof {
            let p = self@;
            lemma_bb_of(
                |t: int| piece_attacks(Piece { white: white, kind: kind }, from as int, t, p.occupancy()),
                64,
            );
            lemma_bits_equal(attacks, p.attack_set(white, kind, from as int));
        }
        attacks
    }

    /// The squares that a piece of the given kind and colour on `from`
    /// could go to: those it attacks, but for the ones its own side
    /// occupies.
    pub fn piece_targets(&self, kind: BBPiece, from: usize, white: bool) -> (targets: u64)
        requires
            self.bitboards_ok(),
            from < 64,
            kind == BBPiece::Knight || kind == BBPiece::Bishop || kind == BBPiece::Rook || kind
                == BBPiece::Queen || kind == BBPiece::King,
        ensures
            forall|t: int|
                0 <= t < 64 ==> #[trigger] member(targets, t) == (piece_attacks(
                    Piece { white: white, kind: kind },
                    from as int,
                    t,
                    self@.occupancy(),
                ) && !(self@.squares[t] matches Some(q) && q.white == white)),
            targets == self@.targets(white, kind, from as int),
    {
        let own = self.side_pieces(white);
        let attacks = self.piece_attack_set(kind, from, white);
        let targets = attacks & !own;
        proof {
            lemma_bit_ops();
            let p = self@;
            assert forall|t: int| 0 <= t < 64 implies #[trigger] member(targets, t) == (
            piece_attacks(Piece { white: white, kind: kind }, from as int, t, p.occupancy()) && !(
            p.squares[t] matches Some(q) && q.white == white)) by {
                assert(p.squares[t] == self.spec_piece_at(t));
                assert(member(targets, t) == (member(attacks, t) && !member(own, t)));
            }
            lemma_bb_of(
                |t: int|
                    piece_attacks(Piece { white: white, kind: kind }, from as int, t, p.occupancy())
                        && !(p.squares[t] matches Some(q) && q.white == white),
                64,
            );
            lemma_bits_equal(targets, p.targets(white, kind, from as int));
        }
        targets
    }

    /// Whether a pawn of colour `white` attacks `square`.
    fn pawn_attacks_square(&self, square: usize, white: bool) -> (r: bool)
        requires
            self.bitboards_ok(),
            square < 64,
        ensures
            r == exists|from: int|
                0 <= from < 64 && #[trigger] self@.squares[from] == Some(
                    Piece { white: white, kind: BBPiece::Pawn },
                ) && pawn_attacks(white, from, square as int),
    {
        let rank = square / 8;
        let file = square % 8;
        let pawn = Some(Piece { white: white, kind: BBPiece::Pawn });
        let mut a: bool = false;
        let mut b: bool = false;
        if white {
            if file > 0 && rank > 0 {
                a = self.piece_at(square - 9) == pawn;
            }
            if file < 7 && rank > 0 {
                b = self.piece_at(square - 7) == pawn;
            }
        } else {
            if file > 0 && rank < 7 {
                a = self.piece_at(square + 7) == pawn;
            }
            if file < 7 && rank < 7 {
                b = self.piece_at(square + 9) == pawn;
            }
        }
        proof {
            let sq = square as int;
            let fa = if white {
                sq - 9
            } else {
                sq + 7
            };
            let fb = if white {
                sq - 7
            } else {
                sq + 9
            };
            if a {
                assert(self@.squares[fa] == pawn && pawn_attacks(white, fa, sq));
            }
            if b {
                assert(self@.squares[fb] == pawn && pawn_attacks(white, fb, sq));
            }
            if !a && !b {
                assert forall|from: int| 0 <= from < 64 && pawn_attacks(white, from, sq) implies !(
                #[trigger] self@.squares[from] == pawn) by {
                    assert(from == fa || from == fb);
                }
            }
        }
        a || b
    }

    /// Whether some piece of colour `white` attacks `square`: a pawn from
    /// one of the two squares diagonally behind, a knight a leap away, a
    /// rook or queen along a free rank or file, a bishop or queen along a
    /// free diagonal, or a king next to it.
    pub fn square_attacked_by(&self, square: usize, white: bool) -> (r: bool)
        requires
            self.bitboards_ok(),
            square < 64,
        ensures
            r == self@.attacked_by(square as int, white),
    {
        let ghost p = self@;
        let ghost sq = square as int;
        let occ = self.occupied();
        let pawns = self.pawn_attacks_square(square, white);
        let knights = self.pieces_of(white, BBPiece::Knight);
        let bishops = self.pieces_of(white, BBPiece::Bishop);
        let rooks = self.pieces_of(white, BBPiece::Rook);
        let queens = self.pieces_of(white, BBPiece::Queen);
        let kings = self.pieces_of(white, BBPiece::King);
        let ka = knight_attacks(square);
        let ga = king_attacks(square);
        let by_knight = intersects(ka, knights);
        let ra = rook_attacks(square, occ);
        let by_rook = intersects(ra, rooks);
        let by_queen_r = intersects(ra, queens);
        let ba = bishop_attacks(square, occ);
        let by_bishop = intersects(ba, bishops);
        let by_queen_b = intersects(ba, queens);
        let by_king = intersects(ga, kings);
        let r = pawns || by_knight || by_rook || by_queen_r || by_bishop || by_queen_b || by_king;
        proof {
            assert forall|from: int| 0 <= from < 64 implies #[trigger] p.squares[from]
                == self.spec_piece_at(from) by {}
            if r {
                if pawns {
                    let from = choose|from: int|
                        0 <= from < 64 && #[trigger] p.squares[from] == Some(
                            Piece { white: white, kind: BBPiece::Pawn },
                        ) && pawn_attacks(white, from, sq);
                    assert(p.attacker(from, sq, white));
                } else if by_knight {
                    let from = choose|s: int|
                        0 <= s < 64 && #[trigger] member(ka, s) && member(
                            knights,
                            s,
                        );
                    lemma_mutual(sq, from, occ);
                    assert(p.attacker(from, sq, white));
                } else if by_rook {
                    let from = choose|s: int| 0 <= s < 64 && #[trigger] member(ra, s) && member(rooks, s);
                    lemma_mutual(sq, from, occ);
                    assert(p.attacker(from, sq, white));
                } else if by_queen_r {
                    let from = choose|s: int|
                        0 <= s < 64 && #[trigger] member(ra, s) && member(queens, s);
                    lemma_mutual(sq, from, occ);
                    assert(p.attacker(from, sq, white));
                } else if by_bishop {
                    let from = choose|s: int|
                        0 <= s < 64 && #[trigger] member(ba, s) && member(bishops, s);
                    lemma_mutual(sq, from, occ);
                    assert(p.attacker(from, sq, white));
                } else if by_queen_b {
                    let from = choose|s: int|
                        0 <= s < 64 && #[trigger] member(ba, s) && member(queens, s);
                    lemma_mutual(sq, from, occ);
                    assert(p.attacker(from, sq, white));
                } else {
                    let from = choose|s: int|
                        0 <= s < 64 && #[trigger] member(ga, s) && member(
                            kings,
                            s,
                        );
                    lemma_mutual(sq, from, occ);
                    assert(p.attacker(from, sq, white));
                }
            } else {
                assert forall|from: int| !#[trigger] p.attacker(from, sq, white) by {
                    if p.attacker(from, sq, white) {
                        let pc = p.squares[from].unwrap();
                        assert(p.squares[from] == self.spec_piece_at(from));
                        lemma_mutual(sq, from, occ);
                        match pc.kind {
                            BBPiece::Pawn => {
                                assert(p.squares[from] == Some(
                                    Piece { white: white, kind: BBPiece::Pawn },
                                ));
                            },
                            BBPiece::Knight => {
                                assert(member(ka, from) && member(
                                    knights,
                                    from,
                                ));
                            },
                            BBPiece::Bishop => {
                                assert(member(ba, from) && member(bishops, from));
                            },
                            BBPiece::Rook => {
                                assert(member(ra, from) && member(rooks, from));
                            },
                            BBPiece::Queen => {
                                assert(member(queens, from));
                                assert(member(ra, from) || member(ba, from));
                            },
                            BBPiece::King => {
                                assert(member(ga, from) && member(kings, from));
                            },
                            _ => {},
                        }
                    }
                }
            }
        }
        r
    }

    /// Whether some piece of the side to move attacks `square`.
    pub fn square_is_attacked(&self, square: usize) -> (r: bool)
        requires
            self.bitboards_ok(),
            square < 64,
        ensures
            r == self@.attacked(square as int),
    {
        self.square_attacked_by(square, self.move_color == 1)
    }

    /// Whether the king of colour `white` is attacked by the other side.
    pub fn king_attacked_by_other(&self, white: bool) -> (r: bool)
        requires
            self.bitboards_ok(),
        ensures
            r == self@.king_attacked_by_other(white),
    {
        let ghost p = self@;
        let mut kings = self.pieces_of(white, BBPiece::King);
        let ghost all = kings;
        let k = bb_gs_low_bit(&mut kings);
        proof {
            assert forall|s: int| 0 <= s < 64 implies #[trigger] p.holds(s, white, BBPiece::King)
                == member(all, s) by {
                assert(p.squares[s] == self.spec_piece_at(s));
            }
        }
        if k == 64 {
            proof {
                lemma_zero_iff_empty(all);
                assert forall|j: int| !#[trigger] p.is_king_square(j, white) by {}
            }
            return false;
        }
        let r = self.square_attacked_by(k, !white);
        proof {
            assert(p.is_king_square(k as int, white));
            assert forall|j: int| #[trigger] p.is_king_square(j, white) implies j == k by {
                if j < k {
                    assert(!member(all, j));
                } else if j > k {
                    assert(p.holds(k as int, white, BBPiece::King));
                }
            }
        }
        r
    }

    /// Whether the move just made was illegal: whether the side now to move
    /// attacks the king of the side that moved, or a square that a castling
    /// king started on or passed over.
    pub fn king_is_attacked(&self) -> (r: bool)
        requires
            self.bitboards_ok(),
        ensures
            r == self@.king_is_attacked(),
    {
        let white = self.move_color == 1;
        let n = self.move_history.len();
        if n > 0 {
            let m = self.move_history[n - 1];
            let flags = m.flags();
            if flags == 2 || flags == 3 {
                let from = m.from_square();
                let to = m.to_square();
                if from == 4 && to == 6 {
                    if self.square_is_attacked(4) || self.square_is_attacked(5) {
                        return true;
                    }
                } else if from == 4 && to == 2 {
                    if self.square_is_attacked(4) || self.square_is_attacked(3) {
                        return true;
                    }
                } else if from == 60 && to == 62 {
                    if self.square_is_attacked(60) || self.square_is_attacked(61) {
                        return true;
                    }
                } else if from == 60 && to == 58 {
                    if self.square_is_attacked(60) || self.square_is_attacked(59) {
                        return true;
                    }
                }
            }
        }
        self.king_attacked_by_other(!white)
    }

    /// Whether the position is drawn: a hundred half-moves without capture
    /// or pawn move, or a position of the history with the same hash.
    pub fn is_draw(&self) -> (r: bool)
        ensures
            r == self@.is_draw(),
    {
        if self.halfmove_clock >= 100 {
            return true;
        }
        let mut i: usize = self.position_history.len();
        while i > 0
            invariant
                i <= self.position_history@.len(),
                forall|j: int|
                    i <= j < self.position_history@.len() ==> self.position_history@[j]
                        != self.zobrist_hash,
            decreases i,
        {
            i -= 1;
            if self.position_history[i] == self.zobrist_hash {
                assert(self@.hashes[i as int] == self@.hash);
                return true;
            }
        }
        false
    }
}

/// Whether the side to move is in check.
pub fn is_check(board: &Board) -> (r: bool)
    requires
        board.bitboards_ok(),
    ensures
        r == board@.in_check(),
{
    board.king_attacked_by_other(board.move_color == 1)
}

} // verus!
