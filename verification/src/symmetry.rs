//! The symmetry of the evaluation between White and Black.
//!
//! The mirror image of a position has each piece on the square across
//! the middle of the board, in the other colour, and the other side to
//! move. What one side is worth in a position, the other is worth in its
//! mirror image.

use vstd::prelude::*;
use crate::bits::{
    member,
    popcount,
    count_below,
    sum_members,
    lowest_from,
    lemma_bits_equal,
    lemma_bit_ops,
    lemma_lowest,
};
use crate::square::BBPiece;
use crate::position::{Position, Piece, bb_of, lemma_bb_of, piece_attacks, hash_below, state_hash};
use crate::attacks::{
    ray_square,
    ray_clear,
    ray_reaches,
    rook_reaches,
    bishop_reaches,
    knight_reaches,
    king_reaches,
};
use crate::eval::{
    count,
    spec_phase,
    material_term,
    spec_material,
    mobility_count,
    mobility_term,
    spec_mobility,
};
use crate::params::EngineParams;
use crate::eval::{
    part,
    king_square,
    king_corner_distance,
    spec_king_edge,
    king_zone,
    lemma_king_zone,
    zone_hits,
    hits_of,
    attackers_of,
    closest_pawn,
    shelter,
    zone_attackers,
    attack_units,
    side_safety,
    spec_king_safety,
    advance_weight,
    advance_sum,
    blocks,
    passed_over,
    guarded,
    passed_bonus,
    passed_sum,
    file_mask,
    file_count,
    file_penalties,
    pawn_side,
    spec_pawn_structure,
    spec_total,
    spec_evaluate,
    lemma_file_mask,
};
use crate::params::spec_taper;

verus! {

/// The square across the middle of the board: same file, rank counted
/// from the other side.
pub open spec fn flip_sq(s: int) -> int {
    (7 - s / 8) * 8 + s % 8
}

/// Whether the square across the middle from `s` is a member of `bb`.
pub open spec fn flipped_member(bb: u64, s: int) -> bool {
    member(bb, flip_sq(s))
}

/// The set of the squares across the middle from the members of `bb`.
pub open spec fn flipped(bb: u64) -> u64 {
    bb_of(|s: int| flipped_member(bb, s), 64)
}

/// The members of a flipped set.
pub proof fn lemma_flipped(bb: u64)
    ensures
        forall|s: int| 0 <= s < 64 ==> #[trigger] member(flipped(bb), s) == member(bb, flip_sq(s)),
        flipped(flipped(bb)) == bb,
{
    lemma_bb_of(|s: int| flipped_member(bb, s), 64);
    let once = flipped(bb);
    lemma_bb_of(|s: int| flipped_member(once, s), 64);
    assert forall|s: int| 0 <= s < 64 implies member(flipped(once), s) == member(bb, s) by {
        assert(flip_sq(flip_sq(s)) == s);
        assert(member(flipped(once), s) == member(once, flip_sq(s)));
    }
    lemma_bits_equal(flipped(once), bb);
}

/// The sum of `f` over the members of `bb` on rank `r`.
pub open spec fn rank_sum(bb: u64, f: spec_fn(int) -> int, r: int) -> int {
    sum_members(bb, f, 8 * r + 8) - sum_members(bb, f, 8 * r)
}

/// The term that a square adds to a sum.
pub open spec fn term(bb: u64, f: spec_fn(int) -> int, s: int) -> int {
    if member(bb, s) {
        f(s)
    } else {
        0
    }
}

/// The sum over a rank is the sum of the terms of its eight squares.
pub proof fn lemma_rank_sum(bb: u64, f: spec_fn(int) -> int, r: int)
    requires
        0 <= r < 8,
    ensures
        rank_sum(bb, f, r) == term(bb, f, 8 * r) + term(bb, f, 8 * r + 1) + term(bb, f, 8 * r + 2)
            + term(bb, f, 8 * r + 3) + term(bb, f, 8 * r + 4) + term(bb, f, 8 * r + 5) + term(
            bb,
            f,
            8 * r + 6,
        ) + term(bb, f, 8 * r + 7),
{
    reveal_with_fuel(sum_members, 9);
}

/// A sum over the board is the sum of the sums over its ranks.
pub proof fn lemma_sum_by_ranks(bb: u64, f: spec_fn(int) -> int)
    ensures
        sum_members(bb, f, 64) == rank_sum(bb, f, 0) + rank_sum(bb, f, 1) + rank_sum(bb, f, 2)
            + rank_sum(bb, f, 3) + rank_sum(bb, f, 4) + rank_sum(bb, f, 5) + rank_sum(bb, f, 6)
            + rank_sum(bb, f, 7),
{
    assert(sum_members(bb, f, 0) == 0);
}

/// A sum over a flipped set of a function that gives each square what
/// another function gives the square across the middle is the sum of that
/// other function over the set itself.
pub proof fn lemma_sum_flip(bb: u64, f: spec_fn(int) -> int, g: spec_fn(int) -> int)
    requires
        forall|s: int| 0 <= s < 64 ==> #[trigger] g(s) == f(flip_sq(s)),
    ensures
        sum_members(flipped(bb), g, 64) == sum_members(bb, f, 64),
{
    let fb = flipped(bb);
    lemma_flipped(bb);
    lemma_sum_by_ranks(bb, f);
    lemma_sum_by_ranks(fb, g);
    assert forall|r: int| 0 <= r < 8 implies #[trigger] rank_sum(fb, g, r) == rank_sum(
        bb,
        f,
        7 - r,
    ) by {
        lemma_rank_sum(fb, g, r);
        lemma_rank_sum(bb, f, 7 - r);
        assert forall|c: int| 0 <= c < 8 implies #[trigger] term(fb, g, 8 * r + c) == term(
            bb,
            f,
            8 * (7 - r) + c,
        ) by {
            let s = 8 * r + c;
            assert(flip_sq(s) == 8 * (7 - r) + c);
            assert(member(fb, s) == member(bb, flip_sq(s)));
            assert(g(s) == f(flip_sq(s)));
        }
        assert(term(fb, g, 8 * r + 0) == term(bb, f, 8 * (7 - r) + 0));
        assert(term(fb, g, 8 * r + 1) == term(bb, f, 8 * (7 - r) + 1));
        assert(term(fb, g, 8 * r + 2) == term(bb, f, 8 * (7 - r) + 2));
        assert(term(fb, g, 8 * r + 3) == term(bb, f, 8 * (7 - r) + 3));
        assert(term(fb, g, 8 * r + 4) == term(bb, f, 8 * (7 - r) + 4));
        assert(term(fb, g, 8 * r + 5) == term(bb, f, 8 * (7 - r) + 5));
        assert(term(fb, g, 8 * r + 6) == term(bb, f, 8 * (7 - r) + 6));
        assert(term(fb, g, 8 * r + 7) == term(bb, f, 8 * (7 - r) + 7));
    }
    assert(rank_sum(fb, g, 0) == rank_sum(bb, f, 7));
    assert(rank_sum(fb, g, 1) == rank_sum(bb, f, 6));
    assert(rank_sum(fb, g, 2) == rank_sum(bb, f, 5));
    assert(rank_sum(fb, g, 3) == rank_sum(bb, f, 4));
    assert(rank_sum(fb, g, 4) == rank_sum(bb, f, 3));
    assert(rank_sum(fb, g, 5) == rank_sum(bb, f, 2));
    assert(rank_sum(fb, g, 6) == rank_sum(bb, f, 1));
    assert(rank_sum(fb, g, 7) == rank_sum(bb, f, 0));
}

/// The constant function one.
pub open spec fn one(s: int) -> int {
    1
}

/// A population count is the sum of ones over the members.
pub proof fn lemma_count_is_sum(bb: u64, n: int)
    requires
        0 <= n <= 64,
    ensures
        count_below(bb, n) == sum_members(bb, |s: int| one(s), n),
    decreases n,
{
    if n > 0 {
        lemma_count_is_sum(bb, n - 1);
    }
}

/// A flipped set has as many members as the set.
pub proof fn lemma_popcount_flip(bb: u64)
    ensures
        popcount(flipped(bb)) == popcount(bb),
{
    lemma_count_is_sum(bb, 64);
    lemma_count_is_sum(flipped(bb), 64);
    lemma_sum_flip(bb, |s: int| one(s), |s: int| one(s));
}

/// The piece in the other colour.
pub open spec fn mirror_piece(pc: Option<Piece>) -> Option<Piece> {
    match pc {
        Some(q) => Some(Piece { white: !q.white, kind: q.kind }),
        None => None,
    }
}

/// What stands on `s` in the mirror image of a position.
pub open spec fn mirror_square(p: Position, s: int) -> Option<Piece> {
    mirror_piece(p.squares[flip_sq(s)])
}

/// The mirror image of a position: each piece on the square across the
/// middle in the other colour, the other side to move, the castling
/// rights and the en-passant square carried over, and no history.
pub open spec fn mirror(p: Position) -> Position {
    let squares = Seq::new(64, |s: int| mirror_square(p, s));
    let castling = seq![p.castling[2], p.castling[3], p.castling[0], p.castling[1]];
    let ep = match p.ep {
        Some(e) => Some(flip_sq(e as int) as usize),
        None => None,
    };
    Position {
        squares: squares,
        white_to_move: !p.white_to_move,
        castling: castling,
        ep: ep,
        halfmove: p.halfmove,
        fullmove: p.fullmove,
        hash: hash_below(squares, 64, false) ^ state_hash(castling, ep, !p.white_to_move),
        pawn_hash: hash_below(squares, 64, true),
        states: Seq::empty(),
        moves: Seq::empty(),
        captures: Seq::empty(),
        hashes: Seq::empty(),
    }
}

/// The pieces of one side in the mirror image are the pieces of the other
/// side, flipped; and so are the occupied squares.
pub proof fn lemma_mirror_pieces(p: Position, white: bool, kind: BBPiece)
    requires
        p.squares.len() == 64,
    ensures
        forall|s: int|
            0 <= s < 64 ==> #[trigger] mirror(p).holds(s, white, kind) == p.holds(
                flip_sq(s),
                !white,
                kind,
            ),
        mirror(p).pieces(white, kind) == flipped(p.pieces(!white, kind)),
        mirror(p).occupancy() == flipped(p.occupancy()),
        count(mirror(p), white, kind) == count(p, !white, kind),
{
    let q = mirror(p);
    assert forall|s: int| 0 <= s < 64 implies #[trigger] q.holds(s, white, kind) == p.holds(
        flip_sq(s),
        !white,
        kind,
    ) by {
        assert(q.squares[s] == mirror_square(p, s));
    }
    lemma_bb_of(|s: int| q.holds(s, white, kind), 64);
    lemma_bb_of(|s: int| p.holds(s, !white, kind), 64);
    lemma_flipped(p.pieces(!white, kind));
    lemma_bits_equal(q.pieces(white, kind), flipped(p.pieces(!white, kind)));
    lemma_bb_of(|s: int| q.squares[s] is Some, 64);
    lemma_bb_of(|s: int| p.squares[s] is Some, 64);
    lemma_flipped(p.occupancy());
    assert forall|s: int| 0 <= s < 64 implies member(q.occupancy(), s) == member(
        flipped(p.occupancy()),
        s,
    ) by {
        assert(q.squares[s] == mirror_square(p, s));
    }
    lemma_bits_equal(q.occupancy(), flipped(p.occupancy()));
    lemma_popcount_flip(p.pieces(!white, kind));
}

/// The square across the middle, or -1 for what is off the board.
pub open spec fn flip_or_off(s: int) -> int {
    if 0 <= s < 64 {
        flip_sq(s)
    } else {
        -1
    }
}

/// The file and the rank of the square across the middle.
pub proof fn lemma_flip_sq(s: int)
    requires
        0 <= s < 64,
    ensures
        0 <= flip_sq(s) < 64,
        flip_sq(s) % 8 == s % 8,
        flip_sq(s) / 8 == 7 - s / 8,
        flip_sq(flip_sq(s)) == s,
{
}

/// A square of a ray seen across the middle.
pub proof fn lemma_ray_square_flip(s: int, k: int, sf: int, sr: int)
    requires
        0 <= s < 64,
        1 <= k < 8,
        -1 <= sf <= 1,
        -1 <= sr <= 1,
    ensures
        ray_square(flip_sq(s), k, sf, -sr) == flip_or_off(ray_square(s, k, sf, sr)),
        -1 <= ray_square(s, k, sf, sr) < 64,
{
    lemma_flip_sq(s);
    let f = s % 8 + crate::attacks::step_mul(k, sf);
    let r = s / 8 + crate::attacks::step_mul(k, sr);
    assert(crate::attacks::step_mul(k, -sr) == -crate::attacks::step_mul(k, sr));
    if 0 <= f < 8 && 0 <= r < 8 {
        let a = r * 8 + f;
        assert(a % 8 == f && a / 8 == r);
        assert(ray_square(s, k, sf, sr) == a);
        assert(ray_square(flip_sq(s), k, sf, -sr) == (7 - r) * 8 + f);
    } else {
        assert(ray_square(s, k, sf, sr) == -1);
        assert(ray_square(flip_sq(s), k, sf, -sr) == -1);
    }
}

/// A stretch of a ray is clear exactly when it is clear seen across the
/// middle.
pub proof fn lemma_ray_clear_flip(s: int, k: int, occ: u64, sf: int, sr: int)
    requires
        0 <= s < 64,
        1 <= k <= 8,
        -1 <= sf <= 1,
        -1 <= sr <= 1,
    ensures
        ray_clear(flip_sq(s), k, flipped(occ), sf, -sr) == ray_clear(s, k, occ, sf, sr),
{
    lemma_flipped(occ);
    let fs = flip_sq(s);
    let focc = flipped(occ);
    if ray_clear(s, k, occ, sf, sr) {
        assert forall|j: int| 1 <= j < k implies !member(
            focc,
            #[trigger] ray_square(fs, j, sf, -sr),
        ) by {
            let a = ray_square(s, j, sf, sr);
            lemma_ray_square_flip(s, j, sf, sr);
            assert(!member(occ, a));
            if 0 <= a < 64 {
                lemma_flip_sq(a);
            }
        }
    }
    if ray_clear(fs, k, focc, sf, -sr) {
        assert forall|j: int| 1 <= j < k implies !member(occ, #[trigger] ray_square(s, j, sf, sr)) by {
            let a = ray_square(s, j, sf, sr);
            let b = ray_square(fs, j, sf, -sr);
            lemma_ray_square_flip(s, j, sf, sr);
            assert(!member(focc, b));
            if 0 <= a < 64 {
                lemma_flip_sq(a);
            }
        }
    }
}

/// A ray seen across the middle runs the other way along the files.
pub proof fn lemma_ray_flip(s: int, t: int, occ: u64, sf: int, sr: int)
    requires
        0 <= s < 64,
        0 <= t < 64,
        -1 <= sf <= 1,
        -1 <= sr <= 1,
    ensures
        ray_reaches(flip_sq(s), flip_sq(t), flipped(occ), sf, -sr) == ray_reaches(s, t, occ, sf, sr),
{
    let fs = flip_sq(s);
    let ft = flip_sq(t);
    let focc = flipped(occ);
    lemma_flip_sq(s);
    lemma_flip_sq(t);
    if ray_reaches(s, t, occ, sf, sr) {
        let k = choose|k: int|
            1 <= k < 8 && #[trigger] ray_square(s, k, sf, sr) == t && ray_clear(s, k, occ, sf, sr);
        lemma_ray_square_flip(s, k, sf, sr);
        lemma_ray_clear_flip(s, k, occ, sf, sr);
        assert(ray_square(fs, k, sf, -sr) == ft && ray_clear(fs, k, focc, sf, -sr));
    }
    if ray_reaches(fs, ft, focc, sf, -sr) {
        let k = choose|k: int|
            1 <= k < 8 && #[trigger] ray_square(fs, k, sf, -sr) == ft && ray_clear(
                fs,
                k,
                focc,
                sf,
                -sr,
            );
        lemma_ray_square_flip(s, k, sf, sr);
        lemma_ray_clear_flip(s, k, occ, sf, sr);
        let a = ray_square(s, k, sf, sr);
        if 0 <= a < 64 {
            lemma_flip_sq(a);
        }
        assert(ray_square(s, k, sf, sr) == t && ray_clear(s, k, occ, sf, sr));
    }
}

/// Rook attacks seen across the middle.
pub proof fn lemma_rook_flip(s: int, t: int, occ: u64)
    requires
        0 <= s < 64,
        0 <= t < 64,
    ensures
        rook_reaches(flip_sq(s), flip_sq(t), flipped(occ)) == rook_reaches(s, t, occ),
{
    lemma_ray_flip(s, t, occ, 1, 0);
    lemma_ray_flip(s, t, occ, -1, 0);
    lemma_ray_flip(s, t, occ, 0, 1);
    lemma_ray_flip(s, t, occ, 0, -1);
}

/// Bishop attacks seen across the middle.
pub proof fn lemma_bishop_flip(s: int, t: int, occ: u64)
    requires
        0 <= s < 64,
        0 <= t < 64,
    ensures
        bishop_reaches(flip_sq(s), flip_sq(t), flipped(occ)) == bishop_reaches(s, t, occ),
{
    lemma_ray_flip(s, t, occ, 1, 1);
    lemma_ray_flip(s, t, occ, -1, -1);
    lemma_ray_flip(s, t, occ, 1, -1);
    lemma_ray_flip(s, t, occ, -1, 1);
}

/// Knight and king attacks seen across the middle.
pub proof fn lemma_leaper_flip(s: int, t: int)
    requires
        0 <= s < 64,
        0 <= t < 64,
    ensures
        knight_reaches(flip_sq(s), flip_sq(t)) == knight_reaches(s, t),
        king_reaches(flip_sq(s), flip_sq(t)) == king_reaches(s, t),
{
    lemma_flip_sq(s);
    lemma_flip_sq(t);
}

/// What a piece that is no pawn attacks, it attacks across the middle
/// too, whatever its colour.
pub proof fn lemma_attacks_flip(white: bool, other: bool, kind: BBPiece, s: int, t: int, occ: u64)
    requires
        0 <= s < 64,
        0 <= t < 64,
        kind != BBPiece::Pawn,
    ensures
        piece_attacks(Piece { white: other, kind: kind }, flip_sq(s), flip_sq(t), flipped(occ))
            == piece_attacks(Piece { white: white, kind: kind }, s, t, occ),
{
    match kind {
        BBPiece::Knight => {
            lemma_leaper_flip(s, t);
        },
        BBPiece::King => {
            lemma_leaper_flip(s, t);
        },
        BBPiece::Rook => {
            lemma_rook_flip(s, t, occ);
        },
        BBPiece::Bishop => {
            lemma_bishop_flip(s, t, occ);
        },
        BBPiece::Queen => {
            lemma_rook_flip(s, t, occ);
            lemma_bishop_flip(s, t, occ);
        },
        _ => {},
    }
}

/// The squares that a piece attacks in the mirror image, and those it can
/// go to, are those of the piece across the middle, flipped.
pub proof fn lemma_mirror_targets(p: Position, white: bool, kind: BBPiece, s: int)
    requires
        p.squares.len() == 64,
        0 <= s < 64,
        kind != BBPiece::Pawn,
    ensures
        mirror(p).attack_set(white, kind, s) == flipped(p.attack_set(!white, kind, flip_sq(s))),
        mirror(p).targets(white, kind, s) == flipped(p.targets(!white, kind, flip_sq(s))),
        popcount(mirror(p).targets(white, kind, s)) == popcount(
            p.targets(!white, kind, flip_sq(s)),
        ),
{
    let q = mirror(p);
    lemma_mirror_pieces(p, white, kind);
    let fs = flip_sq(s);
    let a = p.attack_set(!white, kind, fs);
    let b = p.targets(!white, kind, fs);
    lemma_flipped(a);
    lemma_flipped(b);
    lemma_bb_of(|t: int| attacks_pred(q, white, kind, s, t), 64);
    lemma_bb_of(|t: int| attacks_pred(p, !white, kind, fs, t), 64);
    lemma_bb_of(|t: int| targets_pred(q, white, kind, s, t), 64);
    lemma_bb_of(|t: int| targets_pred(p, !white, kind, fs, t), 64);
    lemma_attack_preds(q, white, kind, s);
    lemma_attack_preds(p, !white, kind, fs);
    assert forall|t: int| 0 <= t < 64 implies member(q.attack_set(white, kind, s), t) == member(
        flipped(a),
        t,
    ) && member(q.targets(white, kind, s), t) == member(flipped(b), t) by {
        let ft = flip_sq(t);
        assert(flip_sq(fs) == s);
        assert(flip_sq(ft) == t);
        lemma_attacks_flip(!white, white, kind, fs, ft, p.occupancy());
        assert(q.squares[t] == mirror_square(p, t));
    }
    lemma_bits_equal(q.attack_set(white, kind, s), flipped(a));
    lemma_bits_equal(q.targets(white, kind, s), flipped(b));
    lemma_popcount_flip(b);
}

/// Whether the piece of the given colour and kind on `s` attacks `t`.
pub open spec fn attacks_pred(p: Position, white: bool, kind: BBPiece, s: int, t: int) -> bool {
    piece_attacks(Piece { white: white, kind: kind }, s, t, p.occupancy())
}

/// Whether the piece of the given colour and kind on `s` can go to `t`.
pub open spec fn targets_pred(p: Position, white: bool, kind: BBPiece, s: int, t: int) -> bool {
    piece_attacks(Piece { white: white, kind: kind }, s, t, p.occupancy()) && !(
    p.squares[t] matches Some(q) && q.white == white)
}

/// The members of the attack set and of the target set of a piece.
pub proof fn lemma_attack_preds(p: Position, white: bool, kind: BBPiece, s: int)
    ensures
        forall|t: int|
            0 <= t < 64 ==> #[trigger] member(p.attack_set(white, kind, s), t) == attacks_pred(
                p,
                white,
                kind,
                s,
                t,
            ),
        forall|t: int|
            0 <= t < 64 ==> #[trigger] member(p.targets(white, kind, s), t) == targets_pred(
                p,
                white,
                kind,
                s,
                t,
            ),
{
    lemma_bb_of(
        |t: int| piece_attacks(Piece { white: white, kind: kind }, s, t, p.occupancy()),
        64,
    );
    lemma_bb_of(
        |t: int|
            piece_attacks(Piece { white: white, kind: kind }, s, t, p.occupancy()) && !(
            p.squares[t] matches Some(q) && q.white == white),
        64,
    );
}

/// The product with a difference turned around is the negated product.
pub proof fn lemma_neg_product(a: int, x: int, y: int)
    ensures
        a * (x - y) == -(a * (y - x)),
{
    assert(a * (x - y) == -(a * (y - x))) by (nonlinear_arith);
}

/// The material of the mirror image is the material negated, and the
/// phase is the same.
pub proof fn lemma_mirror_material(p: Position, params: EngineParams, eg: bool)
    requires
        p.squares.len() == 64,
    ensures
        spec_material(mirror(p), params, eg) == -spec_material(p, params, eg),
        spec_phase(mirror(p)) == spec_phase(p),
{
    let q = mirror(p);
    assert forall|slot: int| 2 <= slot < 8 implies #[trigger] material_term(q, params, slot, eg)
        == -material_term(p, params, slot, eg) by {
        let kind = BBPiece::spec_kind(slot);
        lemma_mirror_pieces(p, true, kind);
        lemma_mirror_pieces(p, false, kind);
        lemma_neg_product(
            crate::eval::part(params.piece_values[slot], eg),
            count(p, false, kind),
            count(p, true, kind),
        );
    }
    assert(material_term(q, params, 2, eg) == -material_term(p, params, 2, eg));
    assert(material_term(q, params, 3, eg) == -material_term(p, params, 3, eg));
    assert(material_term(q, params, 4, eg) == -material_term(p, params, 4, eg));
    assert(material_term(q, params, 5, eg) == -material_term(p, params, 5, eg));
    assert(material_term(q, params, 6, eg) == -material_term(p, params, 6, eg));
    assert(material_term(q, params, 7, eg) == -material_term(p, params, 7, eg));
    lemma_mirror_pieces(p, true, BBPiece::Knight);
    lemma_mirror_pieces(p, false, BBPiece::Knight);
    lemma_mirror_pieces(p, true, BBPiece::Bishop);
    lemma_mirror_pieces(p, false, BBPiece::Bishop);
    lemma_mirror_pieces(p, true, BBPiece::Rook);
    lemma_mirror_pieces(p, false, BBPiece::Rook);
    lemma_mirror_pieces(p, true, BBPiece::Queen);
    lemma_mirror_pieces(p, false, BBPiece::Queen);
}

/// The pieces of one side have in the mirror image the mobility that the
/// pieces of the other side have in the position.
pub proof fn lemma_mirror_mobility_count(p: Position, white: bool, kind: BBPiece)
    requires
        p.squares.len() == 64,
        kind != BBPiece::Pawn,
    ensures
        mobility_count(mirror(p), white, kind) == mobility_count(p, !white, kind),
{
    let q = mirror(p);
    lemma_mirror_pieces(p, white, kind);
    let f = |s: int| popcount(p.targets(!white, kind, s)) as int;
    let g = |s: int| popcount(q.targets(white, kind, s)) as int;
    assert forall|s: int| 0 <= s < 64 implies #[trigger] g(s) == f(flip_sq(s)) by {
        lemma_mirror_targets(p, white, kind, s);
    }
    lemma_sum_flip(p.pieces(!white, kind), f, g);
}

/// The mobility of the mirror image is the mobility negated.
pub proof fn lemma_mirror_mobility(p: Position, params: EngineParams, eg: bool)
    requires
        p.squares.len() == 64,
    ensures
        spec_mobility(mirror(p), params, eg) == -spec_mobility(p, params, eg),
{
    let q = mirror(p);
    assert forall|slot: int| 3 <= slot < 8 implies #[trigger] mobility_term(q, params, slot, eg)
        == -mobility_term(p, params, slot, eg) by {
        let kind = BBPiece::spec_kind(slot);
        lemma_mirror_mobility_count(p, true, kind);
        lemma_mirror_mobility_count(p, false, kind);
        lemma_neg_product(
            crate::eval::part(params.mobility_values[slot], eg),
            mobility_count(p, false, kind),
            mobility_count(p, true, kind),
        );
    }
    assert(mobility_term(q, params, 3, eg) == -mobility_term(p, params, 3, eg));
    assert(mobility_term(q, params, 4, eg) == -mobility_term(p, params, 4, eg));
    assert(mobility_term(q, params, 5, eg) == -mobility_term(p, params, 5, eg));
    assert(mobility_term(q, params, 6, eg) == -mobility_term(p, params, 6, eg));
    assert(mobility_term(q, params, 7, eg) == -mobility_term(p, params, 7, eg));
}

/// Whether a side has at most one king.
pub open spec fn single_king(p: Position, white: bool) -> bool {
    forall|a: int, b: int|
        #![trigger p.holds(a, white, BBPiece::King), p.holds(b, white, BBPiece::King)]
        p.holds(a, white, BBPiece::King) && p.holds(b, white, BBPiece::King) ==> a == b
}

/// What the lowest member of a set is.
pub proof fn lemma_lowest_from(bb: u64, i: int)
    requires
        0 <= i <= 64,
    ensures
        i <= lowest_from(bb, i) <= 64,
        lowest_from(bb, i) < 64 ==> member(bb, lowest_from(bb, i)),
        forall|s: int| i <= s < lowest_from(bb, i) ==> !member(bb, s),
    decreases 64 - i,
{
    if i < 64 && !member(bb, i) {
        lemma_lowest_from(bb, i + 1);
    }
}

/// The king of one side stands in the mirror image across the middle
/// from where the king of the other side stands in the position.
pub proof fn lemma_mirror_king(p: Position, white: bool)
    requires
        p.squares.len() == 64,
        single_king(p, !white),
    ensures
        king_square(mirror(p), white) == (if king_square(p, !white) >= 64 {
            64
        } else {
            flip_sq(king_square(p, !white))
        }),
        0 <= king_square(p, !white) <= 64,
        king_square(p, !white) < 64 ==> p.holds(king_square(p, !white), !white, BBPiece::King),
{
    let q = mirror(p);
    let bb = p.pieces(!white, BBPiece::King);
    let fb = q.pieces(white, BBPiece::King);
    lemma_mirror_pieces(p, white, BBPiece::King);
    lemma_flipped(bb);
    lemma_bb_of(|s: int| p.holds(s, !white, BBPiece::King), 64);
    lemma_lowest_from(bb, 0);
    let k0 = lowest_from(bb, 0);
    if k0 >= 64 {
        assert forall|s: int| 0 <= s < 64 implies !member(fb, s) by {
            lemma_flip_sq(s);
        }
        lemma_lowest(fb, 64, 0);
    } else {
        lemma_flip_sq(k0);
        let fk = flip_sq(k0);
        assert(p.holds(k0, !white, BBPiece::King));
        assert(member(fb, fk));
        assert forall|s: int| 0 <= s < fk implies !member(fb, s) by {
            lemma_flip_sq(s);
            if member(fb, s) {
                assert(p.holds(flip_sq(s), !white, BBPiece::King));
            }
        }
        lemma_lowest(fb, fk, 0);
    }
}

/// The king-edge score of the mirror image is the king-edge score
/// negated.
pub proof fn lemma_mirror_king_edge(p: Position, params: EngineParams, eg: bool)
    requires
        p.squares.len() == 64,
        single_king(p, true),
        single_king(p, false),
    ensures
        spec_king_edge(mirror(p), params, eg) == -spec_king_edge(p, params, eg),
{
    lemma_mirror_king(p, true);
    lemma_mirror_king(p, false);
    let kw = king_square(p, true);
    let kb = king_square(p, false);
    if kw < 64 {
        lemma_flip_sq(kw);
    }
    if kb < 64 {
        lemma_flip_sq(kb);
    }
    lemma_neg_product(
        part(params.king_center_bonus, eg),
        king_corner_distance(p, false),
        king_corner_distance(p, true),
    );
}

/// The set whose members are the common members of two sets.
pub proof fn lemma_and_flip(a: u64, b: u64)
    ensures
        flipped(a) & flipped(b) == flipped(a & b),
        popcount(flipped(a) & flipped(b)) == popcount(a & b),
{
    lemma_bit_ops();
    lemma_flipped(a);
    lemma_flipped(b);
    lemma_flipped(a & b);
    assert forall|s: int| 0 <= s < 64 implies member(flipped(a) & flipped(b), s) == member(
        flipped(a & b),
        s,
    ) by {
        lemma_flip_sq(s);
        assert(member(flipped(a) & flipped(b), s) == (member(flipped(a), s) && member(
            flipped(b),
            s,
        )));
        assert(member(a & b, flip_sq(s)) == (member(a, flip_sq(s)) && member(b, flip_sq(s))));
    }
    lemma_bits_equal(flipped(a) & flipped(b), flipped(a & b));
    lemma_popcount_flip(a & b);
}

/// The zone of a king across the middle is the zone of the king,
/// flipped.
pub proof fn lemma_zone_flip(king: int)
    requires
        0 <= king < 64,
    ensures
        king_zone(flip_sq(king)) == flipped(king_zone(king)),
{
    lemma_king_zone(king);
    lemma_king_zone(flip_sq(king));
    lemma_flipped(king_zone(king));
    lemma_flip_sq(king);
    assert forall|s: int| 0 <= s < 64 implies member(king_zone(flip_sq(king)), s) == member(
        flipped(king_zone(king)),
        s,
    ) by {
        lemma_flip_sq(s);
        lemma_leaper_flip(king, flip_sq(s));
    }
    lemma_bits_equal(king_zone(flip_sq(king)), flipped(king_zone(king)));
}

/// What a piece attacks of the zone of a king, the piece across the
/// middle attacks of the zone of the king across the middle.
pub proof fn lemma_mirror_zone_hits(p: Position, white: bool, kind: BBPiece, s: int, king: int)
    requires
        p.squares.len() == 64,
        0 <= s < 64,
        0 <= king < 64,
        kind != BBPiece::Pawn,
    ensures
        zone_hits(mirror(p), white, kind, s, flip_sq(king)) == zone_hits(
            p,
            !white,
            kind,
            flip_sq(s),
            king,
        ),
{
    lemma_mirror_targets(p, white, kind, s);
    lemma_zone_flip(king);
    lemma_and_flip(p.attack_set(!white, kind, flip_sq(s)), king_zone(king));
}

/// The attacks on the zone of a king, seen across the middle.
pub proof fn lemma_mirror_hits(p: Position, white: bool, kind: BBPiece, king: int)
    requires
        p.squares.len() == 64,
        0 <= king < 64,
        kind != BBPiece::Pawn,
    ensures
        hits_of(mirror(p), white, kind, flip_sq(king)) == hits_of(p, !white, kind, king),
        attackers_of(mirror(p), white, kind, flip_sq(king)) == attackers_of(p, !white, kind, king),
{
    let q = mirror(p);
    let fk = flip_sq(king);
    lemma_mirror_pieces(p, white, kind);
    let f = |s: int| zone_hits(p, !white, kind, s, king);
    let g = |s: int| zone_hits(q, white, kind, s, fk);
    assert forall|s: int| 0 <= s < 64 implies #[trigger] g(s) == f(flip_sq(s)) by {
        lemma_mirror_zone_hits(p, white, kind, s, king);
    }
    lemma_sum_flip(p.pieces(!white, kind), f, g);
    let fa = |s: int|
        if zone_hits(p, !white, kind, s, king) > 0 {
            1int
        } else {
            0int
        };
    let ga = |s: int|
        if zone_hits(q, white, kind, s, fk) > 0 {
            1int
        } else {
            0int
        };
    assert forall|s: int| 0 <= s < 64 implies #[trigger] ga(s) == fa(flip_sq(s)) by {
        lemma_mirror_zone_hits(p, white, kind, s, king);
    }
    lemma_sum_flip(p.pieces(!white, kind), fa, ga);
}

/// How far a square of a file is from a rank.
pub open spec fn rank_distance(r: int, krank: int) -> int {
    if r >= krank {
        r - krank
    } else {
        krank - r
    }
}

/// What the distance of the nearest pawn is: at most the distance of
/// every pawn of the file below rank `n`, and the distance of one of
/// them, or 8 when there is none.
pub proof fn lemma_closest_pawn(pawns: u64, file: int, krank: int, n: int)
    requires
        0 <= n <= 8,
        0 <= krank < 8,
    ensures
        0 <= closest_pawn(pawns, file, krank, n) <= 8,
        forall|r: int|
            0 <= r < n && member(pawns, r * 8 + file) ==> closest_pawn(pawns, file, krank, n)
                <= #[trigger] rank_distance(r, krank),
        closest_pawn(pawns, file, krank, n) == 8 || exists|r: int|
            0 <= r < n && member(pawns, r * 8 + file) && closest_pawn(pawns, file, krank, n)
                == #[trigger] rank_distance(r, krank),
    decreases n,
{
    if n > 0 {
        lemma_closest_pawn(pawns, file, krank, n - 1);
        let prev = closest_pawn(pawns, file, krank, n - 1);
        let d = rank_distance(n - 1, krank);
        let c = closest_pawn(pawns, file, krank, n);
        if member(pawns, (n - 1) * 8 + file) && d < prev {
            assert(c == d);
            assert(member(pawns, (n - 1) * 8 + file) && c == rank_distance(n - 1, krank));
        } else {
            assert(c == prev);
            if prev != 8 {
                let r = choose|r: int|
                    0 <= r < n - 1 && member(pawns, r * 8 + file) && prev == #[trigger] rank_distance(
                        r,
                        krank,
                    );
                assert(0 <= r < n && member(pawns, r * 8 + file) && c == rank_distance(r, krank));
            }
        }
    }
}

/// A square of a file in the flipped set.
pub proof fn lemma_flip_file_member(pawns: u64, r: int, file: int, krank: int)
    requires
        0 <= r < 8,
        0 <= file < 8,
        0 <= krank < 8,
    ensures
        member(flipped(pawns), r * 8 + file) == member(pawns, (7 - r) * 8 + file),
        rank_distance(r, 7 - krank) == rank_distance(7 - r, krank),
{
    lemma_flipped(pawns);
    assert(flip_sq(r * 8 + file) == (7 - r) * 8 + file);
}

/// The distance of the nearest pawn behind the flipped pawns is at most
/// the distance of the nearest pawn behind the pawns.
proof fn lemma_closest_flip_le(pawns: u64, file: int, krank: int)
    requires
        0 <= file < 8,
        0 <= krank < 8,
    ensures
        closest_pawn(flipped(pawns), file, 7 - krank, 8) <= closest_pawn(pawns, file, krank, 8),
{
    let fp = flipped(pawns);
    lemma_closest_pawn(pawns, file, krank, 8);
    lemma_closest_pawn(fp, file, 7 - krank, 8);
    let a = closest_pawn(pawns, file, krank, 8);
    let b = closest_pawn(fp, file, 7 - krank, 8);
    if a != 8 {
        let r = choose|r: int|
            0 <= r < 8 && member(pawns, r * 8 + file) && a == #[trigger] rank_distance(r, krank);
        lemma_flip_file_member(pawns, 7 - r, file, krank);
        assert(member(fp, (7 - r) * 8 + file));
        assert(b <= rank_distance(7 - r, 7 - krank));
    }
}

/// The nearest pawn of a file is as far from the king across the middle
/// as it is from the king.
pub proof fn lemma_closest_flip(pawns: u64, file: int, krank: int)
    requires
        0 <= file < 8,
        0 <= krank < 8,
    ensures
        closest_pawn(flipped(pawns), file, 7 - krank, 8) == closest_pawn(pawns, file, krank, 8),
{
    lemma_closest_flip_le(pawns, file, krank);
    lemma_closest_flip_le(flipped(pawns), file, 7 - krank);
    lemma_flipped(pawns);
}

/// The pawn shelter of a king across the middle behind the flipped pawns
/// is the pawn shelter of the king behind the pawns.
pub proof fn lemma_shelter_flip(params: EngineParams, pawns: u64, king: int, eg: bool)
    requires
        0 <= king < 64,
    ensures
        shelter(params, flipped(pawns), flip_sq(king), eg) == shelter(params, pawns, king, eg),
{
    lemma_flip_sq(king);
    let f = king % 8;
    let r = king / 8;
    if 0 <= f - 1 {
        lemma_closest_flip(pawns, f - 1, r);
    }
    lemma_closest_flip(pawns, f, r);
    if f + 1 < 8 {
        lemma_closest_flip(pawns, f + 1, r);
    }
}

/// The king safety of one side in the mirror image is the king safety of
/// the other side in the position.
pub proof fn lemma_mirror_side_safety(p: Position, params: EngineParams, white: bool, eg: bool)
    requires
        p.squares.len() == 64,
        single_king(p, !white),
    ensures
        side_safety(mirror(p), params, white, eg) == side_safety(p, params, !white, eg),
{
    let q = mirror(p);
    lemma_mirror_king(p, white);
    let k0 = king_square(p, !white);
    if k0 < 64 {
        let fk = flip_sq(k0);
        lemma_mirror_hits(p, !white, BBPiece::Knight, k0);
        lemma_mirror_hits(p, !white, BBPiece::Bishop, k0);
        lemma_mirror_hits(p, !white, BBPiece::Rook, k0);
        lemma_mirror_hits(p, !white, BBPiece::Queen, k0);
        lemma_mirror_pieces(p, white, BBPiece::Pawn);
        lemma_shelter_flip(params, p.pieces(!white, BBPiece::Pawn), k0, eg);
        assert(zone_attackers(q, white, fk) == zone_attackers(p, !white, k0));
        assert(attack_units(q, params, white, fk, eg) == attack_units(p, params, !white, k0, eg));
    }
}

/// The king-safety score of the mirror image is the king-safety score
/// negated.
pub proof fn lemma_mirror_king_safety(p: Position, params: EngineParams, eg: bool)
    requires
        p.squares.len() == 64,
        single_king(p, true),
        single_king(p, false),
    ensures
        spec_king_safety(mirror(p), params, eg) == -spec_king_safety(p, params, eg),
{
    lemma_mirror_side_safety(p, params, true, eg);
    lemma_mirror_side_safety(p, params, false, eg);
}

/// A pawn is passed exactly when the pawn across the middle is passed
/// by the flipped enemy pawns, and guarded exactly when that pawn is
/// guarded by the flipped own pawns.
pub proof fn lemma_passed_flip(white: bool, s: int, enemy: u64, own: u64)
    requires
        0 <= s < 64,
    ensures
        passed_over(white, s, flipped(enemy)) == passed_over(!white, flip_sq(s), enemy),
        guarded(white, s, flipped(own)) == guarded(!white, flip_sq(s), own),
        advance_weight(white, s) == advance_weight(!white, flip_sq(s)),
{
    lemma_flipped(enemy);
    lemma_flipped(own);
    lemma_flip_sq(s);
    let fs = flip_sq(s);
    let fe = flipped(enemy);
    if passed_over(!white, fs, enemy) {
        assert forall|t: int| 0 <= t < 64 && #[trigger] member(fe, t) implies !blocks(
            white,
            s,
            t,
        ) by {
            lemma_flip_sq(t);
            assert(member(enemy, flip_sq(t)));
        }
    }
    if passed_over(white, s, fe) {
        assert forall|t: int| 0 <= t < 64 && #[trigger] member(enemy, t) implies !blocks(
            !white,
            fs,
            t,
        ) by {
            lemma_flip_sq(t);
            assert(member(fe, flip_sq(t)));
        }
    }
    let f = s % 8;
    let back = if white {
        s / 8 - 1
    } else {
        s / 8 + 1
    };
    if 0 <= back < 8 {
        if f > 0 {
            lemma_flip_sq(back * 8 + f - 1);
            assert(flip_sq(back * 8 + f - 1) == (7 - back) * 8 + f - 1);
        }
        if f < 7 {
            lemma_flip_sq(back * 8 + f + 1);
            assert(flip_sq(back * 8 + f + 1) == (7 - back) * 8 + f + 1);
        }
    }
}

/// What a pawn adds for being passed in the mirror image, the pawn across
/// the middle adds in the position.
pub proof fn lemma_mirror_passed_bonus(p: Position, params: EngineParams, white: bool, s: int, eg: bool)
    requires
        p.squares.len() == 64,
        0 <= s < 64,
    ensures
        passed_bonus(mirror(p), params, white, s, eg) == passed_bonus(
            p,
            params,
            !white,
            flip_sq(s),
            eg,
        ),
{
    lemma_mirror_pieces(p, white, BBPiece::Pawn);
    lemma_mirror_pieces(p, !white, BBPiece::Pawn);
    lemma_passed_flip(white, s, p.pieces(white, BBPiece::Pawn), p.pieces(!white, BBPiece::Pawn));
    lemma_flip_sq(s);
}

/// As many pawns of a flipped set stand on a file as pawns of the set.
pub proof fn lemma_file_count_flip(pawns: u64, f: int)
    ensures
        file_count(flipped(pawns), f) == file_count(pawns, f),
{
    if 0 <= f < 8 {
        lemma_bit_ops();
        lemma_file_mask();
        lemma_flipped(pawns);
        let m = file_mask(f);
        let a = flipped(pawns) & m;
        let b = pawns & m;
        lemma_flipped(b);
        assert forall|s: int| 0 <= s < 64 implies member(a, s) == member(flipped(b), s) by {
            lemma_flip_sq(s);
            assert(member(a, s) == (member(flipped(pawns), s) && member(m, s)));
            assert(member(b, flip_sq(s)) == (member(pawns, flip_sq(s)) && member(m, flip_sq(s))));
            assert(member(m, s) == (s % 8 == f));
            assert(member(m, flip_sq(s)) == (flip_sq(s) % 8 == f));
        }
        lemma_bits_equal(a, flipped(b));
        lemma_popcount_flip(b);
    }
}

/// The files cost a flipped set of pawns what they cost the set.
pub proof fn lemma_file_penalties_flip(params: EngineParams, pawns: u64, n: int, eg: bool)
    requires
        0 <= n <= 8,
    ensures
        file_penalties(params, flipped(pawns), n, eg) == file_penalties(params, pawns, n, eg),
    decreases n,
{
    if n > 0 {
        lemma_file_penalties_flip(params, pawns, n - 1, eg);
        lemma_file_count_flip(pawns, n - 1);
        lemma_file_count_flip(pawns, n - 2);
        lemma_file_count_flip(pawns, n);
    }
}

/// The pawn structure of one side in the mirror image is the pawn
/// structure of the other side in the position.
pub proof fn lemma_mirror_pawn_side(p: Position, params: EngineParams, white: bool, eg: bool)
    requires
        p.squares.len() == 64,
    ensures
        pawn_side(mirror(p), params, white, eg) == pawn_side(p, params, !white, eg),
{
    let q = mirror(p);
    lemma_mirror_pieces(p, white, BBPiece::Pawn);
    let own = p.pieces(!white, BBPiece::Pawn);
    let fa = |s: int| advance_weight(!white, s);
    let ga = |s: int| advance_weight(white, s);
    assert forall|s: int| 0 <= s < 64 implies #[trigger] ga(s) == fa(flip_sq(s)) by {
        lemma_passed_flip(white, s, 0, 0);
    }
    lemma_sum_flip(own, fa, ga);
    let fp = |s: int| passed_bonus(p, params, !white, s, eg);
    let gp = |s: int| passed_bonus(q, params, white, s, eg);
    assert forall|s: int| 0 <= s < 64 implies #[trigger] gp(s) == fp(flip_sq(s)) by {
        lemma_mirror_passed_bonus(p, params, white, s, eg);
    }
    lemma_sum_flip(own, fp, gp);
    lemma_file_penalties_flip(params, own, 8, eg);
    assert(advance_sum(q, white) == advance_sum(p, !white));
    assert(passed_sum(q, params, white, eg) == passed_sum(p, params, !white, eg));
}

/// The pawn-structure score of the mirror image is the pawn-structure
/// score negated.
pub proof fn lemma_mirror_pawn_structure(p: Position, params: EngineParams, eg: bool)
    requires
        p.squares.len() == 64,
    ensures
        spec_pawn_structure(mirror(p), params, eg) == -spec_pawn_structure(p, params, eg),
{
    lemma_mirror_pawn_side(p, params, true, eg);
    lemma_mirror_pawn_side(p, params, false, eg);
}

/// A blend of negated parts is the blend negated.
pub proof fn lemma_taper_negated(mg: int, eg: int, phase: int)
    ensures
        spec_taper(-mg, -eg, phase) == -spec_taper(mg, eg, phase),
{
    let v = mg * (255 - phase) + eg * phase;
    assert((-mg) * (255 - phase) + (-eg) * phase == -v) by (nonlinear_arith)
        requires
            v == mg * (255 - phase) + eg * phase,
    ;
}

/// The score of a position from White's side, blended by the phase.
pub open spec fn white_score(p: Position, params: EngineParams) -> int {
    spec_taper(
        spec_total(p, params, spec_pawn_structure(p, params, false), false),
        spec_total(p, params, spec_pawn_structure(p, params, true), true),
        spec_phase(p),
    )
}

/// The symmetry of the evaluation: in the mirror image of a position in
/// which neither side has more than one king, the score from White's
/// side is the score of the position negated, and the evaluation for the
/// side to move, which is the other side, is the evaluation of the
/// position.
pub proof fn lemma_evaluation_symmetric(p: Position, params: EngineParams)
    requires
        p.squares.len() == 64,
        single_king(p, true),
        single_king(p, false),
    ensures
        white_score(mirror(p), params) == -white_score(p, params),
        spec_evaluate(mirror(p), params) == spec_evaluate(p, params),
{
    let q = mirror(p);
    lemma_mirror_material(p, params, false);
    lemma_mirror_material(p, params, true);
    lemma_mirror_mobility(p, params, false);
    lemma_mirror_mobility(p, params, true);
    lemma_mirror_king_safety(p, params, false);
    lemma_mirror_king_safety(p, params, true);
    lemma_mirror_king_edge(p, params, false);
    lemma_mirror_king_edge(p, params, true);
    lemma_mirror_pawn_structure(p, params, false);
    lemma_mirror_pawn_structure(p, params, true);
    let mg = spec_total(p, params, spec_pawn_structure(p, params, false), false);
    let eg = spec_total(p, params, spec_pawn_structure(p, params, true), true);
    assert(spec_total(q, params, spec_pawn_structure(q, params, false), false) == -mg);
    assert(spec_total(q, params, spec_pawn_structure(q, params, true), true) == -eg);
    lemma_taper_negated(mg, eg, spec_phase(p));
    let w = white_score(p, params);
    assert(white_score(q, params) == -w);
    assert(w * 1 == w && w * (-1) == -w && (-w) * 1 == -w && (-w) * (-1) == w) by (nonlinear_arith);
}

} // verus!
