//! The evaluation of a position: material, mobility, king safety, the
//! king's distance from the corners and the pawn structure, each with a
//! middlegame and an endgame part, blended by the phase of the game.

use vstd::prelude::*;
use crate::bits::{
    member,
    popcount,
    sum_members,
    lowest_from,
    lemma_bit_ops,
    lemma_count_below_bound,
    lemma_sum_drop,
    lemma_sum_empty,
    lemma_sum_bound,
    lemma_lowest,
    bb_gs_low_bit,
    bb_get,
};
use crate::square::BBPiece;
use crate::board::Board;
use crate::position::Position;
use crate::params::{Score, EngineParams, PIECE_LIMIT, WEIGHT_LIMIT, spec_taper};
use crate::attacks::{king_reaches, king_attacks};
use crate::position::{bb_of, lemma_bb_of};
use crate::bits::{lemma_bits_equal, bb_single};
use crate::table::PAWN_SCORE_LIMIT;
use crate::table::{PawnTable, PawnEntry, slot_of};

verus! {

/// The middlegame or the endgame part of a score.
pub open spec fn part(s: Score, eg: bool) -> int {
    if eg {
        s.eg as int
    } else {
        s.mg as int
    }
}

/// How many pieces of a colour and kind there are.
pub open spec fn count(p: Position, white: bool, kind: BBPiece) -> int {
    popcount(p.pieces(white, kind)) as int
}

/// How many pieces of a kind there are, of both colours.
pub open spec fn count_both(p: Position, kind: BBPiece) -> int {
    count(p, true, kind) + count(p, false, kind)
}

/// The phase of the game, from 0 for the opening to 255 for the endgame:
/// of a total of 24, each knight and bishop on the board takes 1, each
/// rook 2 and each queen 4, and what is left is scaled to 255.
pub open spec fn spec_phase(p: Position) -> int {
    let used = count_both(p, BBPiece::Knight) + count_both(p, BBPiece::Bishop) + 2 * count_both(
        p,
        BBPiece::Rook,
    ) + 4 * count_both(p, BBPiece::Queen);
    let left = if used >= 24 {
        0
    } else {
        24 - used
    };
    left * 255 / 24
}

/// The material of one kind: its value times the difference of the
/// numbers of White's and Black's pieces of that kind.
pub open spec fn material_term(p: Position, params: EngineParams, slot: int, eg: bool) -> int {
    part(params.piece_values[slot], eg) * (count(p, true, BBPiece::spec_kind(slot)) - count(
        p,
        false,
        BBPiece::spec_kind(slot),
    ))
}

/// The material score.
pub open spec fn spec_material(p: Position, params: EngineParams, eg: bool) -> int {
    material_term(p, params, 2, eg) + material_term(p, params, 3, eg) + material_term(
        p,
        params,
        4,
        eg,
    ) + material_term(p, params, 5, eg) + material_term(p, params, 6, eg) + material_term(
        p,
        params,
        7,
        eg,
    )
}

/// To how many squares the pieces of a colour and kind can go, all
/// together.
pub open spec fn mobility_count(p: Position, white: bool, kind: BBPiece) -> int {
    sum_members(p.pieces(white, kind), |s: int| popcount(p.targets(white, kind, s)) as int, 64)
}

/// The mobility of one kind: its weight times the difference of White's
/// and Black's mobility counts.
pub open spec fn mobility_term(p: Position, params: EngineParams, slot: int, eg: bool) -> int {
    part(params.mobility_values[slot], eg) * (mobility_count(p, true, BBPiece::spec_kind(slot))
        - mobility_count(p, false, BBPiece::spec_kind(slot)))
}

/// The mobility score: knights, bishops, rooks, queens and kings.
pub open spec fn spec_mobility(p: Position, params: EngineParams, eg: bool) -> int {
    mobility_term(p, params, 3, eg) + mobility_term(p, params, 4, eg) + mobility_term(
        p,
        params,
        5,
        eg,
    ) + mobility_term(p, params, 6, eg) + mobility_term(p, params, 7, eg)
}

/// The square of the king of a colour: the lowest square that holds one,
/// or 64 when the side has no king.
pub open spec fn king_square(p: Position, white: bool) -> int {
    lowest_from(p.pieces(white, BBPiece::King), 0)
}

/// How many king steps a square is from the nearest corner.
pub open spec fn corner_distance(s: int) -> int {
    let f = s % 8;
    let r = s / 8;
    let df = if f <= 7 - f {
        f
    } else {
        7 - f
    };
    let dr = if r <= 7 - r {
        r
    } else {
        7 - r
    };
    if df >= dr {
        df
    } else {
        dr
    }
}

/// How far the king of a colour is from the nearest corner; 0 for a side
/// without a king.
pub open spec fn king_corner_distance(p: Position, white: bool) -> int {
    if king_square(p, white) >= 64 {
        0
    } else {
        corner_distance(king_square(p, white))
    }
}

/// The king-edge score: the bonus times the difference of the distances
/// of White's and Black's king from the nearest corner.
pub open spec fn spec_king_edge(p: Position, params: EngineParams, eg: bool) -> int {
    part(params.king_center_bonus, eg) * (king_corner_distance(p, true) - king_corner_distance(
        p,
        false,
    ))
}

/// The product of a coefficient of magnitude at most `limit` and a factor
/// of magnitude at most `most`, where the two limits multiply to less
/// than two thousand million.
pub fn times(a: i32, k: i32, limit: i32, most: i32) -> (r: i32)
    requires
        0 <= limit,
        0 <= most,
        limit * most <= 2_000_000_000,
        -limit <= a <= limit,
        -most <= k <= most,
    ensures
        r == a * k,
        -(limit * most) <= r <= limit * most,
{
    assert(-(limit * most) <= a * k <= limit * most) by (nonlinear_arith)
        requires
            -limit <= a <= limit,
            -most <= k <= most,
            0 <= limit,
            0 <= most,
    ;
    a * k
}

/// The number of pieces of a colour and kind.
pub fn piece_count(board: &Board, white: bool, kind: BBPiece) -> (r: i32)
    requires
        board.bitboards_ok(),
        kind.is_kind(),
    ensures
        r == count(board@, white, kind),
        0 <= r <= 64,
{
    let bb = board.pieces_of(white, kind);
    proof {
        lemma_count_below_bound(bb, 64);
    }
    bb.count_ones() as i32
}

impl Board {
    /// The phase of the game, from 0 for the opening to 255 for the
    /// endgame.
    pub fn get_phase(&self) -> (r: u8)
        requires
            self.bitboards_ok(),
        ensures
            r == spec_phase(self@),
    {
        let n: i32 = piece_count(self, true, BBPiece::Knight) + piece_count(
            self,
            false,
            BBPiece::Knight,
        );
        let b: i32 = piece_count(self, true, BBPiece::Bishop) + piece_count(
            self,
            false,
            BBPiece::Bishop,
        );
        let r: i32 = piece_count(self, true, BBPiece::Rook) + piece_count(
            self,
            false,
            BBPiece::Rook,
        );
        let q: i32 = piece_count(self, true, BBPiece::Queen) + piece_count(
            self,
            false,
            BBPiece::Queen,
        );
        let used: i32 = n + b + 2 * r + 4 * q;
        let left: i32 = if used >= 24 {
            0
        } else {
            24 - used
        };
        (left * 255 / 24) as u8
    }

    /// To how many squares the piece on `idx` that slides along the given
    /// lines can go.
    pub fn gen_sliding_mobility(&self, idx: usize, orth: bool, diag: bool, is_white: bool) -> (r: u32)
        requires
            self.bitboards_ok(),
            idx < 64,
            orth || diag,
        ensures
            r == popcount(
                self@.targets(
                    is_white,
                    if orth && diag {
                        BBPiece::Queen
                    } else if orth {
                        BBPiece::Rook
                    } else {
                        BBPiece::Bishop
                    },
                    idx as int,
                ),
            ),
            r <= 64,
    {
        let kind = if orth && diag {
            BBPiece::Queen
        } else if orth {
            BBPiece::Rook
        } else {
            BBPiece::Bishop
        };
        let targets = self.piece_targets(kind, idx, is_white);
        proof {
            lemma_count_below_bound(targets, 64);
        }
        targets.count_ones()
    }

    /// To how many squares the pieces in `bb`, which are of the given
    /// kind and colour, can go all together. The pieces are taken out of
    /// `bb` one by one.
    pub fn count_piece_mobility(&self, piece: usize, bb: &mut u64, is_white: bool) -> (r: u32)
        requires
            self.bitboards_ok(),
            3 <= piece <= 7,
        ensures
            *final(bb) == 0,
            r == sum_members(
                *old(bb),
                |s: int| popcount(self@.targets(is_white, BBPiece::spec_kind(piece as int), s)) as int,
                64,
            ),
            r <= 4096,
    {
        let kind = BBPiece::from(piece);
        let ghost p = self@;
        let ghost f = |s: int| popcount(p.targets(is_white, kind, s)) as int;
        let ghost all = *bb;
        let mut total: u32 = 0;
        let mut done: u32 = 0;
        proof {
            assert forall|s: int| 0 <= s < 64 implies 0 <= #[trigger] f(s) <= 64 by {
                lemma_count_below_bound(p.targets(is_white, kind, s), 64);
            }
            lemma_sum_bound(all, f, 64, 0, 64);
        }
        while *bb != 0
            invariant
                self.bitboards_ok(),
                p == self@,
                kind == BBPiece::spec_kind(piece as int),
                kind == BBPiece::Knight || kind == BBPiece::Bishop || kind == BBPiece::Rook || kind
                    == BBPiece::Queen || kind == BBPiece::King,
                f == |s: int| popcount(p.targets(is_white, kind, s)) as int,
                total + sum_members(*bb, f, 64) == sum_members(all, f, 64),
                forall|s: int| 0 <= s < 64 ==> 0 <= #[trigger] f(s) <= 64,
                sum_members(all, f, 64) <= 4096,
            decreases popcount(*bb),
        {
            let ghost before = *bb;
            let sq = bb_gs_low_bit(bb);
            let targets = self.piece_targets(kind, sq, is_white);
            proof {
                crate::bits::lemma_count_drop(before, *bb, sq as int);
                lemma_sum_drop(before, *bb, sq as int, f, 64);
                lemma_sum_bound(*bb, f, 64, 0, 64);
                assert(f(sq as int) == popcount(targets));
            }
            total = total + targets.count_ones();
        }
        proof {
            lemma_sum_empty(f, 64);
        }
        total
    }

    /// To how many squares the knights, bishops, rooks, queens and kings
    /// of each side can go: for White and for Black, the count of each
    /// kind in the slot of the kind.
    pub fn compute_mobility(&self) -> (r: ([u32; 8], [u32; 8]))
        requires
            self.bitboards_ok(),
        ensures
            forall|k: int|
                3 <= k < 8 ==> (#[trigger] r.0[k]) == mobility_count(
                    self@,
                    true,
                    BBPiece::spec_kind(k),
                ) && r.0[k] <= 4096,
            forall|k: int|
                3 <= k < 8 ==> (#[trigger] r.1[k]) == mobility_count(
                    self@,
                    false,
                    BBPiece::spec_kind(k),
                ) && r.1[k] <= 4096,
            forall|k: int| 0 <= k < 3 ==> (#[trigger] r.0[k]) == 0 && r.1[k] == 0,
    {
        let mut white_mobility = [0u32; 8];
        let mut black_mobility = [0u32; 8];
        let mut piece: usize = 3;
        while piece < 8
            invariant
                3 <= piece <= 8,
                self.bitboards_ok(),
                forall|k: int|
                    3 <= k < piece ==> (#[trigger] white_mobility[k]) == mobility_count(
                        self@,
                        true,
                        BBPiece::spec_kind(k),
                    ) && white_mobility[k] <= 4096,
                forall|k: int|
                    3 <= k < piece ==> (#[trigger] black_mobility[k]) == mobility_count(
                        self@,
                        false,
                        BBPiece::spec_kind(k),
                    ) && black_mobility[k] <= 4096,
                forall|k: int| 0 <= k < 3 ==> (#[trigger] white_mobility[k]) == 0
                    && black_mobility[k] == 0,
            decreases 8 - piece,
        {
            let kind = BBPiece::from(piece);
            let mut white_bb = self.pieces_of(true, kind);
            let w = self.count_piece_mobility(piece, &mut white_bb, true);
            white_mobility[piece] = w;
            let mut black_bb = self.pieces_of(false, kind);
            let b = self.count_piece_mobility(piece, &mut black_bb, false);
            black_mobility[piece] = b;
            piece += 1;
        }
        (white_mobility, black_mobility)
    }
}

/// The material score: for each kind, its value times the difference of
/// the numbers of White's and Black's pieces.
pub fn material_score(board: &Board, params: &EngineParams) -> (r: Score)
    requires
        board.bitboards_ok(),
        params.wf(),
    ensures
        r.mg == spec_material(board@, *params, false),
        r.eg == spec_material(board@, *params, true),
        r.bounded(384_000_000),
{
    let ghost p = board@;
    let mut mg: i32 = 0;
    let mut eg: i32 = 0;
    let mut slot: usize = 2;
    while slot < 8
        invariant
            2 <= slot <= 8,
            board.bitboards_ok(),
            params.wf(),
            p == board@,
            -(slot - 2) * 64_000_000 <= mg <= (slot - 2) * 64_000_000,
            -(slot - 2) * 64_000_000 <= eg <= (slot - 2) * 64_000_000,
            mg == (if slot > 2 { material_term(p, *params, 2, false) } else { 0 }) + (if slot > 3 {
                material_term(p, *params, 3, false)
            } else {
                0
            }) + (if slot > 4 { material_term(p, *params, 4, false) } else { 0 }) + (if slot > 5 {
                material_term(p, *params, 5, false)
            } else {
                0
            }) + (if slot > 6 { material_term(p, *params, 6, false) } else { 0 }) + (if slot > 7 {
                material_term(p, *params, 7, false)
            } else {
                0
            }),
            eg == (if slot > 2 { material_term(p, *params, 2, true) } else { 0 }) + (if slot > 3 {
                material_term(p, *params, 3, true)
            } else {
                0
            }) + (if slot > 4 { material_term(p, *params, 4, true) } else { 0 }) + (if slot > 5 {
                material_term(p, *params, 5, true)
            } else {
                0
            }) + (if slot > 6 { material_term(p, *params, 6, true) } else { 0 }) + (if slot > 7 {
                material_term(p, *params, 7, true)
            } else {
                0
            }),
        decreases 8 - slot,
    {
        let kind = BBPiece::from(slot);
        let diff: i32 = piece_count(board, true, kind) - piece_count(board, false, kind);
        let value = params.piece_values[slot];
        assert(params.piece_values[slot as int].bounded(PIECE_LIMIT as int));
        mg = mg + times(value.mg, diff, PIECE_LIMIT, 64);
        eg = eg + times(value.eg, diff, PIECE_LIMIT, 64);
        slot += 1;
    }
    Score { mg, eg }
}

/// The mobility score: for knights, bishops, rooks, queens and kings, the
/// weight of the kind times the difference of White's and Black's
/// mobility counts.
pub fn mobility_score(board: &Board, params: &EngineParams) -> (r: Score)
    requires
        board.bitboards_ok(),
        params.wf(),
    ensures
        r.mg == spec_mobility(board@, *params, false),
        r.eg == spec_mobility(board@, *params, true),
        r.bounded(204_800_000),
{
    let ghost p = board@;
    let (w, b) = board.compute_mobility();
    let mut mg: i32 = 0;
    let mut eg: i32 = 0;
    let mut slot: usize = 3;
    while slot < 8
        invariant
            3 <= slot <= 8,
            params.wf(),
            p == board@,
            forall|k: int|
                3 <= k < 8 ==> (#[trigger] w[k]) == mobility_count(p, true, BBPiece::spec_kind(k))
                    && w[k] <= 4096,
            forall|k: int|
                3 <= k < 8 ==> (#[trigger] b[k]) == mobility_count(p, false, BBPiece::spec_kind(k))
                    && b[k] <= 4096,
            -(slot - 3) * 40_960_000 <= mg <= (slot - 3) * 40_960_000,
            -(slot - 3) * 40_960_000 <= eg <= (slot - 3) * 40_960_000,
            mg == (if slot > 3 { mobility_term(p, *params, 3, false) } else { 0 }) + (if slot > 4 {
                mobility_term(p, *params, 4, false)
            } else {
                0
            }) + (if slot > 5 { mobility_term(p, *params, 5, false) } else { 0 }) + (if slot > 6 {
                mobility_term(p, *params, 6, false)
            } else {
                0
            }) + (if slot > 7 { mobility_term(p, *params, 7, false) } else { 0 }),
            eg == (if slot > 3 { mobility_term(p, *params, 3, true) } else { 0 }) + (if slot > 4 {
                mobility_term(p, *params, 4, true)
            } else {
                0
            }) + (if slot > 5 { mobility_term(p, *params, 5, true) } else { 0 }) + (if slot > 6 {
                mobility_term(p, *params, 6, true)
            } else {
                0
            }) + (if slot > 7 { mobility_term(p, *params, 7, true) } else { 0 }),
        decreases 8 - slot,
    {
        assert(w[slot as int] <= 4096 && b[slot as int] <= 4096);
        let diff: i32 = w[slot] as i32 - b[slot] as i32;
        let weight = params.mobility_values[slot];
        assert(params.mobility_values[slot as int].bounded(WEIGHT_LIMIT as int));
        mg = mg + times(weight.mg, diff, WEIGHT_LIMIT, 4096);
        eg = eg + times(weight.eg, diff, WEIGHT_LIMIT, 4096);
        slot += 1;
    }
    Score { mg, eg }
}

/// The square of the king of a colour, or 64 when the side has no king.
pub fn find_king(board: &Board, white: bool) -> (r: usize)
    requires
        board.bitboards_ok(),
    ensures
        r == king_square(board@, white),
        r <= 64,
        r < 64 ==> board@.holds(r as int, white, BBPiece::King),
{
    let mut kings = board.pieces_of(white, BBPiece::King);
    let ghost all = kings;
    let r = bb_gs_low_bit(&mut kings);
    proof {
        lemma_lowest(all, r as int, 0);
        if r < 64 {
            assert(board@.squares[r as int] == board.spec_piece_at(r as int));
        }
    }
    r
}

/// How many king steps the king of a colour is from the nearest corner;
/// 0 for a side without a king.
pub fn king_distance_to_corner(board: &Board, is_white: bool) -> (r: i32)
    requires
        board.bitboards_ok(),
    ensures
        r == king_corner_distance(board@, is_white),
        0 <= r <= 3,
{
    let king = find_king(board, is_white);
    if king == 64 {
        return 0;
    }
    let f: i32 = (king % 8) as i32;
    let k: i32 = (king / 8) as i32;
    let df: i32 = if f <= 7 - f {
        f
    } else {
        7 - f
    };
    let dr: i32 = if k <= 7 - k {
        k
    } else {
        7 - k
    };
    if df >= dr {
        df
    } else {
        dr
    }
}

/// The king-edge score: the bonus times the difference of the distances
/// of White's and Black's king from the nearest corner.
pub fn king_edge(board: &Board, params: &EngineParams) -> (r: Score)
    requires
        board.bitboards_ok(),
        params.wf(),
    ensures
        r.mg == spec_king_edge(board@, *params, false),
        r.eg == spec_king_edge(board@, *params, true),
        r.bounded(30_000),
{
    let white_distance = king_distance_to_corner(board, true);
    let black_distance = king_distance_to_corner(board, false);
    let diff: i32 = white_distance - black_distance;
    Score {
        mg: times(params.king_center_bonus.mg, diff, WEIGHT_LIMIT, 3),
        eg: times(params.king_center_bonus.eg, diff, WEIGHT_LIMIT, 3),
    }
}

/// The squares of a file.
pub open spec fn file_mask(f: int) -> u64 {
    0x0101_0101_0101_0101u64 << (f as u64)
}

/// What the file masks hold.
pub proof fn lemma_file_mask()
    by (bit_vector)
    ensures
        forall|f: u64, i: u64|
            f < 8 && i < 64 ==> #[trigger] crate::bits::bit_at(0x0101_0101_0101_0101u64 << f, i)
                == (i % 8 == f),
{
}

/// How much a pawn counts for its advance: 1 on its home rank and behind
/// it, and twice as much for each rank further on.
pub open spec fn advance_weight(white: bool, s: int) -> int {
    let r = s / 8;
    let d = if white {
        r - 1
    } else {
        6 - r
    };
    if d <= 0 {
        1
    } else if d == 1 {
        2
    } else if d == 2 {
        4
    } else if d == 3 {
        8
    } else if d == 4 {
        16
    } else if d == 5 {
        32
    } else {
        64
    }
}

/// The sum of the advance weights of the pawns of a side.
pub open spec fn advance_sum(p: Position, white: bool) -> int {
    sum_members(p.pieces(white, BBPiece::Pawn), |s: int| advance_weight(white, s), 64)
}

/// Whether an enemy pawn on `t` stands in the way of a pawn of colour
/// `white` on `s`: on its file or a file next to it, on a rank ahead.
pub open spec fn blocks(white: bool, s: int, t: int) -> bool {
    let df = t % 8 - s % 8;
    -1 <= df <= 1 && if white {
        t / 8 > s / 8
    } else {
        t / 8 < s / 8
    }
}

/// Whether no pawn of `enemy_pawns` stands in the way of a pawn on `s`.
pub open spec fn passed_over(white: bool, s: int, enemy_pawns: u64) -> bool {
    forall|t: int| 0 <= t < 64 && #[trigger] member(enemy_pawns, t) ==> !blocks(white, s, t)
}

/// Whether a pawn of `own_pawns` guards the pawn on `s` diagonally from
/// behind.
pub open spec fn guarded(white: bool, s: int, own_pawns: u64) -> bool {
    let f = s % 8;
    let back = if white {
        s / 8 - 1
    } else {
        s / 8 + 1
    };
    0 <= back < 8 && ((f > 0 && member(own_pawns, back * 8 + f - 1)) || (f < 7 && member(
        own_pawns,
        back * 8 + f + 1,
    )))
}

/// What a passed pawn on `s` is worth: the base, the bonus of its rank
/// counted from its own side, and the bonus for being guarded.
pub open spec fn passed_worth(
    params: EngineParams,
    white: bool,
    s: int,
    own_pawns: u64,
    eg: bool,
) -> int {
    part(params.passed_pawn_base, eg) + part(
        params.passed_pawn_rank_bonus[if white {
            s / 8
        } else {
            7 - s / 8
        }],
        eg,
    ) + if guarded(white, s, own_pawns) {
        part(params.protected_passed_pawn_bonus, eg)
    } else {
        0
    }
}

/// What the pawn on `s` adds for being passed: its worth if it is passed,
/// nothing if it is not.
pub open spec fn passed_bonus(p: Position, params: EngineParams, white: bool, s: int, eg: bool) -> int {
    if passed_over(white, s, p.pieces(!white, BBPiece::Pawn)) {
        passed_worth(params, white, s, p.pieces(white, BBPiece::Pawn), eg)
    } else {
        0
    }
}

/// The sum of the passed-pawn bonuses of a side.
pub open spec fn passed_sum(p: Position, params: EngineParams, white: bool, eg: bool) -> int {
    sum_members(
        p.pieces(white, BBPiece::Pawn),
        |s: int| passed_bonus(p, params, white, s, eg),
        64,
    )
}

/// How many pawns of `pawns` stand on file `f`; none on a file off the
/// board.
pub open spec fn file_count(pawns: u64, f: int) -> int {
    if 0 <= f < 8 {
        popcount(pawns & file_mask(f)) as int
    } else {
        0
    }
}

/// What a file costs a side: for two or more pawns on it, the doubled
/// penalty times the square of the number of pawns beyond the first, and
/// the isolated penalty when it holds a pawn and the files next to it
/// hold none.
pub open spec fn file_penalty(params: EngineParams, pawns: u64, f: int, eg: bool) -> int {
    let c = file_count(pawns, f);
    if c == 0 {
        0
    } else {
        (if c >= 2 {
            part(params.doubled_pawn_penalty, eg) * ((c - 1) * (c - 1))
        } else {
            0
        }) + (if file_count(pawns, f - 1) == 0 && file_count(pawns, f + 1) == 0 {
            part(params.isolated_pawn_penalty, eg)
        } else {
            0
        })
    }
}

/// The penalties of the files below `n`.
pub open spec fn file_penalties(params: EngineParams, pawns: u64, n: int, eg: bool) -> int
    decreases n,
{
    if n <= 0 {
        0
    } else {
        file_penalties(params, pawns, n - 1, eg) + file_penalty(params, pawns, n - 1, eg)
    }
}

/// The pawn-structure score of one side.
pub open spec fn pawn_side(p: Position, params: EngineParams, white: bool, eg: bool) -> int {
    part(params.pawn_advance_bonus, eg) * advance_sum(p, white) + passed_sum(p, params, white, eg)
        - file_penalties(params, p.pieces(white, BBPiece::Pawn), 8, eg)
}

/// The pawn-structure score: White's less Black's.
pub open spec fn spec_pawn_structure(p: Position, params: EngineParams, eg: bool) -> int {
    pawn_side(p, params, true, eg) - pawn_side(p, params, false, eg)
}

/// Whether no pawn of `enemy_pawns` stands on the file of the pawn on
/// `square`, or on a file next to it, on a rank ahead of it.
pub fn is_passed_pawn(square: usize, is_white: bool, enemy_pawns: u64) -> (r: bool)
    requires
        square < 64,
    ensures
        r == passed_over(is_white, square as int, enemy_pawns),
{
    let file: usize = square % 8;
    let rank: usize = square / 8;
    let lo: usize = if is_white {
        rank + 1
    } else {
        0
    };
    let hi: usize = if is_white {
        8
    } else {
        rank
    };
    let mut k: usize = lo;
    while k < hi
        invariant
            lo <= k <= hi || (lo > hi && k == lo),
            hi <= 8,
            square < 64,
            file == square % 8,
            rank == square / 8,
            lo == (if is_white { rank + 1 } else { 0 }),
            hi == (if is_white { 8 } else { rank as int }),
            forall|t: int|
                0 <= t < 64 && #[trigger] member(enemy_pawns, t) && lo <= t / 8 < k ==> !blocks(
                    is_white,
                    square as int,
                    t,
                ),
        decreases hi - k,
    {
        let base: usize = k * 8 + file;
        let hit = bb_get(enemy_pawns, base) || (file > 0 && bb_get(enemy_pawns, base - 1)) || (file
            < 7 && bb_get(enemy_pawns, base + 1));
        if hit {
            proof {
                let t = if member(enemy_pawns, base as int) {
                    base as int
                } else if file > 0 && member(enemy_pawns, base - 1) {
                    base - 1
                } else {
                    base + 1
                };
                assert(member(enemy_pawns, t) && blocks(is_white, square as int, t));
            }
            return false;
        }
        proof {
            assert forall|t: int|
                0 <= t < 64 && #[trigger] member(enemy_pawns, t) && lo <= t / 8 < k
                    + 1 implies !blocks(is_white, square as int, t) by {
                if t / 8 == k && blocks(is_white, square as int, t) {
                    assert(t == base || t == base - 1 || t == base + 1);
                }
            }
        }
        k += 1;
    }
    true
}

/// What the passed pawn on `square` is worth: the base, the bonus of its
/// rank counted from its own side, and the bonus for being guarded
/// diagonally from behind by a pawn of `own_pawns`.
pub fn evaluate_passed_pawn(
    square: usize,
    rank: u8,
    file: usize,
    is_white: bool,
    own_pawns: u64,
    params: &EngineParams,
) -> (r: Score)
    requires
        square < 64,
        rank == square / 8,
        file == square % 8,
        params.wf(),
    ensures
        r.mg == passed_worth(*params, is_white, square as int, own_pawns, false),
        r.eg == passed_worth(*params, is_white, square as int, own_pawns, true),
        r.bounded(30_000),
{
    let pawn_rank: usize = if is_white {
        rank as usize
    } else {
        7 - rank as usize
    };
    let bonus = params.passed_pawn_rank_bonus[pawn_rank];
    assert(params.passed_pawn_rank_bonus[pawn_rank as int].bounded(WEIGHT_LIMIT as int));
    let mut protected: bool = false;
    if is_white {
        if rank > 0 {
            let back: usize = (rank as usize - 1) * 8 + file;
            protected = (file > 0 && bb_get(own_pawns, back - 1)) || (file < 7 && bb_get(
                own_pawns,
                back + 1,
            ));
        }
    } else {
        if rank < 7 {
            let back: usize = (rank as usize + 1) * 8 + file;
            protected = (file > 0 && bb_get(own_pawns, back - 1)) || (file < 7 && bb_get(
                own_pawns,
                back + 1,
            ));
        }
    }
    assert(protected == guarded(is_white, square as int, own_pawns));
    let extra = if protected {
        params.protected_passed_pawn_bonus
    } else {
        Score { mg: 0, eg: 0 }
    };
    Score {
        mg: params.passed_pawn_base.mg + bonus.mg + extra.mg,
        eg: params.passed_pawn_base.eg + bonus.eg + extra.eg,
    }
}

/// The advance weight of a pawn.
fn pawn_advance(white: bool, square: usize) -> (r: i32)
    requires
        square < 64,
    ensures
        r == advance_weight(white, square as int),
        1 <= r <= 64,
{
    let rank: i32 = (square / 8) as i32;
    let d: i32 = if white {
        rank - 1
    } else {
        6 - rank
    };
    if d <= 0 {
        1
    } else if d == 1 {
        2
    } else if d == 2 {
        4
    } else if d == 3 {
        8
    } else if d == 4 {
        16
    } else if d == 5 {
        32
    } else {
        64
    }
}

/// How many pawns of `pawns` stand on file `f`.
fn pawns_on_file(pawns: u64, f: usize) -> (r: i32)
    requires
        f < 8,
    ensures
        r == file_count(pawns, f as int),
        0 <= r <= 8,
{
    let mask: u64 = 0x0101_0101_0101_0101u64 << (f as u64);
    let on_file = pawns & mask;
    proof {
        lemma_file_mask();
        lemma_bit_ops();
        lemma_file_bound(on_file, f as int, 64);
    }
    on_file.count_ones() as i32
}

/// A set of squares of one file has at most one member on each rank.
proof fn lemma_file_bound(bb: u64, f: int, n: int)
    requires
        0 <= f < 8,
        0 <= n <= 64,
        forall|s: int| 0 <= s < 64 && member(bb, s) ==> s % 8 == f,
    ensures
        crate::bits::count_below(bb, n) <= (n + 7 - f) / 8,
    decreases n,
{
    if n > 0 {
        lemma_file_bound(bb, f, n - 1);
    }
}

/// The penalties of the files of a side.
fn file_penalty_sum(pawns: u64, params: &EngineParams) -> (r: Score)
    requires
        params.wf(),
    ensures
        r.mg == file_penalties(*params, pawns, 8, false),
        r.eg == file_penalties(*params, pawns, 8, true),
        r.bounded(4_000_000),
{
    let mut mg: i32 = 0;
    let mut eg: i32 = 0;
    let mut f: usize = 0;
    while f < 8
        invariant
            f <= 8,
            params.wf(),
            mg == file_penalties(*params, pawns, f as int, false),
            eg == file_penalties(*params, pawns, f as int, true),
            -f * 500_000 <= mg <= f * 500_000,
            -f * 500_000 <= eg <= f * 500_000,
        decreases 8 - f,
    {
        let c: i32 = pawns_on_file(pawns, f);
        if c != 0 {
            if c >= 2 {
                assert(0 <= (c - 1) * (c - 1) <= 49) by (nonlinear_arith)
                    requires
                        2 <= c <= 8,
                ;
                let sq: i32 = (c - 1) * (c - 1);
                mg = mg + times(params.doubled_pawn_penalty.mg, sq, WEIGHT_LIMIT, 49);
                eg = eg + times(params.doubled_pawn_penalty.eg, sq, WEIGHT_LIMIT, 49);
            }
            let left: i32 = if f > 0 {
                pawns_on_file(pawns, f - 1)
            } else {
                0
            };
            let right: i32 = if f < 7 {
                pawns_on_file(pawns, f + 1)
            } else {
                0
            };
            if left == 0 && right == 0 {
                mg = mg + params.isolated_pawn_penalty.mg;
                eg = eg + params.isolated_pawn_penalty.eg;
            }
        }
        f += 1;
    }
    Score { mg, eg }
}

/// The pawn-structure score of one side: the advance bonus times the sum
/// of the advance weights, the bonuses of the passed pawns, less the
/// penalties for doubled and isolated pawns.
pub fn pawn_evaluation(board: &Board, is_white: bool, params: &EngineParams) -> (r: Score)
    requires
        board.bitboards_ok(),
        params.wf(),
    ensures
        r.mg == pawn_side(board@, *params, is_white, false),
        r.eg == pawn_side(board@, *params, is_white, true),
        r.bounded(48_000_000),
{
    let ghost p = board@;
    let own = board.pieces_of(is_white, BBPiece::Pawn);
    let enemy = board.pieces_of(!is_white, BBPiece::Pawn);
    let ghost fa = |s: int| advance_weight(is_white, s);
    let ghost fm = |s: int| passed_bonus(p, *params, is_white, s, false);
    let ghost fe = |s: int| passed_bonus(p, *params, is_white, s, true);
    let mut rest = own;
    let mut adv: i32 = 0;
    let mut mg: i32 = 0;
    let mut eg: i32 = 0;
    proof {
        assert forall|s: int| 0 <= s < 64 implies 0 <= #[trigger] fa(s) <= 64 by {}
        assert forall|s: int| 0 <= s < 64 implies -30_000 <= #[trigger] fm(s) <= 30_000 by {
            let i = if is_white {
                s / 8
            } else {
                7 - s / 8
            };
            assert(params.passed_pawn_rank_bonus[i].bounded(WEIGHT_LIMIT as int));
        }
        assert forall|s: int| 0 <= s < 64 implies -30_000 <= #[trigger] fe(s) <= 30_000 by {
            let i = if is_white {
                s / 8
            } else {
                7 - s / 8
            };
            assert(params.passed_pawn_rank_bonus[i].bounded(WEIGHT_LIMIT as int));
        }
        lemma_sum_bound(own, fa, 64, 0, 64);
        lemma_sum_bound(own, fm, 64, -30_000, 30_000);
        lemma_sum_bound(own, fe, 64, -30_000, 30_000);
    }
    while rest != 0
        invariant
            params.wf(),
            own == p.pieces(is_white, BBPiece::Pawn),
            enemy == p.pieces(!is_white, BBPiece::Pawn),
            fa == |s: int| advance_weight(is_white, s),
            fm == |s: int| passed_bonus(p, *params, is_white, s, false),
            fe == |s: int| passed_bonus(p, *params, is_white, s, true),
            adv + sum_members(rest, fa, 64) == sum_members(own, fa, 64),
            mg + sum_members(rest, fm, 64) == sum_members(own, fm, 64),
            eg + sum_members(rest, fe, 64) == sum_members(own, fe, 64),
            forall|s: int| 0 <= s < 64 ==> 0 <= #[trigger] fa(s) <= 64,
            forall|s: int| 0 <= s < 64 ==> -30_000 <= #[trigger] fm(s) <= 30_000,
            forall|s: int| 0 <= s < 64 ==> -30_000 <= #[trigger] fe(s) <= 30_000,
            0 <= sum_members(own, fa, 64) <= 4096,
            -1_920_000 <= sum_members(own, fm, 64) <= 1_920_000,
            -1_920_000 <= sum_members(own, fe, 64) <= 1_920_000,
        decreases popcount(rest),
    {
        let ghost before = rest;
        let square = bb_gs_low_bit(&mut rest);
        proof {
            crate::bits::lemma_count_drop(before, rest, square as int);
            lemma_sum_drop(before, rest, square as int, fa, 64);
            lemma_sum_drop(before, rest, square as int, fm, 64);
            lemma_sum_drop(before, rest, square as int, fe, 64);
            lemma_sum_bound(rest, fa, 64, 0, 64);
            lemma_sum_bound(rest, fm, 64, -30_000, 30_000);
            lemma_sum_bound(rest, fe, 64, -30_000, 30_000);
        }
        adv = adv + pawn_advance(is_white, square);
        if is_passed_pawn(square, is_white, enemy) {
            let worth = evaluate_passed_pawn(
                square,
                (square / 8) as u8,
                square % 8,
                is_white,
                own,
                params,
            );
            mg = mg + worth.mg;
            eg = eg + worth.eg;
        }
        proof {
            assert(fm(square as int) == passed_bonus(p, *params, is_white, square as int, false));
            assert(fe(square as int) == passed_bonus(p, *params, is_white, square as int, true));
        }
    }
    proof {
        lemma_sum_empty(fa, 64);
        lemma_sum_empty(fm, 64);
        lemma_sum_empty(fe, 64);
    }
    let penalties = file_penalty_sum(own, params);
    Score {
        mg: times(params.pawn_advance_bonus.mg, adv, WEIGHT_LIMIT, 4096) + mg - penalties.mg,
        eg: times(params.pawn_advance_bonus.eg, adv, WEIGHT_LIMIT, 4096) + eg - penalties.eg,
    }
}

/// The pawn-structure score: White's less Black's.
pub fn pawn_struct_score(board: &Board, params: &EngineParams) -> (r: Score)
    requires
        board.bitboards_ok(),
        params.wf(),
    ensures
        r.mg == spec_pawn_structure(board@, *params, false),
        r.eg == spec_pawn_structure(board@, *params, true),
        r.bounded(96_000_000),
{
    let w = pawn_evaluation(board, true, params);
    let b = pawn_evaluation(board, false, params);
    Score { mg: w.mg - b.mg, eg: w.eg - b.eg }
}

/// The penalty for each number of attack units, up to 99.
pub const KING_SAFETY_TABLE: [i32; 100] = [
    0, 0, 1, 2, 3, 5, 7, 9, 12, 15, 18, 22, 26, 30, 35, 39, 44, 50, 56, 62, 68, 75, 82, 85, 89, 97,
    105, 113, 122, 131, 140, 150, 169, 180, 191, 202, 213, 225, 237, 248, 260, 272, 283, 295, 307,
    319, 330, 342, 354, 366, 377, 389, 401, 412, 424, 436, 448, 459, 471, 483, 494, 500, 500, 500,
    500, 500, 500, 500, 500, 500, 500, 500, 500, 500, 500, 500, 500, 500, 500, 500, 500, 500, 500,
    500, 500, 500, 500, 500, 500, 500, 500, 500, 500, 500, 500, 500, 500, 500, 500, 500,
];

/// The zone of a king: its square and the squares next to it.
pub open spec fn king_zone(king: int) -> u64 {
    bb_of(|t: int| in_zone(king, t), 64)
}

/// Whether `t` is the square of the king on `king` or a square next to
/// it.
pub open spec fn in_zone(king: int, t: int) -> bool {
    t == king || king_reaches(king, t)
}

/// How many squares of the zone of the king on `king` the piece of the
/// given colour and kind on `s` attacks.
pub open spec fn zone_hits(p: Position, white: bool, kind: BBPiece, s: int, king: int) -> int {
    popcount(p.attack_set(white, kind, s) & king_zone(king)) as int
}

/// How many squares of the zone the pieces of a colour and kind attack,
/// all together.
pub open spec fn hits_of(p: Position, white: bool, kind: BBPiece, king: int) -> int {
    sum_members(p.pieces(white, kind), |s: int| zone_hits(p, white, kind, s, king), 64)
}

/// How many pieces of a colour and kind attack a square of the zone.
pub open spec fn attackers_of(p: Position, white: bool, kind: BBPiece, king: int) -> int {
    sum_members(
        p.pieces(white, kind),
        |s: int|
            if zone_hits(p, white, kind, s, king) > 0 {
                1int
            } else {
                0int
            },
        64,
    )
}

/// How far the nearest pawn of a colour on a file is from the rank
/// `krank`, among the ranks below `n`; 8 when there is none.
pub open spec fn closest_pawn(pawns: u64, file: int, krank: int, n: int) -> int
    decreases n,
{
    if n <= 0 {
        8
    } else {
        let prev = closest_pawn(pawns, file, krank, n - 1);
        let d = if n - 1 >= krank {
            n - 1 - krank
        } else {
            krank - (n - 1)
        };
        if member(pawns, (n - 1) * 8 + file) && d < prev {
            d
        } else {
            prev
        }
    }
}

/// What a file next to the king costs: the no-shield penalty when no own
/// pawn stands on it, and the far-pawn penalty for each rank beyond two
/// that the nearest own pawn is away. A file off the board costs nothing.
pub open spec fn shelter_file(params: EngineParams, pawns: u64, file: int, krank: int, eg: bool) -> int {
    if file < 0 || file > 7 {
        0
    } else {
        let c = closest_pawn(pawns, file, krank, 8);
        if c == 8 {
            part(params.no_pawn_shield_penalty, eg)
        } else if c > 2 {
            part(params.far_pawn_penalty, eg) * (c - 2)
        } else {
            0
        }
    }
}

/// The pawn-shelter penalty of the king on `king`: the cost of its file
/// and of the two files next to it.
pub open spec fn shelter(params: EngineParams, pawns: u64, king: int, eg: bool) -> int {
    shelter_file(params, pawns, king % 8 - 1, king / 8, eg) + shelter_file(
        params,
        pawns,
        king % 8,
        king / 8,
        eg,
    ) + shelter_file(params, pawns, king % 8 + 1, king / 8, eg)
}

/// How many enemy knights, bishops, rooks and queens attack the zone of
/// the king of colour `white` on `king`.
pub open spec fn zone_attackers(p: Position, white: bool, king: int) -> int {
    attackers_of(p, !white, BBPiece::Knight, king) + attackers_of(p, !white, BBPiece::Bishop, king)
        + attackers_of(p, !white, BBPiece::Rook, king) + attackers_of(
        p,
        !white,
        BBPiece::Queen,
        king,
    )
}

/// The attack units against the king of colour `white` on `king`: for
/// each enemy knight, bishop, rook and queen the weight of its kind times
/// the number of squares of the zone it attacks, a bonus for two
/// attackers, a bonus for each attacker from the third on counted from
/// the second, and the pawn-shelter penalty.
pub open spec fn attack_units(p: Position, params: EngineParams, white: bool, king: int, eg: bool) -> int {
    let n = zone_attackers(p, white, king);
    part(params.attack_weights[3], eg) * hits_of(p, !white, BBPiece::Knight, king) + part(
        params.attack_weights[4],
        eg,
    ) * hits_of(p, !white, BBPiece::Bishop, king) + part(params.attack_weights[5], eg) * hits_of(
        p,
        !white,
        BBPiece::Rook,
        king,
    ) + part(params.attack_weights[6], eg) * hits_of(p, !white, BBPiece::Queen, king) + (if n
        >= 2 {
        part(params.two_attacker_bonus, eg)
    } else {
        0
    }) + (if n >= 3 {
        part(params.multiple_attacker_bonus, eg) * (n - 1)
    } else {
        0
    }) + shelter(params, p.pieces(white, BBPiece::Pawn), king, eg)
}

/// The entry of the table that a number of attack units reads: the
/// number itself from 0 to 99, the first entry for a negative number and
/// the last entry for a number above 99.
pub open spec fn safety_index(units: int) -> int {
    if units < 0 {
        0
    } else if units <= 99 {
        units
    } else {
        99
    }
}

/// The king safety of one side: the penalty that the table gives for the
/// attack units against its king, negated; nothing for a side without a
/// king.
pub open spec fn side_safety(p: Position, params: EngineParams, white: bool, eg: bool) -> int {
    let king = king_square(p, white);
    if king >= 64 {
        0
    } else {
        -(KING_SAFETY_TABLE[safety_index(attack_units(p, params, white, king, eg))] as int)
    }
}

/// The king-safety score: White's less Black's.
pub open spec fn spec_king_safety(p: Position, params: EngineParams, eg: bool) -> int {
    side_safety(p, params, true, eg) - side_safety(p, params, false, eg)
}

/// The score of a position from White's side, with `pawn_mg` and
/// `pawn_eg` for the two parts of the pawn-structure score.
pub open spec fn spec_total(p: Position, params: EngineParams, pawn: int, eg: bool) -> int {
    spec_material(p, params, eg) + spec_mobility(p, params, eg) + spec_king_safety(p, params, eg)
        + spec_king_edge(p, params, eg) + pawn
}

/// The evaluation of a position for the side to move, with `pawn_mg` and
/// `pawn_eg` for the two parts of the pawn-structure score: the sum of
/// the five scores, blended by the phase, from the mover's side.
pub open spec fn spec_evaluate_with(p: Position, params: EngineParams, pawn_mg: int, pawn_eg: int) -> int {
    spec_taper(
        spec_total(p, params, pawn_mg, false),
        spec_total(p, params, pawn_eg, true),
        spec_phase(p),
    ) * (if p.white_to_move {
        1int
    } else {
        -1int
    })
}

/// The evaluation of a position for the side to move.
pub open spec fn spec_evaluate(p: Position, params: EngineParams) -> int {
    spec_evaluate_with(
        p,
        params,
        spec_pawn_structure(p, params, false),
        spec_pawn_structure(p, params, true),
    )
}

/// The members of the zone of a king.
pub proof fn lemma_king_zone(king: int)
    ensures
        forall|t: int|
            0 <= t < 64 ==> #[trigger] member(king_zone(king), t) == (t == king || king_reaches(
                king,
                t,
            )),
{
    lemma_bb_of(|t: int| in_zone(king, t), 64);
}

/// The zone of the king on `king_square`: its square and the squares next
/// to it.
pub fn get_king_zone(king_square: usize) -> (zone: u64)
    requires
        king_square < 64,
    ensures
        zone == king_zone(king_square as int),
        forall|t: int|
            0 <= t < 64 ==> #[trigger] member(zone, t) == (t == king_square || king_reaches(
                king_square as int,
                t,
            )),
{
    let around = king_attacks(king_square);
    let own = bb_single(king_square);
    let zone = around | own;
    proof {
        lemma_bit_ops();
        assert forall|t: int| 0 <= t < 64 implies #[trigger] member(zone, t) == (t == king_square
            || king_reaches(king_square as int, t)) by {
            assert(member(zone, t) == (member(around, t) || member(own, t)));
        }
        lemma_king_zone(king_square as int);
        lemma_bits_equal(zone, king_zone(king_square as int));
    }
    zone
}

/// The pawn-shelter penalty of the king on `king_square`.
pub fn evaluate_pawn_shelter(
    board: &Board,
    king_square: usize,
    is_white: bool,
    params: &EngineParams,
) -> (r: Score)
    requires
        board.bitboards_ok(),
        king_square < 64,
        params.wf(),
    ensures
        r.mg == shelter(*params, board@.pieces(is_white, BBPiece::Pawn), king_square as int, false),
        r.eg == shelter(*params, board@.pieces(is_white, BBPiece::Pawn), king_square as int, true),
        r.bounded(150_000),
{
    let king_file: usize = king_square % 8;
    let king_rank: usize = king_square / 8;
    let own_pawns = board.pieces_of(is_white, BBPiece::Pawn);
    let mut mg: i32 = 0;
    let mut eg: i32 = 0;
    let mut off: usize = 0;
    while off < 3
        invariant
            off <= 3,
            params.wf(),
            king_file == king_square % 8,
            king_rank == king_square / 8,
            king_square < 64,
            own_pawns == board@.pieces(is_white, BBPiece::Pawn),
            -off * 50_000 <= mg <= off * 50_000,
            -off * 50_000 <= eg <= off * 50_000,
            mg == (if off > 0 {
                shelter_file(*params, own_pawns, king_file - 1, king_rank as int, false)
            } else {
                0
            }) + (if off > 1 {
                shelter_file(*params, own_pawns, king_file as int, king_rank as int, false)
            } else {
                0
            }) + (if off > 2 {
                shelter_file(*params, own_pawns, king_file + 1, king_rank as int, false)
            } else {
                0
            }),
            eg == (if off > 0 {
                shelter_file(*params, own_pawns, king_file - 1, king_rank as int, true)
            } else {
                0
            }) + (if off > 1 {
                shelter_file(*params, own_pawns, king_file as int, king_rank as int, true)
            } else {
                0
            }) + (if off > 2 {
                shelter_file(*params, own_pawns, king_file + 1, king_rank as int, true)
            } else {
                0
            }),
        decreases 3 - off,
    {
        let in_range = king_file + off >= 1 && king_file + off <= 8;
        if in_range {
            let file: usize = king_file + off - 1;
            let mut closest: i32 = 8;
            let mut rank: usize = 0;
            while rank < 8
                invariant
                    rank <= 8,
                    file < 8,
                    king_rank < 8,
                    closest == closest_pawn(own_pawns, file as int, king_rank as int, rank as int),
                    0 <= closest <= 8,
                decreases 8 - rank,
            {
                let d: i32 = if rank >= king_rank {
                    (rank - king_rank) as i32
                } else {
                    (king_rank - rank) as i32
                };
                if bb_get(own_pawns, rank * 8 + file) && d < closest {
                    closest = d;
                }
                rank += 1;
            }
            if closest == 8 {
                mg = mg + params.no_pawn_shield_penalty.mg;
                eg = eg + params.no_pawn_shield_penalty.eg;
            } else if closest > 2 {
                mg = mg + times(params.far_pawn_penalty.mg, closest - 2, WEIGHT_LIMIT, 5);
                eg = eg + times(params.far_pawn_penalty.eg, closest - 2, WEIGHT_LIMIT, 5);
            }
        }
        off += 1;
    }
    Score { mg, eg }
}

/// How many squares of `zone` the pieces of a colour and kind attack all
/// together, and how many of the pieces attack one at least.
fn zone_attacks(board: &Board, white: bool, kind: BBPiece, king: usize, zone: u64) -> (r: (i32, i32))
    requires
        board.bitboards_ok(),
        king < 64,
        zone == king_zone(king as int),
        kind == BBPiece::Knight || kind == BBPiece::Bishop || kind == BBPiece::Rook || kind
            == BBPiece::Queen,
    ensures
        r.0 == hits_of(board@, white, kind, king as int),
        r.1 == attackers_of(board@, white, kind, king as int),
        0 <= r.0 <= 4096,
        0 <= r.1 <= 64,
{
    let ghost p = board@;
    let ghost k = king as int;
    let ghost fh = |s: int| zone_hits(p, white, kind, s, k);
    let ghost fa = |s: int|
        if zone_hits(p, white, kind, s, k) > 0 {
            1int
        } else {
            0int
        };
    let all = board.pieces_of(white, kind);
    let mut rest = all;
    let mut hits: i32 = 0;
    let mut attackers: i32 = 0;
    proof {
        assert forall|s: int| 0 <= s < 64 implies 0 <= #[trigger] fh(s) <= 64 by {
            lemma_count_below_bound(p.attack_set(white, kind, s) & king_zone(k), 64);
        }
        assert forall|s: int| 0 <= s < 64 implies 0 <= #[trigger] fa(s) <= 1 by {}
        lemma_sum_bound(all, fh, 64, 0, 64);
        lemma_sum_bound(all, fa, 64, 0, 1);
    }
    while rest != 0
        invariant
            board.bitboards_ok(),
            p == board@,
            k == king,
            zone == king_zone(k),
            kind == BBPiece::Knight || kind == BBPiece::Bishop || kind == BBPiece::Rook || kind
                == BBPiece::Queen,
            all == p.pieces(white, kind),
            fh == |s: int| zone_hits(p, white, kind, s, k),
            fa == |s: int|
                if zone_hits(p, white, kind, s, k) > 0 {
                    1int
                } else {
                    0int
                },
            hits + sum_members(rest, fh, 64) == sum_members(all, fh, 64),
            attackers + sum_members(rest, fa, 64) == sum_members(all, fa, 64),
            forall|s: int| 0 <= s < 64 ==> 0 <= #[trigger] fh(s) <= 64,
            forall|s: int| 0 <= s < 64 ==> 0 <= #[trigger] fa(s) <= 1,
            0 <= sum_members(all, fh, 64) <= 4096,
            0 <= sum_members(all, fa, 64) <= 64,
        decreases popcount(rest),
    {
        let ghost before = rest;
        let square = bb_gs_low_bit(&mut rest);
        let attacks = board.piece_attack_set(kind, square, white);
        let in_zone = attacks & zone;
        proof {
            crate::bits::lemma_count_drop(before, rest, square as int);
            lemma_sum_drop(before, rest, square as int, fh, 64);
            lemma_sum_drop(before, rest, square as int, fa, 64);
            lemma_sum_bound(rest, fh, 64, 0, 64);
            lemma_sum_bound(rest, fa, 64, 0, 1);
            assert(fh(square as int) == popcount(in_zone));
            lemma_count_below_bound(in_zone, 64);
        }
        let n: i32 = in_zone.count_ones() as i32;
        if n > 0 {
            attackers = attackers + 1;
            hits = hits + n;
        }
    }
    proof {
        lemma_sum_empty(fh, 64);
        lemma_sum_empty(fa, 64);
    }
    (hits, attackers)
}

/// The king safety of one side: the penalty that the table gives for the
/// attack units against its king, negated.
pub fn evaluate_king_safety(board: &Board, is_white: bool, params: &EngineParams) -> (r: Score)
    requires
        board.bitboards_ok(),
        params.wf(),
    ensures
        r.mg == side_safety(board@, *params, is_white, false),
        r.eg == side_safety(board@, *params, is_white, true),
        r.bounded(500),
{
    let ghost p = board@;
    let king = find_king(board, is_white);
    if king == 64 {
        return Score { mg: 0, eg: 0 };
    }
    let zone = get_king_zone(king);
    let (hn, an) = zone_attacks(board, !is_white, BBPiece::Knight, king, zone);
    let (hb, ab) = zone_attacks(board, !is_white, BBPiece::Bishop, king, zone);
    let (hr, ar) = zone_attacks(board, !is_white, BBPiece::Rook, king, zone);
    let (hq, aq) = zone_attacks(board, !is_white, BBPiece::Queen, king, zone);
    let attackers: i32 = an + ab + ar + aq;
    let w = &params.attack_weights;
    assert(params.attack_weights[3].bounded(WEIGHT_LIMIT as int));
    assert(params.attack_weights[4].bounded(WEIGHT_LIMIT as int));
    assert(params.attack_weights[5].bounded(WEIGHT_LIMIT as int));
    assert(params.attack_weights[6].bounded(WEIGHT_LIMIT as int));
    let mut mg: i32 = times(w[3].mg, hn, WEIGHT_LIMIT, 4096) + times(w[4].mg, hb, WEIGHT_LIMIT, 4096)
        + times(w[5].mg, hr, WEIGHT_LIMIT, 4096) + times(w[6].mg, hq, WEIGHT_LIMIT, 4096);
    let mut eg: i32 = times(w[3].eg, hn, WEIGHT_LIMIT, 4096) + times(w[4].eg, hb, WEIGHT_LIMIT, 4096)
        + times(w[5].eg, hr, WEIGHT_LIMIT, 4096) + times(w[6].eg, hq, WEIGHT_LIMIT, 4096);
    if attackers >= 2 {
        mg = mg + params.two_attacker_bonus.mg;
        eg = eg + params.two_attacker_bonus.eg;
    }
    if attackers >= 3 {
        mg = mg + times(params.multiple_attacker_bonus.mg, attackers - 1, WEIGHT_LIMIT, 256);
        eg = eg + times(params.multiple_attacker_bonus.eg, attackers - 1, WEIGHT_LIMIT, 256);
    }
    let shelter_penalty = evaluate_pawn_shelter(board, king, is_white, params);
    mg = mg + shelter_penalty.mg;
    eg = eg + shelter_penalty.eg;
    let im: usize = if mg < 0 {
        0
    } else if mg <= 99 {
        mg as usize
    } else {
        99
    };
    let ie: usize = if eg < 0 {
        0
    } else if eg <= 99 {
        eg as usize
    } else {
        99
    };
    proof {
        lemma_safety_table();
    }
    Score { mg: -KING_SAFETY_TABLE[im], eg: -KING_SAFETY_TABLE[ie] }
}

/// No entry of the safety table is negative or above 500.
pub proof fn lemma_safety_table()
    ensures
        forall|i: int| 0 <= i < 100 ==> 0 <= #[trigger] KING_SAFETY_TABLE[i] <= 500,
{
    assert forall|i: int| 0 <= i < 100 implies 0 <= #[trigger] KING_SAFETY_TABLE[i] <= 500 by {
        if i < 25 {
        } else if i < 50 {
        } else if i < 75 {
        } else {
        }
    }
}

/// The king-safety score: White's less Black's.
pub fn king_safety_score(board: &Board, params: &EngineParams) -> (r: Score)
    requires
        board.bitboards_ok(),
        params.wf(),
    ensures
        r.mg == spec_king_safety(board@, *params, false),
        r.eg == spec_king_safety(board@, *params, true),
        r.bounded(1000),
{
    let white_score = evaluate_king_safety(board, true, params);
    let black_score = evaluate_king_safety(board, false, params);
    Score { mg: white_score.mg - black_score.mg, eg: white_score.eg - black_score.eg }
}

/// The pawn-structure score, from the pawn table if it holds the pawns
/// of this position, computed and stored there if it does not.
pub fn cached_pawn_score(board: &Board, params: &EngineParams, pawns: &mut PawnTable) -> (r: Score)
    requires
        board.bitboards_ok(),
        params.wf(),
        old(pawns).wf(),
    ensures
        final(pawns).wf(),
        final(pawns).mask == old(pawns).mask,
        match old(pawns).spec_probe(board.pawn_hash) {
            Some(e) => r == (Score { mg: e.mg, eg: e.eg }) && final(pawns).table@ == old(pawns).table@,
            None => r.mg == spec_pawn_structure(board@, *params, false) && r.eg
                == spec_pawn_structure(board@, *params, true) && final(pawns).spec_probe(
                board.pawn_hash,
            ) == Some(PawnEntry { zobrist: board.pawn_hash, mg: r.mg, eg: r.eg })
                && final(pawns).table@ == old(pawns).table@.update(
                slot_of(board.pawn_hash, old(pawns).mask),
                Some(PawnEntry { zobrist: board.pawn_hash, mg: r.mg, eg: r.eg }),
            ),
        },
        r.bounded(PAWN_SCORE_LIMIT as int),
{
    let cached: Option<Score> = match pawns.probe(board.pawn_hash) {
        Some(e) => Some(Score { mg: e.mg, eg: e.eg }),
        None => None,
    };
    match cached {
        Some(sc) => sc,
        None => {
            let sc = pawn_struct_score(board, params);
            pawns.store(PawnEntry { zobrist: board.pawn_hash, mg: sc.mg, eg: sc.eg });
            sc
        },
    }
}

/// The evaluation of the position for the side to move, in centipawns:
/// material, mobility, king safety, king edge and pawn structure, blended
/// by the phase of the game. The pawn-structure score is taken from the
/// pawn table when the table holds an entry for the pawn hash of the
/// board, and is computed and stored there when it does not.
pub fn evaluate(board: &Board, params: &EngineParams, pawns: &mut PawnTable) -> (r: i32)
    requires
        board.bitboards_ok(),
        params.wf(),
        old(pawns).wf(),
    ensures
        final(pawns).wf(),
        final(pawns).mask == old(pawns).mask,
        match old(pawns).spec_probe(board.pawn_hash) {
            Some(e) => r == spec_evaluate_with(board@, *params, e.mg as int, e.eg as int) && final(pawns).table@ == old(pawns).table@,
            None => r == spec_evaluate(board@, *params) && final(pawns).spec_probe(board.pawn_hash)
                == Some(
                PawnEntry {
                    zobrist: board.pawn_hash,
                    mg: spec_pawn_structure(board@, *params, false) as i32,
                    eg: spec_pawn_structure(board@, *params, true) as i32,
                },
            ) && final(pawns).table@ == old(pawns).table@.update(
                slot_of(board.pawn_hash, old(pawns).mask),
                Some(
                    PawnEntry {
                        zobrist: board.pawn_hash,
                        mg: spec_pawn_structure(board@, *params, false) as i32,
                        eg: spec_pawn_structure(board@, *params, true) as i32,
                    },
                ),
            ),
        },
        -1_000_000_000 <= r <= 1_000_000_000,
{
    let phase = board.get_phase();
    let material = material_score(board, params);
    let mobility = mobility_score(board, params);
    let safety = king_safety_score(board, params);
    let edge = king_edge(board, params);
    let pawn = cached_pawn_score(board, params, pawns);
    let total = Score {
        mg: material.mg + mobility.mg + safety.mg + edge.mg + pawn.mg,
        eg: material.eg + mobility.eg + safety.eg + edge.eg + pawn.eg,
    };
    let v = total.taper(phase);
    proof {
        lemma_taper_bound(total.mg as int, total.eg as int, phase as int, 1_000_000_000);
        let p = board@;
        assert(total.mg == spec_total(p, *params, pawn.mg as int, false));
        assert(total.eg == spec_total(p, *params, pawn.eg as int, true));
        assert((v as int) * 1 == v);
        assert((v as int) * (-1) == -v);
    }
    if board.move_color == 1 {
        v
    } else {
        -v
    }
}

/// A blend of two parts of magnitude at most `limit` is of magnitude at
/// most `limit`.
pub proof fn lemma_taper_bound(mg: int, eg: int, phase: int, limit: int)
    requires
        0 <= phase <= 255,
        -limit <= mg <= limit,
        -limit <= eg <= limit,
    ensures
        -limit <= spec_taper(mg, eg, phase) <= limit,
{
    assert(-limit * 255 <= mg * (255 - phase) + eg * phase <= limit * 255) by (nonlinear_arith)
        requires
            0 <= phase <= 255,
            -limit <= mg <= limit,
            -limit <= eg <= limit,
    ;
}

} // verus!
