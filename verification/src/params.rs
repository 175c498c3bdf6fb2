//! The coefficients of the evaluation.
//!
//! A [`Score`] has a middlegame and an endgame part. [`EngineParams`] is
//! the record of coefficients that the evaluation reads;
//! [`TunableParams`] is the same record laid out as the numbered list of
//! integers that the tuner walks through.

use vstd::prelude::*;

verus! {

/// The largest magnitude of a piece value.
pub const PIECE_LIMIT: i32 = 1_000_000;

/// The largest magnitude of any other coefficient.
pub const WEIGHT_LIMIT: i32 = 10_000;

/// The number of tunable coefficients.
pub const PARAM_COUNT: usize = 60;

/// Whether `v` is of magnitude at most `limit`.
pub open spec fn in_limit(v: int, limit: int) -> bool {
    -limit <= v <= limit
}

/// Whether `v` is of magnitude at most `limit`.
pub fn within(v: i32, limit: i32) -> (r: bool)
    requires
        limit >= 0,
    ensures
        r == in_limit(v as int, limit as int),
{
    -limit <= v && v <= limit
}

/// The limit on coefficient number `index` of the tunable list: the ten
/// piece values come first, the weights after them.
pub open spec fn spec_param_limit(index: int) -> int {
    if index < 10 {
        PIECE_LIMIT as int
    } else {
        WEIGHT_LIMIT as int
    }
}

/// A score with a middlegame and an endgame part.
#[derive(Copy, Clone, Debug, PartialEq, Eq, Structural)]
pub struct Score {
    pub mg: i32,
    pub eg: i32,
}

/// The value of a pair at phase `phase`, from 0 for the opening to 255
/// for the endgame: the parts weighted by the phase, divided by 255
/// towards zero.
pub open spec fn spec_taper(mg: int, eg: int, phase: int) -> int {
    let v = mg * (255 - phase) + eg * phase;
    if v >= 0 {
        v / 255
    } else {
        -((-v) / 255)
    }
}

impl Score {
    /// The score with the given parts.
    pub fn new(mg: i32, eg: i32) -> (r: Self)
        ensures
            r == (Score { mg: mg, eg: eg }),
    {
        Score { mg, eg }
    }

    /// The score whose two parts are the same.
    pub fn from_single(v: i32) -> (r: Self)
        ensures
            r == (Score { mg: v, eg: v }),
    {
        Score { mg: v, eg: v }
    }

    /// Whether both parts are of magnitude at most `limit`.
    pub open spec fn bounded(self, limit: int) -> bool {
        in_limit(self.mg as int, limit) && in_limit(self.eg as int, limit)
    }

    /// The value of this score at phase `phase`.
    pub fn taper(&self, phase: u8) -> (r: i32)
        ensures
            r == spec_taper(self.mg as int, self.eg as int, phase as int),
    {
        let p: i64 = phase as i64;
        let mg: i64 = self.mg as i64;
        let eg: i64 = self.eg as i64;
        assert(-0x8000_0000 * 255 <= mg * (255 - p) + eg * p <= 0x7fff_ffff * 255 && -0x8000_0000
            * 255 <= mg * (255 - p) <= 0x8000_0000 * 255 && -0x8000_0000 * 255 <= eg * p
            <= 0x8000_0000 * 255) by (nonlinear_arith)
            requires
                0 <= p <= 255,
                -0x8000_0000 <= mg <= 0x7fff_ffff,
                -0x8000_0000 <= eg <= 0x7fff_ffff,
        ;
        let v: i64 = mg * (255 - p) + eg * p;
        let q: i64 = if v >= 0 {
            v / 255
        } else {
            -((-v) / 255)
        };
        q as i32
    }
}

/// The coefficients of the evaluation. The arrays are indexed by bitboard
/// slot: 2 for pawns up to 7 for kings.
#[derive(Copy, Clone, Debug, PartialEq, Eq)]
pub struct EngineParams {
    pub piece_values: [Score; 8],
    pub mobility_values: [Score; 8],
    pub king_center_bonus: Score,
    pub doubled_pawn_penalty: Score,
    pub isolated_pawn_penalty: Score,
    pub pawn_advance_bonus: Score,
    pub passed_pawn_base: Score,
    pub passed_pawn_rank_bonus: [Score; 8],
    pub protected_passed_pawn_bonus: Score,
    pub two_attacker_bonus: Score,
    pub multiple_attacker_bonus: Score,
    pub attack_weights: [Score; 8],
    pub no_pawn_shield_penalty: Score,
    pub far_pawn_penalty: Score,
}

impl EngineParams {
    /// Every piece value is of magnitude at most [`PIECE_LIMIT`] and every
    /// other coefficient of magnitude at most [`WEIGHT_LIMIT`], so that no
    /// evaluation overflows.
    pub open spec fn wf(&self) -> bool {
        &&& forall|i: int| 0 <= i < 8 ==> (#[trigger] self.piece_values[i]).bounded(PIECE_LIMIT as int)
        &&& forall|i: int|
            0 <= i < 8 ==> (#[trigger] self.mobility_values[i]).bounded(WEIGHT_LIMIT as int)
        &&& forall|i: int|
            0 <= i < 8 ==> (#[trigger] self.passed_pawn_rank_bonus[i]).bounded(WEIGHT_LIMIT as int)
        &&& forall|i: int|
            0 <= i < 8 ==> (#[trigger] self.attack_weights[i]).bounded(WEIGHT_LIMIT as int)
        &&& self.king_center_bonus.bounded(WEIGHT_LIMIT as int)
        &&& self.doubled_pawn_penalty.bounded(WEIGHT_LIMIT as int)
        &&& self.isolated_pawn_penalty.bounded(WEIGHT_LIMIT as int)
        &&& self.pawn_advance_bonus.bounded(WEIGHT_LIMIT as int)
        &&& self.passed_pawn_base.bounded(WEIGHT_LIMIT as int)
        &&& self.protected_passed_pawn_bonus.bounded(WEIGHT_LIMIT as int)
        &&& self.two_attacker_bonus.bounded(WEIGHT_LIMIT as int)
        &&& self.multiple_attacker_bonus.bounded(WEIGHT_LIMIT as int)
        &&& self.no_pawn_shield_penalty.bounded(WEIGHT_LIMIT as int)
        &&& self.far_pawn_penalty.bounded(WEIGHT_LIMIT as int)
    }

    /// The coefficients the engine plays with.
    pub fn new() -> (r: Self)
        ensures
            r.wf(),
            r == TunableParams::spec_engine_defaults(),
    {
        let z = Score { mg: 0, eg: 0 };
        EngineParams {
            piece_values: [
                z,
                z,
                Score { mg: 66, eg: 85 },
                Score { mg: 298, eg: 273 },
                Score { mg: 290, eg: 320 },
                Score { mg: 456, eg: 486 },
                Score { mg: 905, eg: 805 },
                Score { mg: 100000, eg: 100000 },
            ],
            mobility_values: [
                z,
                z,
                z,
                Score { mg: 10, eg: 8 },
                Score { mg: 10, eg: 12 },
                Score { mg: 3, eg: 6 },
                Score { mg: 1, eg: 1 },
                Score { mg: 2, eg: 5 },
            ],
            king_center_bonus: Score { mg: 0, eg: 20 },
            doubled_pawn_penalty: Score { mg: 1, eg: 1 },
            isolated_pawn_penalty: Score { mg: 5, eg: 5 },
            pawn_advance_bonus: Score { mg: 3, eg: 3 },
            passed_pawn_base: Score { mg: 20, eg: 20 },
            passed_pawn_rank_bonus: [
                z,
                Score { mg: 5, eg: 5 },
                Score { mg: 10, eg: 10 },
                Score { mg: 20, eg: 20 },
                Score { mg: 35, eg: 35 },
                Score { mg: 60, eg: 60 },
                Score { mg: 100, eg: 100 },
                z,
            ],
            protected_passed_pawn_bonus: Score { mg: 10, eg: 10 },
            two_attacker_bonus: Score { mg: 3, eg: 0 },
            multiple_attacker_bonus: Score { mg: 5, eg: 0 },
            attack_weights: [
                z,
                z,
                z,
                Score { mg: 1, eg: 0 },
                Score { mg: 1, eg: 0 },
                Score { mg: 2, eg: 0 },
                Score { mg: 4, eg: 0 },
                z,
            ],
            no_pawn_shield_penalty: Score { mg: 6, eg: 0 },
            far_pawn_penalty: Score { mg: 3, eg: 0 },
        }
    }
}

/// The tunable coefficients as a flat record of integers, in the order in
/// which the tuner visits them.
#[derive(Debug, Clone, Copy, PartialEq, Eq, Structural)]
pub struct TunableParams {
    pub pawn_mg: i32,
    pub pawn_eg: i32,
    pub knight_mg: i32,
    pub knight_eg: i32,
    pub bishop_mg: i32,
    pub bishop_eg: i32,
    pub rook_mg: i32,
    pub rook_eg: i32,
    pub queen_mg: i32,
    pub queen_eg: i32,
    pub knight_mobility_mg: i32,
    pub knight_mobility_eg: i32,
    pub bishop_mobility_mg: i32,
    pub bishop_mobility_eg: i32,
    pub rook_mobility_mg: i32,
    pub rook_mobility_eg: i32,
    pub queen_mobility_mg: i32,
    pub queen_mobility_eg: i32,
    pub king_mobility_mg: i32,
    pub king_mobility_eg: i32,
    pub king_center_mg: i32,
    pub king_center_eg: i32,
    pub doubled_pawn_penalty_mg: i32,
    pub doubled_pawn_penalty_eg: i32,
    pub isolated_pawn_penalty_mg: i32,
    pub isolated_pawn_penalty_eg: i32,
    pub pawn_advance_bonus_mg: i32,
    pub pawn_advance_bonus_eg: i32,
    pub passed_pawn_mg: i32,
    pub passed_pawn_eg: i32,
    pub pp_rank_2_mg: i32,
    pub pp_rank_2_eg: i32,
    pub pp_rank_3_mg: i32,
    pub pp_rank_3_eg: i32,
    pub pp_rank_4_mg: i32,
    pub pp_rank_4_eg: i32,
    pub pp_rank_5_mg: i32,
    pub pp_rank_5_eg: i32,
    pub pp_rank_6_mg: i32,
    pub pp_rank_6_eg: i32,
    pub pp_rank_7_mg: i32,
    pub pp_rank_7_eg: i32,
    pub protected_passed_pawn_mg: i32,
    pub protected_passed_pawn_eg: i32,
    pub two_attackers_bonus_mg: i32,
    pub two_attackers_bonus_eg: i32,
    pub multiple_attackers_bonus_mg: i32,
    pub multiple_attackers_bonus_eg: i32,
    pub bishop_attack_bonus_mg: i32,
    pub bishop_attack_bonus_eg: i32,
    pub knight_attack_bonus_mg: i32,
    pub knight_attack_bonus_eg: i32,
    pub rook_attack_bonus_mg: i32,
    pub rook_attack_bonus_eg: i32,
    pub queen_attack_bonus_mg: i32,
    pub queen_attack_bonus_eg: i32,
    pub no_pawn_shield_penalty_mg: i32,
    pub no_pawn_shield_penalty_eg: i32,
    pub far_pawn_penalty_mg: i32,
    pub far_pawn_penalty_eg: i32,
}

impl TunableParams {
    /// The coefficients the engine plays with, as a record of the model.
    pub open spec fn spec_engine_defaults() -> EngineParams {
        let z = Score { mg: 0, eg: 0 };
        EngineParams {
            piece_values: [
                z,
                z,
                Score { mg: 66, eg: 85 },
                Score { mg: 298, eg: 273 },
                Score { mg: 290, eg: 320 },
                Score { mg: 456, eg: 486 },
                Score { mg: 905, eg: 805 },
                Score { mg: 100000, eg: 100000 },
            ],
            mobility_values: [
                z,
                z,
                z,
                Score { mg: 10, eg: 8 },
                Score { mg: 10, eg: 12 },
                Score { mg: 3, eg: 6 },
                Score { mg: 1, eg: 1 },
                Score { mg: 2, eg: 5 },
            ],
            king_center_bonus: Score { mg: 0, eg: 20 },
            doubled_pawn_penalty: Score { mg: 1, eg: 1 },
            isolated_pawn_penalty: Score { mg: 5, eg: 5 },
            pawn_advance_bonus: Score { mg: 3, eg: 3 },
            passed_pawn_base: Score { mg: 20, eg: 20 },
            passed_pawn_rank_bonus: [
                z,
                Score { mg: 5, eg: 5 },
                Score { mg: 10, eg: 10 },
                Score { mg: 20, eg: 20 },
                Score { mg: 35, eg: 35 },
                Score { mg: 60, eg: 60 },
                Score { mg: 100, eg: 100 },
                z,
            ],
            protected_passed_pawn_bonus: Score { mg: 10, eg: 10 },
            two_attacker_bonus: Score { mg: 3, eg: 0 },
            multiple_attacker_bonus: Score { mg: 5, eg: 0 },
            attack_weights: [
                z,
                z,
                z,
                Score { mg: 1, eg: 0 },
                Score { mg: 1, eg: 0 },
                Score { mg: 2, eg: 0 },
                Score { mg: 4, eg: 0 },
                z,
            ],
            no_pawn_shield_penalty: Score { mg: 6, eg: 0 },
            far_pawn_penalty: Score { mg: 3, eg: 0 },
        }
    }

    /// Every piece value is of magnitude at most [`PIECE_LIMIT`] and every
    /// other coefficient of magnitude at most [`WEIGHT_LIMIT`].
    pub open spec fn wf(&self) -> bool {
        &&& in_limit(self.pawn_mg as int, PIECE_LIMIT as int)
        &&& in_limit(self.pawn_eg as int, PIECE_LIMIT as int)
        &&& in_limit(self.knight_mg as int, PIECE_LIMIT as int)
        &&& in_limit(self.knight_eg as int, PIECE_LIMIT as int)
        &&& in_limit(self.bishop_mg as int, PIECE_LIMIT as int)
        &&& in_limit(self.bishop_eg as int, PIECE_LIMIT as int)
        &&& in_limit(self.rook_mg as int, PIECE_LIMIT as int)
        &&& in_limit(self.rook_eg as int, PIECE_LIMIT as int)
        &&& in_limit(self.queen_mg as int, PIECE_LIMIT as int)
        &&& in_limit(self.queen_eg as int, PIECE_LIMIT as int)
        &&& in_limit(self.knight_mobility_mg as int, WEIGHT_LIMIT as int)
        &&& in_limit(self.knight_mobility_eg as int, WEIGHT_LIMIT as int)
        &&& in_limit(self.bishop_mobility_mg as int, WEIGHT_LIMIT as int)
        &&& in_limit(self.bishop_mobility_eg as int, WEIGHT_LIMIT as int)
        &&& in_limit(self.rook_mobility_mg as int, WEIGHT_LIMIT as int)
        &&& in_limit(self.rook_mobility_eg as int, WEIGHT_LIMIT as int)
        &&& in_limit(self.queen_mobility_mg as int, WEIGHT_LIMIT as int)
        &&& in_limit(self.queen_mobility_eg as int, WEIGHT_LIMIT as int)
        &&& in_limit(self.king_mobility_mg as int, WEIGHT_LIMIT as int)
        &&& in_limit(self.king_mobility_eg as int, WEIGHT_LIMIT as int)
        &&& in_limit(self.king_center_mg as int, WEIGHT_LIMIT as int)
        &&& in_limit(self.king_center_eg as int, WEIGHT_LIMIT as int)
        &&& in_limit(self.doubled_pawn_penalty_mg as int, WEIGHT_LIMIT as int)
        &&& in_limit(self.doubled_pawn_penalty_eg as int, WEIGHT_LIMIT as int)
        &&& in_limit(self.isolated_pawn_penalty_mg as int, WEIGHT_LIMIT as int)
        &&& in_limit(self.isolated_pawn_penalty_eg as int, WEIGHT_LIMIT as int)
        &&& in_limit(self.pawn_advance_bonus_mg as int, WEIGHT_LIMIT as int)
        &&& in_limit(self.pawn_advance_bonus_eg as int, WEIGHT_LIMIT as int)
        &&& in_limit(self.passed_pawn_mg as int, WEIGHT_LIMIT as int)
        &&& in_limit(self.passed_pawn_eg as int, WEIGHT_LIMIT as int)
        &&& in_limit(self.pp_rank_2_mg as int, WEIGHT_LIMIT as int)
        &&& in_limit(self.pp_rank_2_eg as int, WEIGHT_LIMIT as int)
        &&& in_limit(self.pp_rank_3_mg as int, WEIGHT_LIMIT as int)
        &&& in_limit(self.pp_rank_3_eg as int, WEIGHT_LIMIT as int)
        &&& in_limit(self.pp_rank_4_mg as int, WEIGHT_LIMIT as int)
        &&& in_limit(self.pp_rank_4_eg as int, WEIGHT_LIMIT as int)
        &&& in_limit(self.pp_rank_5_mg as int, WEIGHT_LIMIT as int)
        &&& in_limit(self.pp_rank_5_eg as int, WEIGHT_LIMIT as int)
        &&& in_limit(self.pp_rank_6_mg as int, WEIGHT_LIMIT as int)
        &&& in_limit(self.pp_rank_6_eg as int, WEIGHT_LIMIT as int)
        &&& in_limit(self.pp_rank_7_mg as int, WEIGHT_LIMIT as int)
        &&& in_limit(self.pp_rank_7_eg as int, WEIGHT_LIMIT as int)
        &&& in_limit(self.protected_passed_pawn_mg as int, WEIGHT_LIMIT as int)
        &&& in_limit(self.protected_passed_pawn_eg as int, WEIGHT_LIMIT as int)
        &&& in_limit(self.two_attackers_bonus_mg as int, WEIGHT_LIMIT as int)
        &&& in_limit(self.two_attackers_bonus_eg as int, WEIGHT_LIMIT as int)
        &&& in_limit(self.multiple_attackers_bonus_mg as int, WEIGHT_LIMIT as int)
        &&& in_limit(self.multiple_attackers_bonus_eg as int, WEIGHT_LIMIT as int)
        &&& in_limit(self.bishop_attack_bonus_mg as int, WEIGHT_LIMIT as int)
        &&& in_limit(self.bishop_attack_bonus_eg as int, WEIGHT_LIMIT as int)
        &&& in_limit(self.knight_attack_bonus_mg as int, WEIGHT_LIMIT as int)
        &&& in_limit(self.knight_attack_bonus_eg as int, WEIGHT_LIMIT as int)
        &&& in_limit(self.rook_attack_bonus_mg as int, WEIGHT_LIMIT as int)
        &&& in_limit(self.rook_attack_bonus_eg as int, WEIGHT_LIMIT as int)
        &&& in_limit(self.queen_attack_bonus_mg as int, WEIGHT_LIMIT as int)
        &&& in_limit(self.queen_attack_bonus_eg as int, WEIGHT_LIMIT as int)
        &&& in_limit(self.no_pawn_shield_penalty_mg as int, WEIGHT_LIMIT as int)
        &&& in_limit(self.no_pawn_shield_penalty_eg as int, WEIGHT_LIMIT as int)
        &&& in_limit(self.far_pawn_penalty_mg as int, WEIGHT_LIMIT as int)
        &&& in_limit(self.far_pawn_penalty_eg as int, WEIGHT_LIMIT as int)
    }

    /// Whether the coefficients are within their limits.
    pub fn is_wf(&self) -> (r: bool)
        ensures
            r == self.wf(),
    {
        within(self.pawn_mg, PIECE_LIMIT) && within(self.pawn_eg, PIECE_LIMIT) && within(self.knight_mg, PIECE_LIMIT) && within(self.knight_eg, PIECE_LIMIT) && within(self.bishop_mg, PIECE_LIMIT) && within(self.bishop_eg, PIECE_LIMIT) && within(self.rook_mg, PIECE_LIMIT) && within(self.rook_eg, PIECE_LIMIT) && within(self.queen_mg, PIECE_LIMIT) && within(self.queen_eg, PIECE_LIMIT) && within(self.knight_mobility_mg, WEIGHT_LIMIT) && within(self.knight_mobility_eg, WEIGHT_LIMIT) && within(self.bishop_mobility_mg, WEIGHT_LIMIT) && within(self.bishop_mobility_eg, WEIGHT_LIMIT) && within(self.rook_mobility_mg, WEIGHT_LIMIT) && within(self.rook_mobility_eg, WEIGHT_LIMIT) && within(self.queen_mobility_mg, WEIGHT_LIMIT) && within(self.queen_mobility_eg, WEIGHT_LIMIT) && within(self.king_mobility_mg, WEIGHT_LIMIT) && within(self.king_mobility_eg, WEIGHT_LIMIT) && within(self.king_center_mg, WEIGHT_LIMIT) && within(self.king_center_eg, WEIGHT_LIMIT) && within(self.doubled_pawn_penalty_mg, WEIGHT_LIMIT) && within(self.doubled_pawn_penalty_eg, WEIGHT_LIMIT) && within(self.isolated_pawn_penalty_mg, WEIGHT_LIMIT) && within(self.isolated_pawn_penalty_eg, WEIGHT_LIMIT) && within(self.pawn_advance_bonus_mg, WEIGHT_LIMIT) && within(self.pawn_advance_bonus_eg, WEIGHT_LIMIT) && within(self.passed_pawn_mg, WEIGHT_LIMIT) && within(self.passed_pawn_eg, WEIGHT_LIMIT) && within(self.pp_rank_2_mg, WEIGHT_LIMIT) && within(self.pp_rank_2_eg, WEIGHT_LIMIT) && within(self.pp_rank_3_mg, WEIGHT_LIMIT) && within(self.pp_rank_3_eg, WEIGHT_LIMIT) && within(self.pp_rank_4_mg, WEIGHT_LIMIT) && within(self.pp_rank_4_eg, WEIGHT_LIMIT) && within(self.pp_rank_5_mg, WEIGHT_LIMIT) && within(self.pp_rank_5_eg, WEIGHT_LIMIT) && within(self.pp_rank_6_mg, WEIGHT_LIMIT) && within(self.pp_rank_6_eg, WEIGHT_LIMIT) && within(self.pp_rank_7_mg, WEIGHT_LIMIT) && within(self.pp_rank_7_eg, WEIGHT_LIMIT) && within(self.protected_passed_pawn_mg, WEIGHT_LIMIT) && within(self.protected_passed_pawn_eg, WEIGHT_LIMIT) && within(self.two_attackers_bonus_mg, WEIGHT_LIMIT) && within(self.two_attackers_bonus_eg, WEIGHT_LIMIT) && within(self.multiple_attackers_bonus_mg, WEIGHT_LIMIT) && within(self.multiple_attackers_bonus_eg, WEIGHT_LIMIT) && within(self.bishop_attack_bonus_mg, WEIGHT_LIMIT) && within(self.bishop_attack_bonus_eg, WEIGHT_LIMIT) && within(self.knight_attack_bonus_mg, WEIGHT_LIMIT) && within(self.knight_attack_bonus_eg, WEIGHT_LIMIT) && within(self.rook_attack_bonus_mg, WEIGHT_LIMIT) && within(self.rook_attack_bonus_eg, WEIGHT_LIMIT) && within(self.queen_attack_bonus_mg, WEIGHT_LIMIT) && within(self.queen_attack_bonus_eg, WEIGHT_LIMIT) && within(self.no_pawn_shield_penalty_mg, WEIGHT_LIMIT) && within(self.no_pawn_shield_penalty_eg, WEIGHT_LIMIT) && within(self.far_pawn_penalty_mg, WEIGHT_LIMIT) && within(self.far_pawn_penalty_eg, WEIGHT_LIMIT)
    }

    /// The coefficients from which tuning starts.
    pub fn baseline() -> (r: Self)
        ensures
            r.wf(),
            r == Self::spec_baseline(),
    {
        TunableParams {
            pawn_mg: 65,
            pawn_eg: 95,
            knight_mg: 322,
            knight_eg: 317,
            bishop_mg: 365,
            bishop_eg: 338,
            rook_mg: 461,
            rook_eg: 650,
            queen_mg: 1100,
            queen_eg: 1009,
            knight_mobility_mg: 9,
            knight_mobility_eg: 10,
            bishop_mobility_mg: 7,
            bishop_mobility_eg: 11,
            rook_mobility_mg: 5,
            rook_mobility_eg: 5,
            queen_mobility_mg: 0,
            queen_mobility_eg: 11,
            king_mobility_mg: -10i32,
            king_mobility_eg: 12,
            king_center_mg: 0,
            king_center_eg: 20,
            doubled_pawn_penalty_mg: 1,
            doubled_pawn_penalty_eg: 1,
            isolated_pawn_penalty_mg: 6,
            isolated_pawn_penalty_eg: 8,
            pawn_advance_bonus_mg: 1,
            pawn_advance_bonus_eg: 3,
            passed_pawn_mg: 20,
            passed_pawn_eg: 20,
            pp_rank_2_mg: 5,
            pp_rank_2_eg: 5,
            pp_rank_3_mg: 10,
            pp_rank_3_eg: 10,
            pp_rank_4_mg: 20,
            pp_rank_4_eg: 20,
            pp_rank_5_mg: 35,
            pp_rank_5_eg: 35,
            pp_rank_6_mg: 60,
            pp_rank_6_eg: 60,
            pp_rank_7_mg: 100,
            pp_rank_7_eg: 100,
            protected_passed_pawn_mg: 10,
            protected_passed_pawn_eg: 10,
            two_attackers_bonus_mg: 3,
            two_attackers_bonus_eg: 1,
            multiple_attackers_bonus_mg: 5,
            multiple_attackers_bonus_eg: 1,
            bishop_attack_bonus_mg: 1,
            bishop_attack_bonus_eg: 1,
            knight_attack_bonus_mg: 2,
            knight_attack_bonus_eg: 1,
            rook_attack_bonus_mg: 2,
            rook_attack_bonus_eg: 1,
            queen_attack_bonus_mg: 5,
            queen_attack_bonus_eg: 1,
            no_pawn_shield_penalty_mg: 9,
            no_pawn_shield_penalty_eg: 0,
            far_pawn_penalty_mg: 3,
            far_pawn_penalty_eg: 1,
        }
    }

    /// The coefficients from which tuning starts.
    pub open spec fn spec_baseline() -> TunableParams {
        TunableParams {
            pawn_mg: 65,
            pawn_eg: 95,
            knight_mg: 322,
            knight_eg: 317,
            bishop_mg: 365,
            bishop_eg: 338,
            rook_mg: 461,
            rook_eg: 650,
            queen_mg: 1100,
            queen_eg: 1009,
            knight_mobility_mg: 9,
            knight_mobility_eg: 10,
            bishop_mobility_mg: 7,
            bishop_mobility_eg: 11,
            rook_mobility_mg: 5,
            rook_mobility_eg: 5,
            queen_mobility_mg: 0,
            queen_mobility_eg: 11,
            king_mobility_mg: -10i32,
            king_mobility_eg: 12,
            king_center_mg: 0,
            king_center_eg: 20,
            doubled_pawn_penalty_mg: 1,
            doubled_pawn_penalty_eg: 1,
            isolated_pawn_penalty_mg: 6,
            isolated_pawn_penalty_eg: 8,
            pawn_advance_bonus_mg: 1,
            pawn_advance_bonus_eg: 3,
            passed_pawn_mg: 20,
            passed_pawn_eg: 20,
            pp_rank_2_mg: 5,
            pp_rank_2_eg: 5,
            pp_rank_3_mg: 10,
            pp_rank_3_eg: 10,
            pp_rank_4_mg: 20,
            pp_rank_4_eg: 20,
            pp_rank_5_mg: 35,
            pp_rank_5_eg: 35,
            pp_rank_6_mg: 60,
            pp_rank_6_eg: 60,
            pp_rank_7_mg: 100,
            pp_rank_7_eg: 100,
            protected_passed_pawn_mg: 10,
            protected_passed_pawn_eg: 10,
            two_attackers_bonus_mg: 3,
            two_attackers_bonus_eg: 1,
            multiple_attackers_bonus_mg: 5,
            multiple_attackers_bonus_eg: 1,
            bishop_attack_bonus_mg: 1,
            bishop_attack_bonus_eg: 1,
            knight_attack_bonus_mg: 2,
            knight_attack_bonus_eg: 1,
            rook_attack_bonus_mg: 2,
            rook_attack_bonus_eg: 1,
            queen_attack_bonus_mg: 5,
            queen_attack_bonus_eg: 1,
            no_pawn_shield_penalty_mg: 9,
            no_pawn_shield_penalty_eg: 0,
            far_pawn_penalty_mg: 3,
            far_pawn_penalty_eg: 1,
        }
    }

    /// The record that the evaluation reads, built from this list: each
    /// pair of a middlegame and an endgame coefficient becomes one score.
    /// The king is worth 100000 and is not tuned.
    pub open spec fn spec_engine_params(&self) -> EngineParams {
        let z = Score { mg: 0, eg: 0 };
        EngineParams {
            piece_values: [
                z,
                z,
                Score { mg: self.pawn_mg, eg: self.pawn_eg },
                Score { mg: self.knight_mg, eg: self.knight_eg },
                Score { mg: self.bishop_mg, eg: self.bishop_eg },
                Score { mg: self.rook_mg, eg: self.rook_eg },
                Score { mg: self.queen_mg, eg: self.queen_eg },
                Score { mg: 100000, eg: 100000 },
            ],
            mobility_values: [
                z,
                z,
                z,
                Score { mg: self.knight_mobility_mg, eg: self.knight_mobility_eg },
                Score { mg: self.bishop_mobility_mg, eg: self.bishop_mobility_eg },
                Score { mg: self.rook_mobility_mg, eg: self.rook_mobility_eg },
                Score { mg: self.queen_mobility_mg, eg: self.queen_mobility_eg },
                Score { mg: self.king_mobility_mg, eg: self.king_mobility_eg },
            ],
            king_center_bonus: Score { mg: self.king_center_mg, eg: self.king_center_eg },
            doubled_pawn_penalty: Score {
                mg: self.doubled_pawn_penalty_mg,
                eg: self.doubled_pawn_penalty_eg,
            },
            isolated_pawn_penalty: Score {
                mg: self.isolated_pawn_penalty_mg,
                eg: self.isolated_pawn_penalty_eg,
            },
            pawn_advance_bonus: Score {
                mg: self.pawn_advance_bonus_mg,
                eg: self.pawn_advance_bonus_eg,
            },
            passed_pawn_base: Score { mg: self.passed_pawn_mg, eg: self.passed_pawn_eg },
            passed_pawn_rank_bonus: [
                z,
                Score { mg: self.pp_rank_2_mg, eg: self.pp_rank_2_eg },
                Score { mg: self.pp_rank_3_mg, eg: self.pp_rank_3_eg },
                Score { mg: self.pp_rank_4_mg, eg: self.pp_rank_4_eg },
                Score { mg: self.pp_rank_5_mg, eg: self.pp_rank_5_eg },
                Score { mg: self.pp_rank_6_mg, eg: self.pp_rank_6_eg },
                Score { mg: self.pp_rank_7_mg, eg: self.pp_rank_7_eg },
                z,
            ],
            protected_passed_pawn_bonus: Score {
                mg: self.protected_passed_pawn_mg,
                eg: self.protected_passed_pawn_eg,
            },
            two_attacker_bonus: Score {
                mg: self.two_attackers_bonus_mg,
                eg: self.two_attackers_bonus_eg,
            },
            multiple_attacker_bonus: Score {
                mg: self.multiple_attackers_bonus_mg,
                eg: self.multiple_attackers_bonus_eg,
            },
            attack_weights: [
                z,
                z,
                z,
                Score { mg: self.knight_attack_bonus_mg, eg: self.knight_attack_bonus_eg },
                Score { mg: self.bishop_attack_bonus_mg, eg: self.bishop_attack_bonus_eg },
                Score { mg: self.rook_attack_bonus_mg, eg: self.rook_attack_bonus_eg },
                Score { mg: self.queen_attack_bonus_mg, eg: self.queen_attack_bonus_eg },
                z,
            ],
            no_pawn_shield_penalty: Score {
                mg: self.no_pawn_shield_penalty_mg,
                eg: self.no_pawn_shield_penalty_eg,
            },
            far_pawn_penalty: Score { mg: self.far_pawn_penalty_mg, eg: self.far_pawn_penalty_eg },
        }
    }

    /// The record that the evaluation reads, built from this list.
    pub fn to_engine_params(&self) -> (r: EngineParams)
        ensures
            r == self.spec_engine_params(),
            self.wf() ==> r.wf(),
    {
        let z = Score { mg: 0, eg: 0 };
        let r = EngineParams {
            piece_values: [
                z,
                z,
                Score { mg: self.pawn_mg, eg: self.pawn_eg },
                Score { mg: self.knight_mg, eg: self.knight_eg },
                Score { mg: self.bishop_mg, eg: self.bishop_eg },
                Score { mg: self.rook_mg, eg: self.rook_eg },
                Score { mg: self.queen_mg, eg: self.queen_eg },
                Score { mg: 100000, eg: 100000 },
            ],
            mobility_values: [
                z,
                z,
                z,
                Score { mg: self.knight_mobility_mg, eg: self.knight_mobility_eg },
                Score { mg: self.bishop_mobility_mg, eg: self.bishop_mobility_eg },
                Score { mg: self.rook_mobility_mg, eg: self.rook_mobility_eg },
                Score { mg: self.queen_mobility_mg, eg: self.queen_mobility_eg },
                Score { mg: self.king_mobility_mg, eg: self.king_mobility_eg },
            ],
            king_center_bonus: Score { mg: self.king_center_mg, eg: self.king_center_eg },
            doubled_pawn_penalty: Score {
                mg: self.doubled_pawn_penalty_mg,
                eg: self.doubled_pawn_penalty_eg,
            },
            isolated_pawn_penalty: Score {
                mg: self.isolated_pawn_penalty_mg,
                eg: self.isolated_pawn_penalty_eg,
            },
            pawn_advance_bonus: Score {
                mg: self.pawn_advance_bonus_mg,
                eg: self.pawn_advance_bonus_eg,
            },
            passed_pawn_base: Score { mg: self.passed_pawn_mg, eg: self.passed_pawn_eg },
            passed_pawn_rank_bonus: [
                z,
                Score { mg: self.pp_rank_2_mg, eg: self.pp_rank_2_eg },
                Score { mg: self.pp_rank_3_mg, eg: self.pp_rank_3_eg },
                Score { mg: self.pp_rank_4_mg, eg: self.pp_rank_4_eg },
                Score { mg: self.pp_rank_5_mg, eg: self.pp_rank_5_eg },
                Score { mg: self.pp_rank_6_mg, eg: self.pp_rank_6_eg },
                Score { mg: self.pp_rank_7_mg, eg: self.pp_rank_7_eg },
                z,
            ],
            protected_passed_pawn_bonus: Score {
                mg: self.protected_passed_pawn_mg,
                eg: self.protected_passed_pawn_eg,
            },
            two_attacker_bonus: Score {
                mg: self.two_attackers_bonus_mg,
                eg: self.two_attackers_bonus_eg,
            },
            multiple_attacker_bonus: Score {
                mg: self.multiple_attackers_bonus_mg,
                eg: self.multiple_attackers_bonus_eg,
            },
            attack_weights: [
                z,
                z,
                z,
                Score { mg: self.knight_attack_bonus_mg, eg: self.knight_attack_bonus_eg },
                Score { mg: self.bishop_attack_bonus_mg, eg: self.bishop_attack_bonus_eg },
                Score { mg: self.rook_attack_bonus_mg, eg: self.rook_attack_bonus_eg },
                Score { mg: self.queen_attack_bonus_mg, eg: self.queen_attack_bonus_eg },
                z,
            ],
            no_pawn_shield_penalty: Score {
                mg: self.no_pawn_shield_penalty_mg,
                eg: self.no_pawn_shield_penalty_eg,
            },
            far_pawn_penalty: Score { mg: self.far_pawn_penalty_mg, eg: self.far_pawn_penalty_eg },
        };
        assert(r.piece_values@ =~= self.spec_engine_params().piece_values@);
        assert(r.mobility_values@ =~= self.spec_engine_params().mobility_values@);
        assert(r.passed_pawn_rank_bonus@ =~= self.spec_engine_params().passed_pawn_rank_bonus@);
        assert(r.attack_weights@ =~= self.spec_engine_params().attack_weights@);
        assert(r.piece_values =~= self.spec_engine_params().piece_values);
        assert(r.mobility_values =~= self.spec_engine_params().mobility_values);
        assert(r.passed_pawn_rank_bonus =~= self.spec_engine_params().passed_pawn_rank_bonus);
        assert(r.attack_weights =~= self.spec_engine_params().attack_weights);
        r
    }

    /// Coefficient number `index` of the list.
    pub open spec fn spec_get(&self, index: int) -> i32 {
        if index == 0 {
            self.pawn_mg
        } else if index == 1 {
            self.pawn_eg
        } else if index == 2 {
            self.knight_mg
        } else if index == 3 {
            self.knight_eg
        } else if index == 4 {
            self.bishop_mg
        } else if index == 5 {
            self.bishop_eg
        } else if index == 6 {
            self.rook_mg
        } else if index == 7 {
            self.rook_eg
        } else if index == 8 {
            self.queen_mg
        } else if index == 9 {
            self.queen_eg
        } else if index == 10 {
            self.knight_mobility_mg
        } else if index == 11 {
            self.knight_mobility_eg
        } else if index == 12 {
            self.bishop_mobility_mg
        } else if index == 13 {
            self.bishop_mobility_eg
        } else if index == 14 {
            self.rook_mobility_mg
        } else if index == 15 {
            self.rook_mobility_eg
        } else if index == 16 {
            self.queen_mobility_mg
        } else if index == 17 {
            self.queen_mobility_eg
        } else if index == 18 {
            self.king_mobility_mg
        } else if index == 19 {
            self.king_mobility_eg
        } else if index == 20 {
            self.king_center_mg
        } else if index == 21 {
            self.king_center_eg
        } else if index == 22 {
            self.doubled_pawn_penalty_mg
        } else if index == 23 {
            self.doubled_pawn_penalty_eg
        } else if index == 24 {
            self.isolated_pawn_penalty_mg
        } else if index == 25 {
            self.isolated_pawn_penalty_eg
        } else if index == 26 {
            self.pawn_advance_bonus_mg
        } else if index == 27 {
            self.pawn_advance_bonus_eg
        } else if index == 28 {
            self.passed_pawn_mg
        } else if index == 29 {
            self.passed_pawn_eg
        } else if index == 30 {
            self.pp_rank_2_mg
        } else if index == 31 {
            self.pp_rank_2_eg
        } else if index == 32 {
            self.pp_rank_3_mg
        } else if index == 33 {
            self.pp_rank_3_eg
        } else if index == 34 {
            self.pp_rank_4_mg
        } else if index == 35 {
            self.pp_rank_4_eg
        } else if index == 36 {
            self.pp_rank_5_mg
        } else if index == 37 {
            self.pp_rank_5_eg
        } else if index == 38 {
            self.pp_rank_6_mg
        } else if index == 39 {
            self.pp_rank_6_eg
        } else if index == 40 {
            self.pp_rank_7_mg
        } else if index == 41 {
            self.pp_rank_7_eg
        } else if index == 42 {
            self.protected_passed_pawn_mg
        } else if index == 43 {
            self.protected_passed_pawn_eg
        } else if index == 44 {
            self.two_attackers_bonus_mg
        } else if index == 45 {
            self.two_attackers_bonus_eg
        } else if index == 46 {
            self.multiple_attackers_bonus_mg
        } else if index == 47 {
            self.multiple_attackers_bonus_eg
        } else if index == 48 {
            self.bishop_attack_bonus_mg
        } else if index == 49 {
            self.bishop_attack_bonus_eg
        } else if index == 50 {
            self.knight_attack_bonus_mg
        } else if index == 51 {
            self.knight_attack_bonus_eg
        } else if index == 52 {
            self.rook_attack_bonus_mg
        } else if index == 53 {
            self.rook_attack_bonus_eg
        } else if index == 54 {
            self.queen_attack_bonus_mg
        } else if index == 55 {
            self.queen_attack_bonus_eg
        } else if index == 56 {
            self.no_pawn_shield_penalty_mg
        } else if index == 57 {
            self.no_pawn_shield_penalty_eg
        } else if index == 58 {
            self.far_pawn_penalty_mg
        } else {
            self.far_pawn_penalty_eg
        }
    }

    /// Whether every coefficient, taken by its number, is within its limit.
    pub open spec fn all_in_limit(&self) -> bool {
        forall|i: int|
            0 <= i < PARAM_COUNT ==> in_limit(#[trigger] self.spec_get(i) as int, spec_param_limit(i))
    }

    /// A list of coefficients is well formed exactly when each
    /// coefficient, taken by its number, is within its limit.
    pub proof fn lemma_wf_by_number(&self)
        ensures
            self.wf() == self.all_in_limit(),
    {
        if self.all_in_limit() {
            assert(in_limit(self.spec_get(0) as int, spec_param_limit(0)));
            assert(in_limit(self.spec_get(1) as int, spec_param_limit(1)));
            assert(in_limit(self.spec_get(2) as int, spec_param_limit(2)));
            assert(in_limit(self.spec_get(3) as int, spec_param_limit(3)));
            assert(in_limit(self.spec_get(4) as int, spec_param_limit(4)));
            assert(in_limit(self.spec_get(5) as int, spec_param_limit(5)));
            assert(in_limit(self.spec_get(6) as int, spec_param_limit(6)));
            assert(in_limit(self.spec_get(7) as int, spec_param_limit(7)));
            assert(in_limit(self.spec_get(8) as int, spec_param_limit(8)));
            assert(in_limit(self.spec_get(9) as int, spec_param_limit(9)));
            assert(in_limit(self.spec_get(10) as int, spec_param_limit(10)));
            assert(in_limit(self.spec_get(11) as int, spec_param_limit(11)));
            assert(in_limit(self.spec_get(12) as int, spec_param_limit(12)));
            assert(in_limit(self.spec_get(13) as int, spec_param_limit(13)));
            assert(in_limit(self.spec_get(14) as int, spec_param_limit(14)));
            assert(in_limit(self.spec_get(15) as int, spec_param_limit(15)));
            assert(in_limit(self.spec_get(16) as int, spec_param_limit(16)));
            assert(in_limit(self.spec_get(17) as int, spec_param_limit(17)));
            assert(in_limit(self.spec_get(18) as int, spec_param_limit(18)));
            assert(in_limit(self.spec_get(19) as int, spec_param_limit(19)));
            assert(in_limit(self.spec_get(20) as int, spec_param_limit(20)));
            assert(in_limit(self.spec_get(21) as int, spec_param_limit(21)));
            assert(in_limit(self.spec_get(22) as int, spec_param_limit(22)));
            assert(in_limit(self.spec_get(23) as int, spec_param_limit(23)));
            assert(in_limit(self.spec_get(24) as int, spec_param_limit(24)));
            assert(in_limit(self.spec_get(25) as int, spec_param_limit(25)));
            assert(in_limit(self.spec_get(26) as int, spec_param_limit(26)));
            assert(in_limit(self.spec_get(27) as int, spec_param_limit(27)));
            assert(in_limit(self.spec_get(28) as int, spec_param_limit(28)));
            assert(in_limit(self.spec_get(29) as int, spec_param_limit(29)));
            assert(in_limit(self.spec_get(30) as int, spec_param_limit(30)));
            assert(in_limit(self.spec_get(31) as int, spec_param_limit(31)));
            assert(in_limit(self.spec_get(32) as int, spec_param_limit(32)));
            assert(in_limit(self.spec_get(33) as int, spec_param_limit(33)));
            assert(in_limit(self.spec_get(34) as int, spec_param_limit(34)));
            assert(in_limit(self.spec_get(35) as int, spec_param_limit(35)));
            assert(in_limit(self.spec_get(36) as int, spec_param_limit(36)));
            assert(in_limit(self.spec_get(37) as int, spec_param_limit(37)));
            assert(in_limit(self.spec_get(38) as int, spec_param_limit(38)));
            assert(in_limit(self.spec_get(39) as int, spec_param_limit(39)));
            assert(in_limit(self.spec_get(40) as int, spec_param_limit(40)));
            assert(in_limit(self.spec_get(41) as int, spec_param_limit(41)));
            assert(in_limit(self.spec_get(42) as int, spec_param_limit(42)));
            assert(in_limit(self.spec_get(43) as int, spec_param_limit(43)));
            assert(in_limit(self.spec_get(44) as int, spec_param_limit(44)));
            assert(in_limit(self.spec_get(45) as int, spec_param_limit(45)));
            assert(in_limit(self.spec_get(46) as int, spec_param_limit(46)));
            assert(in_limit(self.spec_get(47) as int, spec_param_limit(47)));
            assert(in_limit(self.spec_get(48) as int, spec_param_limit(48)));
            assert(in_limit(self.spec_get(49) as int, spec_param_limit(49)));
            assert(in_limit(self.spec_get(50) as int, spec_param_limit(50)));
            assert(in_limit(self.spec_get(51) as int, spec_param_limit(51)));
            assert(in_limit(self.spec_get(52) as int, spec_param_limit(52)));
            assert(in_limit(self.spec_get(53) as int, spec_param_limit(53)));
            assert(in_limit(self.spec_get(54) as int, spec_param_limit(54)));
            assert(in_limit(self.spec_get(55) as int, spec_param_limit(55)));
            assert(in_limit(self.spec_get(56) as int, spec_param_limit(56)));
            assert(in_limit(self.spec_get(57) as int, spec_param_limit(57)));
            assert(in_limit(self.spec_get(58) as int, spec_param_limit(58)));
            assert(in_limit(self.spec_get(59) as int, spec_param_limit(59)));
        }
    }

    /// Coefficient number `index` of the list.
    pub fn get_param_value(&self, index: usize) -> (r: i32)
        requires
            index < PARAM_COUNT,
        ensures
            r == self.spec_get(index as int),
    {
        match index {
            0 => self.pawn_mg,
            1 => self.pawn_eg,
            2 => self.knight_mg,
            3 => self.knight_eg,
            4 => self.bishop_mg,
            5 => self.bishop_eg,
            6 => self.rook_mg,
            7 => self.rook_eg,
            8 => self.queen_mg,
            9 => self.queen_eg,
            10 => self.knight_mobility_mg,
            11 => self.knight_mobility_eg,
            12 => self.bishop_mobility_mg,
            13 => self.bishop_mobility_eg,
            14 => self.rook_mobility_mg,
            15 => self.rook_mobility_eg,
            16 => self.queen_mobility_mg,
            17 => self.queen_mobility_eg,
            18 => self.king_mobility_mg,
            19 => self.king_mobility_eg,
            20 => self.king_center_mg,
            21 => self.king_center_eg,
            22 => self.doubled_pawn_penalty_mg,
            23 => self.doubled_pawn_penalty_eg,
            24 => self.isolated_pawn_penalty_mg,
            25 => self.isolated_pawn_penalty_eg,
            26 => self.pawn_advance_bonus_mg,
            27 => self.pawn_advance_bonus_eg,
            28 => self.passed_pawn_mg,
            29 => self.passed_pawn_eg,
            30 => self.pp_rank_2_mg,
            31 => self.pp_rank_2_eg,
            32 => self.pp_rank_3_mg,
            33 => self.pp_rank_3_eg,
            34 => self.pp_rank_4_mg,
            35 => self.pp_rank_4_eg,
            36 => self.pp_rank_5_mg,
            37 => self.pp_rank_5_eg,
            38 => self.pp_rank_6_mg,
            39 => self.pp_rank_6_eg,
            40 => self.pp_rank_7_mg,
            41 => self.pp_rank_7_eg,
            42 => self.protected_passed_pawn_mg,
            43 => self.protected_passed_pawn_eg,
            44 => self.two_attackers_bonus_mg,
            45 => self.two_attackers_bonus_eg,
            46 => self.multiple_attackers_bonus_mg,
            47 => self.multiple_attackers_bonus_eg,
            48 => self.bishop_attack_bonus_mg,
            49 => self.bishop_attack_bonus_eg,
            50 => self.knight_attack_bonus_mg,
            51 => self.knight_attack_bonus_eg,
            52 => self.rook_attack_bonus_mg,
            53 => self.rook_attack_bonus_eg,
            54 => self.queen_attack_bonus_mg,
            55 => self.queen_attack_bonus_eg,
            56 => self.no_pawn_shield_penalty_mg,
            57 => self.no_pawn_shield_penalty_eg,
            58 => self.far_pawn_penalty_mg,
            _ => self.far_pawn_penalty_eg,
        }
    }

    /// Replaces coefficient number `index`, a piece value.
    fn set_piece_value(&mut self, index: usize, value: i32)
        requires
            0 <= index < 10,
        ensures
            forall|i: int|
                0 <= i < PARAM_COUNT ==> #[trigger] final(self).spec_get(i) == (if i == index {
                    value
                } else {
                    old(self).spec_get(i)
                }),
    {
        match index {
            0 => {
                self.pawn_mg = value;
            },
            1 => {
                self.pawn_eg = value;
            },
            2 => {
                self.knight_mg = value;
            },
            3 => {
                self.knight_eg = value;
            },
            4 => {
                self.bishop_mg = value;
            },
            5 => {
                self.bishop_eg = value;
            },
            6 => {
                self.rook_mg = value;
            },
            7 => {
                self.rook_eg = value;
            },
            8 => {
                self.queen_mg = value;
            },
            _ => {
                self.queen_eg = value;
            },
        }
    }

    /// Replaces coefficient number `index`, a mobility weight.
    fn set_mobility_weight(&mut self, index: usize, value: i32)
        requires
            10 <= index < 20,
        ensures
            forall|i: int|
                0 <= i < PARAM_COUNT ==> #[trigger] final(self).spec_get(i) == (if i == index {
                    value
                } else {
                    old(self).spec_get(i)
                }),
    {
        match index {
            10 => {
                self.knight_mobility_mg = value;
            },
            11 => {
                self.knight_mobility_eg = value;
            },
            12 => {
                self.bishop_mobility_mg = value;
            },
            13 => {
                self.bishop_mobility_eg = value;
            },
            14 => {
                self.rook_mobility_mg = value;
            },
            15 => {
                self.rook_mobility_eg = value;
            },
            16 => {
                self.queen_mobility_mg = value;
            },
            17 => {
                self.queen_mobility_eg = value;
            },
            18 => {
                self.king_mobility_mg = value;
            },
            _ => {
                self.king_mobility_eg = value;
            },
        }
    }

    /// Replaces coefficient number `index`, a weight of the king's place or of the pawn structure.
    fn set_structure_weight(&mut self, index: usize, value: i32)
        requires
            20 <= index < 28,
        ensures
            forall|i: int|
                0 <= i < PARAM_COUNT ==> #[trigger] final(self).spec_get(i) == (if i == index {
                    value
                } else {
                    old(self).spec_get(i)
                }),
    {
        match index {
            20 => {
                self.king_center_mg = value;
            },
            21 => {
                self.king_center_eg = value;
            },
            22 => {
                self.doubled_pawn_penalty_mg = value;
            },
            23 => {
                self.doubled_pawn_penalty_eg = value;
            },
            24 => {
                self.isolated_pawn_penalty_mg = value;
            },
            25 => {
                self.isolated_pawn_penalty_eg = value;
            },
            26 => {
                self.pawn_advance_bonus_mg = value;
            },
            _ => {
                self.pawn_advance_bonus_eg = value;
            },
        }
    }

    /// Replaces coefficient number `index`, a weight of the passed pawns.
    fn set_passed_weight(&mut self, index: usize, value: i32)
        requires
            28 <= index < 44,
        ensures
            forall|i: int|
                0 <= i < PARAM_COUNT ==> #[trigger] final(self).spec_get(i) == (if i == index {
                    value
                } else {
                    old(self).spec_get(i)
                }),
    {
        match index {
            28 => {
                self.passed_pawn_mg = value;
            },
            29 => {
                self.passed_pawn_eg = value;
            },
            30 => {
                self.pp_rank_2_mg = value;
            },
            31 => {
                self.pp_rank_2_eg = value;
            },
            32 => {
                self.pp_rank_3_mg = value;
            },
            33 => {
                self.pp_rank_3_eg = value;
            },
            34 => {
                self.pp_rank_4_mg = value;
            },
            35 => {
                self.pp_rank_4_eg = value;
            },
            36 => {
                self.pp_rank_5_mg = value;
            },
            37 => {
                self.pp_rank_5_eg = value;
            },
            38 => {
                self.pp_rank_6_mg = value;
            },
            39 => {
                self.pp_rank_6_eg = value;
            },
            40 => {
                self.pp_rank_7_mg = value;
            },
            41 => {
                self.pp_rank_7_eg = value;
            },
            42 => {
                self.protected_passed_pawn_mg = value;
            },
            _ => {
                self.protected_passed_pawn_eg = value;
            },
        }
    }

    /// Replaces coefficient number `index`, a weight of the king's safety.
    fn set_safety_weight(&mut self, index: usize, value: i32)
        requires
            44 <= index < 60,
        ensures
            forall|i: int|
                0 <= i < PARAM_COUNT ==> #[trigger] final(self).spec_get(i) == (if i == index {
                    value
                } else {
                    old(self).spec_get(i)
                }),
    {
        match index {
            44 => {
                self.two_attackers_bonus_mg = value;
            },
            45 => {
                self.two_attackers_bonus_eg = value;
            },
            46 => {
                self.multiple_attackers_bonus_mg = value;
            },
            47 => {
                self.multiple_attackers_bonus_eg = value;
            },
            48 => {
                self.bishop_attack_bonus_mg = value;
            },
            49 => {
                self.bishop_attack_bonus_eg = value;
            },
            50 => {
                self.knight_attack_bonus_mg = value;
            },
            51 => {
                self.knight_attack_bonus_eg = value;
            },
            52 => {
                self.rook_attack_bonus_mg = value;
            },
            53 => {
                self.rook_attack_bonus_eg = value;
            },
            54 => {
                self.queen_attack_bonus_mg = value;
            },
            55 => {
                self.queen_attack_bonus_eg = value;
            },
            56 => {
                self.no_pawn_shield_penalty_mg = value;
            },
            57 => {
                self.no_pawn_shield_penalty_eg = value;
            },
            58 => {
                self.far_pawn_penalty_mg = value;
            },
            _ => {
                self.far_pawn_penalty_eg = value;
            },
        }
    }

    /// Replaces coefficient number `index` and leaves the others alone.
    pub fn set_param_value(&mut self, index: usize, value: i32)
        requires
            index < PARAM_COUNT,
        ensures
            forall|i: int|
                0 <= i < PARAM_COUNT ==> #[trigger] final(self).spec_get(i) == (if i == index {
                    value
                } else {
                    old(self).spec_get(i)
                }),
    {
        if index < 10 {
            self.set_piece_value(index, value);
        } else if index < 20 {
            self.set_mobility_weight(index, value);
        } else if index < 28 {
            self.set_structure_weight(index, value);
        } else if index < 44 {
            self.set_passed_weight(index, value);
        } else {
            self.set_safety_weight(index, value);
        }
    }

    /// The name of coefficient number `index`.
    pub open spec fn spec_param_name(index: int) -> Seq<char> {
        if index == 0 {
            "pawn_mg"@
        } else if index == 1 {
            "pawn_eg"@
        } else if index == 2 {
            "knight_mg"@
        } else if index == 3 {
            "knight_eg"@
        } else if index == 4 {
            "bishop_mg"@
        } else if index == 5 {
            "bishop_eg"@
        } else if index == 6 {
            "rook_mg"@
        } else if index == 7 {
            "rook_eg"@
        } else if index == 8 {
            "queen_mg"@
        } else if index == 9 {
            "queen_eg"@
        } else if index == 10 {
            "knight_mobility_mg"@
        } else if index == 11 {
            "knight_mobility_eg"@
        } else if index == 12 {
            "bishop_mobility_mg"@
        } else if index == 13 {
            "bishop_mobility_eg"@
        } else if index == 14 {
            "rook_mobility_mg"@
        } else if index == 15 {
            "rook_mobility_eg"@
        } else if index == 16 {
            "queen_mobility_mg"@
        } else if index == 17 {
            "queen_mobility_eg"@
        } else if index == 18 {
            "king_mobility_mg"@
        } else if index == 19 {
            "king_mobility_eg"@
        } else if index == 20 {
            "king_center_mg"@
        } else if index == 21 {
            "king_center_eg"@
        } else if index == 22 {
            "doubled_pawn_penalty_mg"@
        } else if index == 23 {
            "doubled_pawn_penalty_eg"@
        } else if index == 24 {
            "isolated_pawn_penalty_mg"@
        } else if index == 25 {
            "isolated_pawn_penalty_eg"@
        } else if index == 26 {
            "pawn_advance_bonus_mg"@
        } else if index == 27 {
            "pawn_advance_bonus_eg"@
        } else if index == 28 {
            "passed_pawn_mg"@
        } else if index == 29 {
            "passed_pawn_eg"@
        } else if index == 30 {
            "pp_rank_2_mg"@
        } else if index == 31 {
            "pp_rank_2_eg"@
        } else if index == 32 {
            "pp_rank_3_mg"@
        } else if index == 33 {
            "pp_rank_3_eg"@
        } else if index == 34 {
            "pp_rank_4_mg"@
        } else if index == 35 {
            "pp_rank_4_eg"@
        } else if index == 36 {
            "pp_rank_5_mg"@
        } else if index == 37 {
            "pp_rank_5_eg"@
        } else if index == 38 {
            "pp_rank_6_mg"@
        } else if index == 39 {
            "pp_rank_6_eg"@
        } else if index == 40 {
            "pp_rank_7_mg"@
        } else if index == 41 {
            "pp_rank_7_eg"@
        } else if index == 42 {
            "protected_passed_pawn_mg"@
        } else if index == 43 {
            "protected_passed_pawn_eg"@
        } else if index == 44 {
            "two_attackers_bonus_mg"@
        } else if index == 45 {
            "two_attackers_bonus_eg"@
        } else if index == 46 {
            "multiple_attackers_bonus_mg"@
        } else if index == 47 {
            "multiple_attackers_bonus_eg"@
        } else if index == 48 {
            "bishop_attack_bonus_mg"@
        } else if index == 49 {
            "bishop_attack_bonus_eg"@
        } else if index == 50 {
            "knight_attack_bonus_mg"@
        } else if index == 51 {
            "knight_attack_bonus_eg"@
        } else if index == 52 {
            "rook_attack_bonus_mg"@
        } else if index == 53 {
            "rook_attack_bonus_eg"@
        } else if index == 54 {
            "queen_attack_bonus_mg"@
        } else if index == 55 {
            "queen_attack_bonus_eg"@
        } else if index == 56 {
            "no_pawn_shield_penalty_mg"@
        } else if index == 57 {
            "no_pawn_shield_penalty_eg"@
        } else if index == 58 {
            "far_pawn_penalty_mg"@
        } else {
            "far_pawn_penalty_eg"@
        }
    }

    /// The name of coefficient number `index`.
    pub fn param_name(index: usize) -> (r: &'static str)
        requires
            index < PARAM_COUNT,
        ensures
            r@ == Self::spec_param_name(index as int),
    {
        match index {
            0 => "pawn_mg",
            1 => "pawn_eg",
            2 => "knight_mg",
            3 => "knight_eg",
            4 => "bishop_mg",
            5 => "bishop_eg",
            6 => "rook_mg",
            7 => "rook_eg",
            8 => "queen_mg",
            9 => "queen_eg",
            10 => "knight_mobility_mg",
            11 => "knight_mobility_eg",
            12 => "bishop_mobility_mg",
            13 => "bishop_mobility_eg",
            14 => "rook_mobility_mg",
            15 => "rook_mobility_eg",
            16 => "queen_mobility_mg",
            17 => "queen_mobility_eg",
            18 => "king_mobility_mg",
            19 => "king_mobility_eg",
            20 => "king_center_mg",
            21 => "king_center_eg",
            22 => "doubled_pawn_penalty_mg",
            23 => "doubled_pawn_penalty_eg",
            24 => "isolated_pawn_penalty_mg",
            25 => "isolated_pawn_penalty_eg",
            26 => "pawn_advance_bonus_mg",
            27 => "pawn_advance_bonus_eg",
            28 => "passed_pawn_mg",
            29 => "passed_pawn_eg",
            30 => "pp_rank_2_mg",
            31 => "pp_rank_2_eg",
            32 => "pp_rank_3_mg",
            33 => "pp_rank_3_eg",
            34 => "pp_rank_4_mg",
            35 => "pp_rank_4_eg",
            36 => "pp_rank_5_mg",
            37 => "pp_rank_5_eg",
            38 => "pp_rank_6_mg",
            39 => "pp_rank_6_eg",
            40 => "pp_rank_7_mg",
            41 => "pp_rank_7_eg",
            42 => "protected_passed_pawn_mg",
            43 => "protected_passed_pawn_eg",
            44 => "two_attackers_bonus_mg",
            45 => "two_attackers_bonus_eg",
            46 => "multiple_attackers_bonus_mg",
            47 => "multiple_attackers_bonus_eg",
            48 => "bishop_attack_bonus_mg",
            49 => "bishop_attack_bonus_eg",
            50 => "knight_attack_bonus_mg",
            51 => "knight_attack_bonus_eg",
            52 => "rook_attack_bonus_mg",
            53 => "rook_attack_bonus_eg",
            54 => "queen_attack_bonus_mg",
            55 => "queen_attack_bonus_eg",
            56 => "no_pawn_shield_penalty_mg",
            57 => "no_pawn_shield_penalty_eg",
            58 => "far_pawn_penalty_mg",
            _ => "far_pawn_penalty_eg",
        }
    }

    /// By how much the tuner moves coefficient number `index` to probe the
    /// error on either side: by 3, 5 and 9 for the values of the minor
    /// pieces, the rook and the queen, and by 1 for everything else.
    pub open spec fn spec_param_delta(index: int) -> int {
        if index == 2 || index == 3 || index == 4 || index == 5 {
            3
        } else if index == 6 || index == 7 {
            5
        } else if index == 8 || index == 9 {
            9
        } else {
            1
        }
    }

    /// By how much the tuner moves coefficient number `index` to probe the
    /// error on either side.
    pub fn param_delta(index: usize) -> (r: i32)
        requires
            index < PARAM_COUNT,
        ensures
            r == Self::spec_param_delta(index as int),
            1 <= r <= 9,
    {
        if index == 2 || index == 3 || index == 4 || index == 5 {
            3
        } else if index == 6 || index == 7 {
            5
        } else if index == 8 || index == 9 {
            9
        } else {
            1
        }
    }
}

} // verus!
