use bytechess::eval::{
    evaluate, evaluate_king_safety, evaluate_passed_pawn, evaluate_pawn_shelter, get_king_zone,
    is_passed_pawn, king_distance_to_corner, king_edge, king_safety_score, material_score,
    mobility_score, pawn_evaluation, pawn_struct_score,
};
use bytechess::fen::board_from_fen;
use bytechess::params::{EngineParams, Score, TunableParams, PARAM_COUNT};
use bytechess::table::{PawnEntry, PawnTable};

const START: &str = "rnbqkbnr/pppppppp/8/8/8/8/PPPPPPPP/RNBQKBNR w KQkq - 0 1";

#[test]
fn taper_blends_by_the_phase() {
    let s = Score::new(100, 200);
    assert_eq!(s.taper(0), 100);
    assert_eq!(s.taper(255), 200);
    // (100 * 155 + 200 * 100) / 255 = 35500 / 255 = 139
    assert_eq!(s.taper(100), 139);
    // division is towards zero on either side
    assert_eq!(Score::new(-100, -200).taper(100), -139);
    assert_eq!(Score::new(1, 0).taper(1), 0);
    assert_eq!(Score::new(-1, 0).taper(1), 0);
    assert_eq!(Score::from_single(7), Score { mg: 7, eg: 7 });
}

#[test]
fn phase_of_start_and_of_bare_kings() {
    let b = board_from_fen(START).unwrap();
    assert_eq!(b.get_phase(), 0);
    let e = board_from_fen("4k3/8/8/8/8/8/8/4K3 w - - 0 1").unwrap();
    assert_eq!(e.get_phase(), 255);
    // one queen and one rook on the board: 24 - 6 = 18 left, 18 * 255 / 24 = 191
    let m = board_from_fen("4k3/8/8/8/8/8/8/R2QK3 w - - 0 1").unwrap();
    assert_eq!(m.get_phase(), 191);
}

#[test]
fn start_position_is_balanced() {
    let b = board_from_fen(START).unwrap();
    let p = EngineParams::new();
    let mut t = PawnTable::with_slots(1024);
    assert_eq!(material_score(&b, &p), Score::new(0, 0));
    assert_eq!(mobility_score(&b, &p), Score::new(0, 0));
    assert_eq!(king_safety_score(&b, &p), Score::new(0, 0));
    assert_eq!(king_edge(&b, &p), Score::new(0, 0));
    assert_eq!(pawn_struct_score(&b, &p), Score::new(0, 0));
    assert_eq!(evaluate(&b, &p, &mut t), 0);
}

#[test]
fn king_and_pawn_against_king() {
    let b = board_from_fen("4k3/8/8/8/8/8/4P3/4K3 w - - 0 1").unwrap();
    let p = EngineParams::new();
    assert_eq!(material_score(&b, &p), Score::new(66, 85));
    // the white king has four squares, the black king five
    assert_eq!(mobility_score(&b, &p), Score::new(-2, -5));
    assert_eq!(king_edge(&b, &p), Score::new(0, 0));
    // advance 3 * 1, passed 20 + 5, isolated -5
    assert_eq!(pawn_evaluation(&b, true, &p), Score::new(23, 23));
    assert_eq!(pawn_evaluation(&b, false, &p), Score::new(0, 0));
    assert_eq!(pawn_struct_score(&b, &p), Score::new(23, 23));
    let mut t = PawnTable::with_slots(1024);
    assert_eq!(evaluate(&b, &p, &mut t), 103);
    let c = board_from_fen("4k3/8/8/8/8/8/4P3/4K3 b - - 0 1").unwrap();
    assert_eq!(evaluate(&c, &p, &mut t), -103);
}

#[test]
fn evaluation_is_the_same_from_the_other_side_of_the_board() {
    let p = EngineParams::new();
    let pairs = [
        (
            "r1bqkbnr/pppp1ppp/2n5/4p3/4P3/5N2/PPPP1PPP/RNBQKB1R w KQkq - 2 3",
            "rnbqkb1r/pppp1ppp/5n2/4p3/4P3/2N5/PPPP1PPP/R1BQKBNR b KQkq - 2 3",
        ),
        (
            "r3k2r/p1ppqpb1/bn2pnp1/3PN3/1p2P3/2N2Q1p/PPPBBPPP/R3K2R w KQkq - 0 1",
            "r3k2r/pppbbppp/2n2q1P/1P2p3/3pn3/BN2PNP1/P1PPQPB1/R3K2R b KQkq - 0 1",
        ),
        ("8/2p5/3p4/KP5r/1R3p1k/8/4P1P1/8 w - - 0 1", "8/4p1p1/8/1r3P1K/kp5R/3P4/2P5/8 b - - 0 1"),
    ];
    for (fen, mirrored) in pairs {
        let a = board_from_fen(fen).unwrap();
        let b = board_from_fen(mirrored).unwrap();
        let mut t = PawnTable::with_slots(1024);
        let ea = evaluate(&a, &p, &mut t);
        let mut u = PawnTable::with_slots(1024);
        let eb = evaluate(&b, &p, &mut u);
        assert_eq!(ea, eb);
        // and the parts from White's side are negated
        assert_eq!(material_score(&a, &p).mg, -material_score(&b, &p).mg);
        assert_eq!(mobility_score(&a, &p).eg, -mobility_score(&b, &p).eg);
        assert_eq!(king_safety_score(&a, &p).mg, -king_safety_score(&b, &p).mg);
        assert_eq!(pawn_struct_score(&a, &p).mg, -pawn_struct_score(&b, &p).mg);
        assert_eq!(king_edge(&a, &p).eg, -king_edge(&b, &p).eg);
    }
}

#[test]
fn corner_distance_of_the_king() {
    let b = board_from_fen("k7/8/8/8/3K4/8/8/8 w - - 0 1").unwrap();
    assert_eq!(king_distance_to_corner(&b, true), 3);
    assert_eq!(king_distance_to_corner(&b, false), 0);
    let p = EngineParams::new();
    assert_eq!(king_edge(&b, &p), Score::new(0, 60));
    let c = board_from_fen("8/1k6/8/8/8/8/6K1/8 w - - 0 1").unwrap();
    assert_eq!(king_distance_to_corner(&c, true), 1);
    assert_eq!(king_distance_to_corner(&c, false), 1);
}

#[test]
fn passed_pawns() {
    // white pawn on e5 (36); black pawns
    assert!(is_passed_pawn(36, true, 0));
    assert!(!is_passed_pawn(36, true, 1 << 44)); // e6
    assert!(!is_passed_pawn(36, true, 1 << 51)); // d7
    assert!(!is_passed_pawn(36, true, 1 << 53)); // f7
    assert!(is_passed_pawn(36, true, 1 << 50)); // c7
    assert!(is_passed_pawn(36, true, 1 << 35)); // d5, beside it
    assert!(is_passed_pawn(36, true, 1 << 28)); // e4, behind it
    // black pawn on d4 (27)
    assert!(is_passed_pawn(27, false, 1 << 35));
    assert!(!is_passed_pawn(27, false, 1 << 18)); // c3
    assert!(!is_passed_pawn(27, false, 1 << 11)); // d2
    // on the a-file the h-file of the rank below is no neighbour
    assert!(is_passed_pawn(24, true, 1 << 39));
    let p = EngineParams::new();
    // rank index 4 from White's side: 20 + 35, guarded by d4: + 10
    assert_eq!(evaluate_passed_pawn(36, 4, 4, true, 1 << 36, &p), Score::new(55, 55));
    assert_eq!(evaluate_passed_pawn(36, 4, 4, true, (1 << 36) | (1 << 27), &p), Score::new(65, 65));
    // black pawn on d4: rank index 3 from White's side is 4 from Black's
    assert_eq!(evaluate_passed_pawn(27, 3, 3, false, 1 << 27, &p), Score::new(55, 55));
    assert_eq!(evaluate_passed_pawn(27, 3, 3, false, (1 << 27) | (1 << 36), &p), Score::new(65, 65));
}

#[test]
fn doubled_and_isolated_pawns() {
    let p = EngineParams::new();
    // three white pawns on the a-file, none elsewhere; Black has a pawn on b7
    let b = board_from_fen("4k3/1p6/8/8/P7/P7/P7/4K3 w - - 0 1").unwrap();
    // advance: 3 * (1 + 2 + 4) = 21; no pawn is passed; doubled 1 * (3 - 1)^2 = 4; isolated 5
    assert_eq!(pawn_evaluation(&b, true, &p), Score::new(21 - 4 - 5, 21 - 4 - 5));
    // the black pawn on b7 is on its home rank: 3 * 1, not passed (a-pawns ahead), isolated
    assert_eq!(pawn_evaluation(&b, false, &p), Score::new(3 - 5, 3 - 5));
}

#[test]
fn king_zone_and_shelter() {
    assert_eq!(get_king_zone(0), 0x0000000000000303);
    assert_eq!(get_king_zone(6), 0x000000000000e0e0);
    let p = EngineParams::new();
    let castled = board_from_fen("4k3/8/8/8/8/8/5PPP/6K1 w - - 0 1").unwrap();
    assert_eq!(evaluate_pawn_shelter(&castled, 6, true, &p), Score::new(0, 0));
    let bare = board_from_fen("4k3/8/8/8/8/8/8/6K1 w - - 0 1").unwrap();
    assert_eq!(evaluate_pawn_shelter(&bare, 6, true, &p), Score::new(18, 0));
    // pawns far up the board: g5 is four ranks from the king, h2 is near, the f-file is bare
    let far = board_from_fen("4k3/8/8/6P1/8/8/7P/6K1 w - - 0 1").unwrap();
    assert_eq!(evaluate_pawn_shelter(&far, 6, true, &p), Score::new(6 + 3 * 2, 0));
    // a king on the a-file has two files to shelter it
    let edge = board_from_fen("4k3/8/8/8/8/8/8/K7 w - - 0 1").unwrap();
    assert_eq!(evaluate_pawn_shelter(&edge, 0, true, &p), Score::new(12, 0));
}

#[test]
fn king_safety_counts_the_attackers() {
    let p = EngineParams::new();
    // a black queen on g5 looks down the g-file at the king on g1 behind its pawns
    let quiet = board_from_fen("4k3/8/8/8/8/8/5PPP/6K1 w - - 0 1").unwrap();
    assert_eq!(evaluate_king_safety(&quiet, true, &p), Score::new(0, 0));
    let b = board_from_fen("4k3/8/8/6q1/8/8/5PPP/6K1 w - - 0 1").unwrap();
    // the queen attacks g2 only: 4 * 1 = 4 units, penalty 3
    assert_eq!(evaluate_king_safety(&b, true, &p), Score::new(-3, 0));
    // with a rook on h6 as well attacking h2: 4 + 2 + bonus 3 = 9 units, penalty 15
    let c = board_from_fen("4k3/8/7r/6q1/8/8/5PPP/6K1 w - - 0 1").unwrap();
    assert_eq!(evaluate_king_safety(&c, true, &p), Score::new(-15, 0));
    // a side without a king has no king safety
    let d = board_from_fen("4k3/8/8/8/8/8/8/8 w - - 0 1").unwrap();
    assert_eq!(evaluate_king_safety(&d, true, &p), Score::new(0, 0));
}

#[test]
fn pawn_score_comes_from_the_table_when_it_is_there() {
    let b = board_from_fen("4k3/8/8/8/8/8/4P3/4K3 w - - 0 1").unwrap();
    let p = EngineParams::new();
    let mut t = PawnTable::with_slots(1024);
    assert!(t.probe(b.pawn_hash).is_none());
    assert_eq!(evaluate(&b, &p, &mut t), 103);
    assert_eq!(t.probe(b.pawn_hash), Some(&PawnEntry { zobrist: b.pawn_hash, mg: 23, eg: 23 }));
    // a foreign entry under the same key is believed
    t.store(PawnEntry { zobrist: b.pawn_hash, mg: 0, eg: 1023 });
    assert_eq!(evaluate(&b, &p, &mut t), 103 - 23 + 1023);
}

#[test]
fn tunable_parameters_by_number() {
    let mut t = TunableParams::baseline();
    assert!(t.is_wf());
    assert_eq!(PARAM_COUNT, 60);
    assert_eq!(t.get_param_value(0), 65);
    assert_eq!(t.get_param_value(1), 95);
    assert_eq!(t.get_param_value(18), -10);
    assert_eq!(t.get_param_value(59), 1);
    assert_eq!(TunableParams::param_name(0), "pawn_mg");
    assert_eq!(TunableParams::param_name(59), "far_pawn_penalty_eg");
    assert_eq!(TunableParams::param_delta(0), 1);
    assert_eq!(TunableParams::param_delta(2), 3);
    assert_eq!(TunableParams::param_delta(6), 5);
    assert_eq!(TunableParams::param_delta(9), 9);
    assert_eq!(TunableParams::param_delta(10), 1);
    for i in 0..PARAM_COUNT {
        let before = t;
        t.set_param_value(i, 1234);
        for j in 0..PARAM_COUNT {
            if i == j {
                assert_eq!(t.get_param_value(j), 1234);
            } else {
                assert_eq!(t.get_param_value(j), before.get_param_value(j));
            }
        }
        t.set_param_value(i, before.get_param_value(i));
        assert_eq!(t, before);
    }
    t.set_param_value(0, 1_000_001);
    assert!(!t.is_wf());
}

#[test]
fn engine_parameters_from_the_tunable_list() {
    let t = TunableParams::baseline();
    let e = t.to_engine_params();
    assert_eq!(e.piece_values[2], Score::new(65, 95));
    assert_eq!(e.piece_values[6], Score::new(1100, 1009));
    assert_eq!(e.piece_values[7], Score::new(100000, 100000));
    assert_eq!(e.mobility_values[7], Score::new(-10, 12));
    assert_eq!(e.passed_pawn_rank_bonus[6], Score::new(100, 100));
    assert_eq!(e.passed_pawn_rank_bonus[0], Score::new(0, 0));
    assert_eq!(e.attack_weights[3], Score::new(2, 1));
    assert_eq!(e.attack_weights[4], Score::new(1, 1));
    assert_eq!(e.far_pawn_penalty, Score::new(3, 1));
    let d = EngineParams::new();
    assert_eq!(d.piece_values[2], Score::new(66, 85));
    assert_eq!(d.mobility_values[3], Score::new(10, 8));
    assert_eq!(d.king_center_bonus, Score::new(0, 20));
}

#[test]
fn coefficient_names() {
    assert_eq!(TunableParams::param_name(1), "pawn_eg");
    assert_eq!(TunableParams::param_name(20), "king_center_mg");
    assert_eq!(TunableParams::param_name(30), "pp_rank_2_mg");
}

#[test]
fn the_safety_table_saturates_at_both_ends() {
    let mut p = EngineParams::new();
    let b = board_from_fen("4k3/8/8/6q1/8/8/5PPP/6K1 w - - 0 1").unwrap();
    // negative units read the first entry, units above 99 the last
    p.attack_weights[6] = Score::new(-4, 200);
    assert_eq!(evaluate_king_safety(&b, true, &p), Score::new(0, -500));
    p.attack_weights[6] = Score::new(99, 100);
    assert_eq!(evaluate_king_safety(&b, true, &p), Score::new(-500, -500));
    p.attack_weights[6] = Score::new(0, 1);
    assert_eq!(evaluate_king_safety(&b, true, &p), Score::new(0, 0));
}
