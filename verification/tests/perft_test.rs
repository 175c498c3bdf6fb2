use bytechess::fen::board_from_fen;
use bytechess::perft::perft;

const START: &str = "rnbqkbnr/pppppppp/8/8/8/8/PPPPPPPP/RNBQKBNR w KQkq - 0 1";

#[test]
fn perft_start_depth_1() {
    let mut b = board_from_fen(START).unwrap();
    assert_eq!(perft(&mut b, 1), 20);
}

#[test]
fn perft_start_depth_2() {
    let mut b = board_from_fen(START).unwrap();
    assert_eq!(perft(&mut b, 2), 400);
}

#[test]
fn perft_start_depth_3() {
    let mut b = board_from_fen(START).unwrap();
    assert_eq!(perft(&mut b, 3), 8902);
}

#[test]
fn perft_start_depth_4() {
    let mut b = board_from_fen(START).unwrap();
    assert_eq!(perft(&mut b, 4), 197281);
}

#[test]
fn perft_start_depth_5() {
    let mut b = board_from_fen(START).unwrap();
    assert_eq!(perft(&mut b, 5), 4865609);
}

#[test]
fn perft_kiwipete_depth_3() {
    let mut b =
        board_from_fen("r3k2r/p1ppqpb1/bn2pnp1/3PN3/1p2P3/2N2Q1p/PPPBBPPP/R3K2R w KQkq - 0 1")
            .unwrap();
    assert_eq!(perft(&mut b, 1), 48);
    assert_eq!(perft(&mut b, 2), 2039);
    assert_eq!(perft(&mut b, 3), 97862);
}

#[test]
fn perft_endgame_position_depth_4() {
    let mut b = board_from_fen("8/2p5/3p4/KP5r/1R3p1k/8/4P1P1/8 w - - 0 1").unwrap();
    assert_eq!(perft(&mut b, 1), 14);
    assert_eq!(perft(&mut b, 2), 191);
    assert_eq!(perft(&mut b, 3), 2812);
    assert_eq!(perft(&mut b, 4), 43238);
}

#[test]
fn perft_promotion_position_depth_3() {
    let mut b =
        board_from_fen("r3k2r/Pppp1ppp/1b3nbN/nP6/BBP1P3/q4N2/Pp1P2PP/R2Q1RK1 w kq - 0 1").unwrap();
    assert_eq!(perft(&mut b, 1), 6);
    assert_eq!(perft(&mut b, 2), 264);
    assert_eq!(perft(&mut b, 3), 9467);
}

#[test]
fn perft_of_depth_zero_counts_the_moves() {
    let mut b = board_from_fen(START).unwrap();
    assert_eq!(perft(&mut b, 0), 20);
}

#[test]
fn perft_of_a_mated_side_is_zero() {
    let mut b = board_from_fen("R5k1/5ppp/8/8/8/8/5PPP/6K1 b - - 0 1").unwrap();
    assert_eq!(perft(&mut b, 1), 0);
    assert_eq!(perft(&mut b, 3), 0);
}

#[test]
fn perft_leaves_the_board_alone() {
    let mut b = board_from_fen(START).unwrap();
    let before = b.clone();
    perft(&mut b, 3);
    assert_eq!(b.bitboards, before.bitboards);
    assert_eq!(b.zobrist_hash, before.zobrist_hash);
    assert_eq!(b.castling_rights, before.castling_rights);
    assert!(b.move_history.is_empty());
    assert!(b.state_history.is_empty());
}
