use bytechess::attacks::{bishop_attacks, king_attacks, knight_attacks, rook_attacks};
use bytechess::bits::{bb_get, bb_gs_low_bit, bb_set};
use bytechess::board::{castling_rights_to_bits, Board};
use bytechess::fen::board_from_fen;
use bytechess::makemove::{make_move, make_null_move, undo_move, undo_null_move};
use bytechess::moves::Move;
use bytechess::position::Piece;
use bytechess::square::BBPiece;
use bytechess::threat::is_check;

const START: &str = "rnbqkbnr/pppppppp/8/8/8/8/PPPPPPPP/RNBQKBNR w KQkq - 0 1";
const KIWIPETE: &str = "r3k2r/p1ppqpb1/bn2pnp1/3PN3/1p2P3/2N2Q1p/PPPBBPPP/R3K2R w KQkq - 0 1";

fn uci_moves(b: &mut Board, legal_only: bool) -> Vec<String> {
    b.gen_moves(legal_only);
    let mut v: Vec<String> = b.moves.iter().iter().map(|m| m.to_uci()).collect();
    v.sort();
    v
}

fn find(b: &mut Board, uci: &str) -> Move {
    b.gen_moves(false);
    let all = b.moves.iter();
    *all.iter().find(|m| m.to_uci() == uci).unwrap()
}

fn invariants_hold(b: &Board) {
    let white = b.bitboards[0];
    let black = b.bitboards[1];
    let kinds =
        b.bitboards[2] | b.bitboards[3] | b.bitboards[4] | b.bitboards[5] | b.bitboards[6] | b.bitboards[7];
    assert_eq!(white & black, 0);
    assert_eq!(white | black, kinds);
    for i in 2..8 {
        for j in (i + 1)..8 {
            assert_eq!(b.bitboards[i] & b.bitboards[j], 0);
        }
    }
    assert_eq!((b.bitboards[7] & white).count_ones(), 1);
    assert_eq!((b.bitboards[7] & black).count_ones(), 1);
    assert_eq!(b.zobrist_hash, b.compute_hash());
    assert_eq!(b.pawn_hash, b.compute_pawn_hash());
}

#[test]
fn bitboard_primitives() {
    let mut bb = 0u64;
    bb_set(&mut bb, 0, true);
    bb_set(&mut bb, 63, true);
    bb_set(&mut bb, 17, true);
    assert_eq!(bb, 1 | (1 << 17) | (1 << 63));
    assert!(bb_get(bb, 17));
    assert!(!bb_get(bb, 18));
    bb_set(&mut bb, 17, false);
    assert!(!bb_get(bb, 17));
    assert_eq!(bb_gs_low_bit(&mut bb), 0);
    assert_eq!(bb, 1 << 63);
    assert_eq!(bb_gs_low_bit(&mut bb), 63);
    assert_eq!(bb, 0);
    assert_eq!(bb_gs_low_bit(&mut bb), 64);
}

#[test]
fn leaper_attacks_match_the_known_sets() {
    assert_eq!(knight_attacks(0), 0x0000000000020400);
    assert_eq!(knight_attacks(27), 0x0000142200221400);
    assert_eq!(knight_attacks(63), 0x0020400000000000);
    assert_eq!(king_attacks(0), 0x0000000000000302);
    assert_eq!(king_attacks(27), 0x0000001c141c0000);
    assert_eq!(king_attacks(63), 0x40c0000000000000);
}

#[test]
fn slider_attacks_stop_at_the_first_piece() {
    // rook on a1, empty board: the a-file and the first rank
    assert_eq!(rook_attacks(0, 0), 0x01010101010101fe);
    // rook on a1 with pieces on a3 and c1
    assert_eq!(rook_attacks(0, (1 << 16) | (1 << 2)), (1 << 8) | (1 << 16) | (1 << 1) | (1 << 2));
    // bishop on d4, empty board
    assert_eq!(bishop_attacks(27, 0), 0x8041221400142241);
    // bishop on d4 with a piece on f6
    assert_eq!(bishop_attacks(27, 1 << 45), 0x0001021400142241 | (1 << 36) | (1 << 45));
}

#[test]
fn bishop_attacks_are_mutual() {
    let occ: u64 = 0x00ff_0000_1824_ff00;
    for s in 0..64usize {
        let from_s = bishop_attacks(s, occ);
        for t in 0..64usize {
            if bb_get(from_s, t) {
                assert!(bb_get(bishop_attacks(t, occ), s));
            }
        }
    }
}

#[test]
fn rook_attacks_are_mutual() {
    let occ: u64 = 0x0042_0010_0800_2400;
    for s in 0..64usize {
        let from_s = rook_attacks(s, occ);
        for t in 0..64usize {
            assert_eq!(bb_get(from_s, t), bb_get(rook_attacks(t, occ), s));
        }
    }
}

#[test]
fn start_position_from_fen() {
    let b = board_from_fen(START).unwrap();
    assert_eq!(b.bitboards[0], 0x000000000000ffff);
    assert_eq!(b.bitboards[1], 0xffff000000000000);
    assert_eq!(b.bitboards[2], 0x00ff00000000ff00);
    assert_eq!(b.bitboards[3], 0x4200000000000042);
    assert_eq!(b.bitboards[4], 0x2400000000000024);
    assert_eq!(b.bitboards[5], 0x8100000000000081);
    assert_eq!(b.bitboards[6], 0x0800000000000008);
    assert_eq!(b.bitboards[7], 0x1000000000000010);
    assert_eq!(b.move_color, 1);
    assert_eq!(b.castling_rights, [true, true, true, true]);
    assert_eq!(b.en_passant, None);
    assert_eq!(b.halfmove_clock, 0);
    assert_eq!(b.fullmove_number, 1);
    assert!(b.state_history.is_empty());
    assert!(b.move_history.is_empty());
    assert_eq!(b.piece_at(4), Some(Piece { white: true, kind: BBPiece::King }));
    assert_eq!(b.piece_at(59), Some(Piece { white: false, kind: BBPiece::Queen }));
    assert_eq!(b.piece_at(30), None);
    invariants_hold(&b);
}

#[test]
fn fen_fields_are_read() {
    let b = board_from_fen("4k3/8/8/3pP3/8/8/8/4K2R w K d6 17 42").unwrap();
    assert_eq!(b.castling_rights, [true, false, false, false]);
    assert_eq!(b.en_passant, Some(43));
    assert_eq!(b.halfmove_clock, 17);
    assert_eq!(b.fullmove_number, 42);
    let c = board_from_fen("  4k3/8/8/8/8/8/8/4K3   b  -  -  ").unwrap();
    assert_eq!(c.move_color, -1);
    assert_eq!(c.castling_rights, [false, false, false, false]);
    assert_eq!(c.halfmove_clock, 0);
    assert_eq!(c.fullmove_number, 1);
    // clocks that are no numbers, or too large, fall back to 0 and 1
    let d = board_from_fen("4k3/8/8/8/8/8/8/4K3 w - - x 70000").unwrap();
    assert_eq!(d.halfmove_clock, 0);
    assert_eq!(d.fullmove_number, 1);
    let e = board_from_fen("4k3/8/8/8/8/8/8/4K3 w - - 255 65535").unwrap();
    assert_eq!(e.halfmove_clock, 255);
    assert_eq!(e.fullmove_number, 65535);
    let f = board_from_fen("4k3/8/8/8/8/8/8/4K3 w - - 256 007").unwrap();
    assert_eq!(f.halfmove_clock, 0);
    assert_eq!(f.fullmove_number, 7);
}

#[test]
fn malformed_fen_is_rejected() {
    assert!(board_from_fen("").is_none());
    assert!(board_from_fen("rnbqkbnr/pppppppp/8/8/8/8/PPPPPPPP/RNBQKBNR w KQkq").is_none());
    // seven ranks
    assert!(board_from_fen("rnbqkbnr/pppppppp/8/8/8/PPPPPPPP/RNBQKBNR w KQkq - 0 1").is_none());
    // a rank of nine
    assert!(board_from_fen("rnbqkbnr/ppppppppp/8/8/8/8/PPPPPPPP/RNBQKBNR w KQkq - 0 1").is_none());
    // a rank of seven
    assert!(board_from_fen("rnbqkbnr/ppppppp/8/8/8/8/PPPPPPPP/RNBQKBNR w KQkq - 0 1").is_none());
    // an unknown piece letter
    assert!(board_from_fen("rnbqkbnr/pppppppp/8/8/8/8/PPPPPPPP/RNBQKBNX w KQkq - 0 1").is_none());
    // no side
    assert!(board_from_fen("rnbqkbnr/pppppppp/8/8/8/8/PPPPPPPP/RNBQKBNR x KQkq - 0 1").is_none());
    // no square
    assert!(board_from_fen("rnbqkbnr/pppppppp/8/8/8/8/PPPPPPPP/RNBQKBNR w KQkq e9 0 1").is_none());
    // an en-passant square without the pawn that passed it
    assert!(board_from_fen("rnbqkbnr/pppppppp/8/8/8/8/PPPPPPPP/RNBQKBNR w KQkq e6 0 1").is_none());
    // a castling right without its rook
    assert!(board_from_fen("rnbqkbnr/pppppppp/8/8/8/8/PPPPPPPP/RNBQKBN1 w KQkq - 0 1").is_none());
}

#[test]
fn castling_mask() {
    assert_eq!(castling_rights_to_bits(&[false, false, false, false]), 0);
    assert_eq!(castling_rights_to_bits(&[true, false, false, false]), 1);
    assert_eq!(castling_rights_to_bits(&[false, true, false, true]), 10);
    assert_eq!(castling_rights_to_bits(&[true, true, true, true]), 15);
}

#[test]
fn raw_bitboard_access() {
    let mut b = board_from_fen(START).unwrap();
    assert!(b.get(&[BBPiece::White, BBPiece::Pawn], 12));
    assert!(!b.get(&[BBPiece::Black, BBPiece::Pawn], 12));
    assert!(b.get(&[], 30));
    assert_eq!(b.combined(&[BBPiece::White, BBPiece::Black], false), 0xffff00000000ffff);
    assert_eq!(b.combined(&[BBPiece::White, BBPiece::Pawn], true), 0xff00);
    assert_eq!(b.combined(&[], true), 0);
    b.set(&[BBPiece::White, BBPiece::Pawn], 12, false);
    assert!(!b.get(&[BBPiece::White], 12));
    b.set(&[BBPiece::White, BBPiece::Pawn], 28, true);
    assert!(b.get(&[BBPiece::White, BBPiece::Pawn], 28));
    b.move_piece(&[BBPiece::White, BBPiece::Pawn], 28, 36);
    assert!(b.get(&[BBPiece::White, BBPiece::Pawn], 36));
    assert!(!b.get(&[BBPiece::Pawn], 28));
}

#[test]
fn start_position_has_twenty_moves() {
    let mut b = board_from_fen(START).unwrap();
    let moves = uci_moves(&mut b, false);
    assert_eq!(moves.len(), 20);
    assert!(moves.contains(&"e2e4".to_string()));
    assert!(moves.contains(&"g1f3".to_string()));
    assert!(!moves.contains(&"e1g1".to_string()));
    assert_eq!(uci_moves(&mut b, true), moves);
}

#[test]
fn make_and_undo_restore_the_position() {
    for fen in [
        START,
        KIWIPETE,
        "rnbqkbnr/ppp1pppp/8/3pP3/8/8/PPPP1PPP/RNBQKBNR w KQkq d6 0 2",
        "r3k2r/Pppp1ppp/1b3nbN/nP6/BBP1P3/q4N2/Pp1P2PP/R2Q1RK1 w kq - 0 1",
        "r3k2r/8/8/8/8/8/8/R3K2R b KQkq - 5 9",
        "8/2p5/3p4/KP5r/1R3p1k/8/4P1P1/8 b - - 3 40",
    ] {
        let mut b = board_from_fen(fen).unwrap();
        b.gen_moves(false);
        let moves = b.moves.iter();
        let before = b.clone();
        for m in moves.iter() {
            assert!(make_move(&mut b, m).is_ok());
            invariants_hold(&b);
            assert_eq!(b.move_color, -before.move_color);
            assert_eq!(b.move_history.last(), Some(m));
            assert!(undo_move(&mut b).is_ok());
            assert_eq!(b, before);
        }
    }
}

#[test]
fn hash_follows_a_line_of_moves() {
    let mut b = board_from_fen(START).unwrap();
    let start_hash = b.zobrist_hash;
    for uci in ["e2e4", "c7c5", "g1f3", "d7d6", "f1b5", "c8d7", "e1g1", "d7b5"] {
        let m = find(&mut b, uci);
        make_move(&mut b, &m).unwrap();
        invariants_hold(&b);
    }
    assert_eq!(b.position_history.len(), 8);
    assert_eq!(b.position_history[0], start_hash);
    for _ in 0..8 {
        undo_move(&mut b).unwrap();
        invariants_hold(&b);
    }
    assert_eq!(b.zobrist_hash, start_hash);
    let fresh = board_from_fen(START).unwrap();
    assert_eq!(b.bitboards, fresh.bitboards);
    assert_eq!(b.castling_rights, fresh.castling_rights);
    assert!(b.move_history.is_empty());
    assert!(b.position_history.is_empty());
}

#[test]
fn clocks_and_castling_rights_after_moves() {
    let mut b = board_from_fen("r3k2r/8/8/8/8/8/8/R3K2R w KQkq - 5 9").unwrap();
    let m = find(&mut b, "a1a8");
    make_move(&mut b, &m).unwrap();
    // the rook left a1 and took the rook on a8
    assert_eq!(b.castling_rights, [true, false, true, false]);
    assert_eq!(b.halfmove_clock, 0);
    assert_eq!(b.fullmove_number, 9);
    let k = find(&mut b, "e8e7");
    make_move(&mut b, &k).unwrap();
    assert_eq!(b.castling_rights, [true, false, false, false]);
    assert_eq!(b.halfmove_clock, 1);
    assert_eq!(b.fullmove_number, 10);
    assert_eq!(b.captures_history, vec![(BBPiece::Black, BBPiece::Rook)]);
}

#[test]
fn double_push_sets_the_en_passant_square() {
    let mut b = board_from_fen(START).unwrap();
    let m = find(&mut b, "e2e4");
    assert_eq!(m.flags(), 1);
    make_move(&mut b, &m).unwrap();
    assert_eq!(b.en_passant, Some(20));
    let n = find(&mut b, "g8f6");
    make_move(&mut b, &n).unwrap();
    assert_eq!(b.en_passant, None);
}

#[test]
fn en_passant_takes_the_pawn_behind() {
    let mut b =
        board_from_fen("rnbqkbnr/ppp1pppp/8/3pP3/8/8/PPPP1PPP/RNBQKBNR w KQkq d6 0 2").unwrap();
    let legal = uci_moves(&mut b, true);
    assert!(legal.contains(&"e5d6".to_string()));
    let m = find(&mut b, "e5d6");
    assert_eq!(m.flags(), 5);
    let before = b.clone();
    make_move(&mut b, &m).unwrap();
    assert_eq!(b.piece_at(35), None);
    assert_eq!(b.piece_at(36), None);
    assert_eq!(b.piece_at(43), Some(Piece { white: true, kind: BBPiece::Pawn }));
    assert_eq!(b.captures_history, vec![(BBPiece::Black, BBPiece::Pawn)]);
    invariants_hold(&b);
    undo_move(&mut b).unwrap();
    assert_eq!(b, before);
}

#[test]
fn castling_moves_the_rook() {
    let mut b = board_from_fen("r3k2r/8/8/8/8/8/8/R3K2R w KQkq - 0 1").unwrap();
    let pseudo = uci_moves(&mut b, false);
    assert!(pseudo.contains(&"e1g1".to_string()));
    assert!(pseudo.contains(&"e1c1".to_string()));
    let m = find(&mut b, "e1g1");
    assert_eq!(m.flags(), 2);
    make_move(&mut b, &m).unwrap();
    assert_eq!(b.piece_at(6), Some(Piece { white: true, kind: BBPiece::King }));
    assert_eq!(b.piece_at(5), Some(Piece { white: true, kind: BBPiece::Rook }));
    assert_eq!(b.piece_at(7), None);
    assert_eq!(b.piece_at(4), None);
    assert_eq!(b.castling_rights, [false, false, true, true]);
    assert!(!b.king_is_attacked());
    let l = find(&mut b, "e8c8");
    assert_eq!(l.flags(), 3);
    make_move(&mut b, &l).unwrap();
    assert_eq!(b.piece_at(58), Some(Piece { white: false, kind: BBPiece::King }));
    assert_eq!(b.piece_at(59), Some(Piece { white: false, kind: BBPiece::Rook }));
    assert_eq!(b.piece_at(56), None);
    assert_eq!(b.castling_rights, [false, false, false, false]);
}

#[test]
fn castling_through_check_is_pseudo_legal_but_not_legal() {
    // the bishop on h3 looks at f1, over which the king would pass
    let mut b = board_from_fen("r3k2r/8/8/8/8/7b/8/R3K2R w KQkq - 0 1").unwrap();
    let pseudo = uci_moves(&mut b, false);
    assert!(pseudo.contains(&"e1g1".to_string()));
    assert!(pseudo.contains(&"e1c1".to_string()));
    let legal = uci_moves(&mut b, true);
    assert!(!legal.contains(&"e1g1".to_string()));
    assert!(legal.contains(&"e1c1".to_string()));
    let m = find(&mut b, "e1g1");
    assert!(!b.is_legal_move(&m));
    make_move(&mut b, &m).unwrap();
    assert!(b.king_is_attacked());
    undo_move(&mut b).unwrap();
}

#[test]
fn castling_with_a_bishop_on_f3() {
    // the bishop on f3 looks at d1 and h1, not at f1 or g1: the king may
    // castle short, over squares that are not attacked, and may not castle long
    let mut b = board_from_fen("r3k2r/8/8/8/8/5b2/8/R3K2R w KQkq - 0 1").unwrap();
    assert!(b.square_attacked_by(3, false));
    assert!(b.square_attacked_by(7, false));
    assert!(!b.square_attacked_by(5, false));
    assert!(!b.square_attacked_by(6, false));
    let pseudo = uci_moves(&mut b, false);
    assert!(pseudo.contains(&"e1g1".to_string()));
    assert!(pseudo.contains(&"e1c1".to_string()));
    let legal = uci_moves(&mut b, true);
    assert!(legal.contains(&"e1g1".to_string()));
    assert!(!legal.contains(&"e1c1".to_string()));
}

#[test]
fn castling_out_of_check_is_not_legal() {
    let mut b = board_from_fen("r3k2r/8/8/8/8/8/4r3/R3K2R w KQkq - 0 1").unwrap();
    let pseudo = uci_moves(&mut b, false);
    assert!(pseudo.contains(&"e1g1".to_string()));
    let legal = uci_moves(&mut b, true);
    assert!(!legal.contains(&"e1g1".to_string()));
    assert!(!legal.contains(&"e1c1".to_string()));
}

#[test]
fn promotions_come_in_fours() {
    let mut b = board_from_fen("1n2k3/P7/8/8/8/8/8/4K3 w - - 0 1").unwrap();
    b.gen_moves(false);
    let all = b.moves.iter();
    let pushes: Vec<u8> =
        all.iter().filter(|m| m.from_square() == 48 && m.to_square() == 56).map(|m| m.flags()).collect();
    let mut sorted = pushes.clone();
    sorted.sort();
    assert_eq!(sorted, vec![8, 9, 10, 11]);
    let takes: Vec<u8> =
        all.iter().filter(|m| m.from_square() == 48 && m.to_square() == 57).map(|m| m.flags()).collect();
    let mut sorted = takes.clone();
    sorted.sort();
    assert_eq!(sorted, vec![12, 13, 14, 15]);
    // a blocked pawn does not promote
    let mut c = board_from_fen("n3k3/P7/8/8/8/8/8/4K3 w - - 0 1").unwrap();
    c.gen_moves(false);
    assert!(c.moves.iter().iter().all(|m| m.from_square() != 48));
}

#[test]
fn promotion_puts_the_new_piece_on_the_board() {
    let mut b = board_from_fen("1n2k3/P7/8/8/8/8/8/4K3 w - - 0 1").unwrap();
    let q = find(&mut b, "a7b8q");
    let before = b.clone();
    assert_eq!(q.flags(), 15);
    make_move(&mut b, &q).unwrap();
    assert_eq!(b.piece_at(57), Some(Piece { white: true, kind: BBPiece::Queen }));
    assert_eq!(b.piece_at(48), None);
    assert_eq!(b.halfmove_clock, 0);
    invariants_hold(&b);
    undo_move(&mut b).unwrap();
    assert_eq!(b, before);
    let n = find(&mut b, "a7a8n");
    make_move(&mut b, &n).unwrap();
    assert_eq!(b.piece_at(56), Some(Piece { white: true, kind: BBPiece::Knight }));
    assert_eq!(b.halfmove_clock, 0);
}

#[test]
fn attacked_squares() {
    let b = board_from_fen(START).unwrap();
    // White attacks the third rank, not the fourth
    for s in 16..24 {
        assert!(b.square_is_attacked(s));
        assert!(!b.square_attacked_by(s, false));
    }
    for s in 24..32 {
        assert!(!b.square_is_attacked(s));
    }
    assert!(b.square_attacked_by(40, false));
    assert!(!b.king_is_attacked());
    assert!(!is_check(&b));
}

#[test]
fn check_is_seen() {
    let b = board_from_fen("4k3/8/8/8/8/8/4r3/4K3 w - - 0 1").unwrap();
    assert!(is_check(&b));
    let c = board_from_fen("4k3/8/8/8/8/8/3r4/4K3 w - - 0 1").unwrap();
    assert!(!is_check(&c));
    let d = board_from_fen("4k3/8/8/8/8/5n2/8/4K3 w - - 0 1").unwrap();
    assert!(is_check(&d));
    let e = board_from_fen("4k3/8/8/8/8/8/3p4/4K3 w - - 0 1").unwrap();
    assert!(is_check(&e));
}

#[test]
fn null_move_passes_the_turn() {
    let mut b =
        board_from_fen("rnbqkbnr/ppp1pppp/8/3pP3/8/8/PPPP1PPP/RNBQKBNR w KQkq d6 0 2").unwrap();
    let before = b.clone();
    make_null_move(&mut b);
    assert_eq!(b.move_color, -1);
    assert_eq!(b.en_passant, None);
    assert_eq!(b.zobrist_hash, b.compute_hash());
    assert_eq!(b.bitboards, before.bitboards);
    undo_null_move(&mut b);
    assert_eq!(b, before);
}

#[test]
fn fifty_moves_and_repetition_are_draws() {
    let b = board_from_fen("4k3/8/8/8/8/8/8/4K2R w - - 100 80").unwrap();
    assert!(b.is_draw());
    let c = board_from_fen("4k3/8/8/8/8/8/8/4K2R w - - 99 80").unwrap();
    assert!(!c.is_draw());
    let mut d = board_from_fen("4k3/8/8/8/8/8/8/4K2R w - - 0 1").unwrap();
    for uci in ["h1h2", "e8d8", "h2h1", "d8e8"] {
        assert!(!d.is_draw());
        let m = find(&mut d, uci);
        make_move(&mut d, &m).unwrap();
    }
    assert!(d.is_draw());
}

#[test]
fn empty_board_is_well_formed() {
    let b = Board::empty();
    assert_eq!(b.bitboards, [0u64; 8]);
    assert_eq!(b.zobrist_hash, b.compute_hash());
    assert_eq!(b.pawn_hash, 0);
    assert_eq!(b.move_color, 1);
}

#[test]
fn position_is_written_as_it_was_read() {
    for fen in [
        START,
        KIWIPETE,
        "rnbqkbnr/ppp1pppp/8/3pP3/8/8/PPPP1PPP/RNBQKBNR w KQkq d6 0 2",
        "8/2p5/3p4/KP5r/1R3p1k/8/4P1P1/8 b - - 3 40",
        "4k3/8/8/8/8/8/8/4K3 w - - 255 65535",
        "r3k2r/8/8/8/8/8/8/R3K2R b Kq - 100 1",
    ] {
        let b = board_from_fen(fen).unwrap();
        assert_eq!(b.to_fen(), fen);
        assert_eq!(b.to_fen_bytes(), fen.as_bytes());
    }
    assert_eq!(Board::empty().to_fen(), "8/8/8/8/8/8/8/8 w - - 0 1");
}

#[test]
fn move_buffer_can_be_filtered_and_sorted() {
    let mut b = board_from_fen(KIWIPETE).unwrap();
    b.gen_moves(true);
    let all = b.moves.iter();
    assert_eq!(all.len(), 48);
    let mut captures = b.moves;
    captures.retain(|m| m.is_capture());
    assert_eq!(captures.len(), 8);
    assert!(captures.iter().iter().all(|m| m.is_capture()));
    // what is kept keeps its order
    let expected: Vec<_> = all.iter().filter(|m| m.is_capture()).copied().collect();
    assert_eq!(captures.iter(), expected);
    let mut by_to = b.moves;
    by_to.score_moves(|m| m.to_square() as i32);
    let sorted = by_to.iter();
    assert_eq!(sorted.len(), 48);
    for w in sorted.windows(2) {
        assert!(w[0].to_square() >= w[1].to_square());
    }
    // moves of equal score keep the order of the generator
    let mut stable = all.clone();
    stable.sort_by_key(|m| std::cmp::Reverse(m.to_square()));
    assert_eq!(sorted, stable);
    let board = b.clone();
    let mut by_victim = b.moves;
    by_victim.sort_by_capture_value(|m| board.captured_piece(m));
    let first = by_victim.first();
    assert!(first.is_capture());
    // the most valuable piece that can be taken is a bishop or a knight
    assert_eq!(board.captured_piece(&first).map(|k| k.idx()).unwrap() >= 3, true);
    let mut scored = b.moves;
    scored.reorder(&vec![0; 48]);
    assert_eq!(scored.iter(), all);
}

#[test]
fn sliding_moves_of_one_piece() {
    let mut b = board_from_fen("4k3/8/8/8/3R4/8/8/4K3 w - - 0 1").unwrap();
    b.moves.clear();
    b.gen_sliding_moves(27, true, true, false);
    assert_eq!(b.moves.len(), 14);
    assert!(b.moves.iter().iter().all(|m| m.from_square() == 27));
}
