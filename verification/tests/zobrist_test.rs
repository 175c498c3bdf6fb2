use bytechess::fen::board_from_fen;
use bytechess::makemove::make_move;
use bytechess::square::BBPiece;
use bytechess::zobrist::{castling_key, ep_key, mix, piece_key, side_key, zobrist_piece_index};

#[test]
fn mixing_function() {
    assert_eq!(mix(0), 0xe220_a839_7b1d_cdaf);
    assert_ne!(mix(1), mix(2));
    assert_ne!(mix(1), 1);
}

#[test]
fn key_numbers() {
    assert_eq!(zobrist_piece_index(BBPiece::Pawn, BBPiece::White), 0);
    assert_eq!(zobrist_piece_index(BBPiece::King, BBPiece::White), 5);
    assert_eq!(zobrist_piece_index(BBPiece::Pawn, BBPiece::Black), 6);
    assert_eq!(zobrist_piece_index(BBPiece::King, BBPiece::Black), 11);
    assert_eq!(piece_key(BBPiece::Pawn, true, 0), mix(0));
    assert_eq!(piece_key(BBPiece::Knight, true, 3), mix(67));
    assert_eq!(piece_key(BBPiece::King, false, 63), mix(767));
    assert_eq!(castling_key(0), mix(768));
    assert_eq!(castling_key(15), mix(783));
    assert_eq!(ep_key(0), mix(784));
    assert_eq!(ep_key(7), mix(791));
    assert_eq!(side_key(), mix(792));
}

#[test]
fn hash_is_the_sum_of_the_keys() {
    let b = board_from_fen("4k3/8/8/8/8/8/4P3/4K3 b - - 0 1").unwrap();
    let expected = piece_key(BBPiece::King, true, 4)
        ^ piece_key(BBPiece::Pawn, true, 12)
        ^ piece_key(BBPiece::King, false, 60)
        ^ castling_key(0)
        ^ side_key();
    assert_eq!(b.zobrist_hash, expected);
    assert_eq!(b.pawn_hash, piece_key(BBPiece::Pawn, true, 12));
    let w = board_from_fen("4k3/8/8/8/8/8/4P3/4K3 w - - 0 1").unwrap();
    assert_eq!(w.zobrist_hash, expected ^ side_key());
}

#[test]
fn hash_takes_in_castling_rights_and_en_passant_file() {
    let mut b = board_from_fen("r3k2r/8/8/8/8/8/4P3/R3K2R w KQkq - 0 1").unwrap();
    let without = board_from_fen("r3k2r/8/8/8/8/8/4P3/R3K2R w Qkq - 0 1").unwrap();
    assert_eq!(b.zobrist_hash ^ castling_key(15) ^ castling_key(14), without.zobrist_hash);
    b.gen_moves(false);
    let push = b.moves.iter().into_iter().find(|m| m.to_uci() == "e2e4").unwrap();
    let before = b.zobrist_hash;
    make_move(&mut b, &push).unwrap();
    assert_eq!(
        b.zobrist_hash,
        before
            ^ piece_key(BBPiece::Pawn, true, 12)
            ^ piece_key(BBPiece::Pawn, true, 28)
            ^ side_key()
            ^ ep_key(4)
    );
    assert_eq!(
        b.pawn_hash,
        piece_key(BBPiece::Pawn, true, 28)
    );
}
