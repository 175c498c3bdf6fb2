use bytechess::moves::{Move, MoveFlag, MoveStack, MOVE_CAPACITY, PIECE_VALUES};
use bytechess::square::{idx_to_sq, sq_to_idx, BBPiece, Color, Squares};

#[test]
fn move_packs_and_unpacks_its_parts() {
    let m = Move::from_parts(12, 28, MoveFlag::DoublePush.bits());
    assert_eq!(m.from_square(), 12);
    assert_eq!(m.to_square(), 28);
    assert_eq!(m.flags(), 1);
    assert_eq!(m.info, (1 << 12) | (12 << 6) | 28);
}

#[test]
fn move_keeps_only_the_low_bits_of_its_parts() {
    let m = Move::from_parts(64 + 3, 128 + 5, 16 + 4);
    assert_eq!(m.from_square(), 3);
    assert_eq!(m.to_square(), 5);
    assert_eq!(m.flags(), 4);
}

#[test]
fn move_setters_change_one_part() {
    let mut m = Move::from_parts(1, 2, 3);
    m.set_from_square(60);
    assert_eq!((m.from_square(), m.to_square(), m.flags()), (60, 2, 3));
    m.set_to_square(7);
    assert_eq!((m.from_square(), m.to_square(), m.flags()), (60, 7, 3));
    m.set_flags(15);
    assert_eq!((m.from_square(), m.to_square(), m.flags()), (60, 7, 15));
}

#[test]
fn null_move_is_zero() {
    assert_eq!(Move::null().info, 0);
    assert_eq!(Move::null(), Move { info: 0 });
}

#[test]
fn flag_bits_round_trip() {
    for bits in 0u8..16 {
        match MoveFlag::from_bits(bits) {
            Some(f) => assert_eq!(f.bits(), bits),
            None => assert!(bits == 6 || bits == 7),
        }
    }
    assert_eq!(MoveFlag::QueenPromoCapture.bits(), 15);
    assert_eq!(MoveFlag::EnPassant.bits(), 5);
}

#[test]
fn move_in_coordinate_notation() {
    assert_eq!(Move::from_parts(12, 28, 1).to_uci(), "e2e4");
    assert_eq!(Move::from_parts(48, 56, 11).to_uci(), "a7a8q");
    assert_eq!(Move::from_parts(48, 57, 12).to_uci(), "a7b8n");
    assert_eq!(Move::from_parts(8, 0, 9).to_uci(), "a2a1b");
    assert_eq!(Move::from_parts(8, 0, 14).to_uci(), "a2a1r");
    assert_eq!(Move::from_parts(4, 6, 2).to_uci(), "e1g1");
}

#[test]
fn squares_in_algebraic_notation() {
    assert_eq!(sq_to_idx("a1"), Some(0));
    assert_eq!(sq_to_idx("h8"), Some(63));
    assert_eq!(sq_to_idx("e4"), Some(28));
    assert_eq!(sq_to_idx("i1"), None);
    assert_eq!(sq_to_idx("a9"), None);
    assert_eq!(sq_to_idx("a"), None);
    assert_eq!(sq_to_idx("a1b"), None);
    assert_eq!(sq_to_idx(""), None);
    assert_eq!(idx_to_sq(0), "a1");
    assert_eq!(idx_to_sq(63), "h8");
    assert_eq!(idx_to_sq(28), "e4");
    for i in 0..64 {
        assert_eq!(sq_to_idx(&idx_to_sq(i)), Some(i));
    }
}

#[test]
fn square_names_and_slots() {
    assert_eq!(Squares::A1.idx(), 0);
    assert_eq!(Squares::E1.idx(), 4);
    assert_eq!(Squares::H8.idx(), 63);
    assert_eq!(BBPiece::White.idx(), 0);
    assert_eq!(BBPiece::King.idx(), 7);
    assert_eq!(BBPiece::from(2), BBPiece::Pawn);
    assert_eq!(BBPiece::from(6), BBPiece::Queen);
    assert_eq!(Color::White.sign(), 1);
    assert_eq!(Color::Black.sign(), -1);
}

#[test]
fn stack_push_and_pop() {
    let mut s = MoveStack::new();
    assert!(s.is_empty());
    assert_eq!(s.first(), Move::null());
    assert_eq!(s.pop(), Move::null());
    let a = Move::from_parts(1, 2, 0);
    let b = Move::from_parts(3, 4, 4);
    assert!(s.push(a).is_ok());
    assert!(s.push(b).is_ok());
    assert_eq!(s.len(), 2);
    assert_eq!(s.first(), a);
    assert_eq!(s.iter(), vec![a, b]);
    assert!(s.contains(b));
    assert_eq!(s.pop(), b);
    assert_eq!(s.len(), 1);
    assert!(!s.contains(b));
    s.clear();
    assert!(s.is_empty());
}

#[test]
fn stack_is_full_at_capacity() {
    let mut s = MoveStack::new();
    for i in 0..MOVE_CAPACITY {
        assert!(s.push(Move { info: i as u16 }).is_ok());
    }
    assert_eq!(s.len(), MOVE_CAPACITY);
    assert_eq!(s.push(Move { info: 9 }), Err("Stack full"));
    assert_eq!(s.insert(0, Move { info: 9 }), Err("MoveStack is full"));
    assert_eq!(s.len(), MOVE_CAPACITY);
    assert_eq!(s.get(255), Move { info: 255 });
}

#[test]
fn stack_insert_remove_and_move_to_front() {
    let mut s = MoveStack::new();
    let m = |i: u16| Move { info: i };
    s.extend(&[m(1), m(2), m(3)]);
    assert_eq!(s.insert(1, m(9)), Ok(()));
    assert_eq!(s.iter(), vec![m(1), m(9), m(2), m(3)]);
    assert_eq!(s.insert(5, m(7)), Err("Index out of bounds"));
    assert_eq!(s.insert(4, m(7)), Ok(()));
    assert_eq!(s.iter(), vec![m(1), m(9), m(2), m(3), m(7)]);
    assert_eq!(s.remove(1), m(9));
    assert_eq!(s.iter(), vec![m(1), m(2), m(3), m(7)]);
    assert_eq!(s.remove(10), Move::null());
    assert_eq!(s.len(), 4);
    s.move_to_front(2);
    assert_eq!(s.iter(), vec![m(3), m(1), m(2), m(7)]);
    s.move_to_front(9);
    assert_eq!(s.iter(), vec![m(3), m(1), m(2), m(7)]);
    s.swap(0, 3);
    assert_eq!(s.iter(), vec![m(7), m(1), m(2), m(3)]);
    s.set(1, m(5));
    assert_eq!(s.get(1), m(5));
}

#[test]
fn stack_extend_stops_when_full() {
    let mut s = MoveStack::new();
    let many: Vec<Move> = (0..300u16).map(|i| Move { info: i }).collect();
    s.extend(&many);
    assert_eq!(s.len(), MOVE_CAPACITY);
    assert_eq!(s.get(255), Move { info: 255 });
}

#[test]
fn ordering_scores_follow_the_formula() {
    let quiet = Move::from_parts(1, 2, 0);
    let capture = Move::from_parts(1, 2, 4);
    let promo = Move::from_parts(48, 56, 11);
    let promo_capture = Move::from_parts(48, 57, 15);
    let none = [Move::null(), Move::null()];
    // the remembered move comes first whatever else it is
    assert_eq!(quiet.score_move(&quiet, Some(quiet), &none, None, None), 1_000_000);
    // pawn takes queen: 10000 + 10 * 905 - 71 + 5000
    assert_eq!(
        capture.score_move(&capture, None, &none, Some(BBPiece::Pawn), Some(BBPiece::Queen)),
        10_000 + 10 * PIECE_VALUES[6] - PIECE_VALUES[2] + 5_000
    );
    assert_eq!(
        capture.score_move(&capture, None, &none, Some(BBPiece::Pawn), Some(BBPiece::Queen)),
        23_979
    );
    // queen takes pawn: no bonus for a good capture
    assert_eq!(
        capture.score_move(&capture, None, &none, Some(BBPiece::Queen), Some(BBPiece::Pawn)),
        10_000 + 710 - 905
    );
    // a capture whose victim is not known scores nothing for the capture
    assert_eq!(capture.score_move(&capture, None, &none, Some(BBPiece::Pawn), None), 0);
    assert_eq!(promo.score_move(&promo, None, &none, Some(BBPiece::Pawn), None), 8_000);
    assert_eq!(
        promo_capture.score_move(
            &promo_capture,
            None,
            &none,
            Some(BBPiece::Pawn),
            Some(BBPiece::Rook)
        ),
        10_000 + 4_560 - 71 + 5_000 + 8_000
    );
    // killers, first and second slot; a capture is never a killer
    let killers = [quiet, promo];
    assert_eq!(quiet.score_move(&quiet, None, &killers, Some(BBPiece::Knight), None), 7_000);
    assert_eq!(promo.score_move(&promo, None, &killers, Some(BBPiece::Pawn), None), 8_000 + 6_000);
    let killers2 = [capture, capture];
    assert_eq!(
        capture.score_move(&capture, None, &killers2, Some(BBPiece::Pawn), Some(BBPiece::Pawn)),
        10_000 + 710 - 71 + 5_000
    );
}

#[test]
fn sort_by_a_comparison_is_stable() {
    let mut s = MoveStack::new();
    let given = [(5u8, 9u8), (1, 30), (5, 2), (3, 7), (1, 4), (5, 1)];
    for (from, to) in given {
        s.push(Move::from_parts(from, to, 0)).unwrap();
    }
    s.sort_by(|a, b| a.from_square().cmp(&b.from_square()));
    let got: Vec<(u8, u8)> = s.iter().iter().map(|m| (m.from_square(), m.to_square())).collect();
    assert_eq!(got, vec![(1, 30), (1, 4), (3, 7), (5, 9), (5, 2), (5, 1)]);
    // descending, and again stable
    s.sort_by(|a, b| b.from_square().cmp(&a.from_square()));
    let got: Vec<(u8, u8)> = s.iter().iter().map(|m| (m.from_square(), m.to_square())).collect();
    assert_eq!(got, vec![(5, 9), (5, 2), (5, 1), (3, 7), (1, 30), (1, 4)]);
    // a comparison that calls everything equal changes nothing
    s.sort_by(|_, _| std::cmp::Ordering::Equal);
    let same: Vec<(u8, u8)> = s.iter().iter().map(|m| (m.from_square(), m.to_square())).collect();
    assert_eq!(same, got);
    assert_eq!(s.len(), 6);
    let mut empty = MoveStack::new();
    empty.sort_by(|a, b| a.to_square().cmp(&b.to_square()));
    assert!(empty.is_empty());
}
