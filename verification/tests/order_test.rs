use bytechess::board::Board;
use bytechess::fen::board_from_fen;
use bytechess::moves::Move;

const POSITIONS: [&str; 6] = [
    "rnbqkbnr/pppppppp/8/8/8/8/PPPPPPPP/RNBQKBNR w KQkq - 0 1",
    "r3k2r/p1ppqpb1/bn2pnp1/3PN3/1p2P3/2N2Q1p/PPPBBPPP/R3K2R w KQkq - 0 1",
    "r3k2r/p1ppqpb1/bn2pnp1/3PN3/1p2P3/2N2Q1p/PPPBBPPP/R3K2R b KQkq - 0 1",
    "8/2p5/3p4/KP5r/1R3p1k/8/4P1P1/8 w - - 0 1",
    "4k3/P6P/8/8/8/8/p6p/4K3 w - - 0 1",
    "rnbqkbnr/ppp1pppp/8/8/3pP3/8/PPPP1PPP/RNBQKBNR b KQkq e3 0 2",
];

fn generated(b: &mut Board, legal_only: bool) -> Vec<Move> {
    b.gen_moves(legal_only);
    b.moves.iter()
}

// the step of the generator that lists a move: pawn pushes, double pushes,
// captures to either side, en-passant captures to either side, knights,
// bishops, rooks, queens, castling, king steps
fn step_of(b: &Board, m: &Move) -> u32 {
    let from = m.from_square() as i32;
    let to = m.to_square() as i32;
    let d = (to - from).abs();
    match b.piece_at(from as usize).unwrap().kind.idx() {
        2 => {
            if d == 8 {
                0
            } else if d == 16 {
                1
            } else if m.flags() == 5 {
                if d == 7 {
                    4
                } else {
                    5
                }
            } else if d == 7 {
                2
            } else {
                3
            }
        }
        3 => 6,
        4 => 7,
        5 => 8,
        6 => 9,
        _ => {
            if m.flags() == 2 || m.flags() == 3 {
                10
            } else {
                11
            }
        }
    }
}

fn place_of(b: &Board, m: &Move) -> u32 {
    let step = step_of(b, m);
    let flags = m.flags() as u32;
    let within = if step == 10 {
        flags
    } else {
        let flag_place = if flags < 8 {
            flags
        } else {
            (flags / 4) * 4 + [2, 3, 1, 0][(flags % 4) as usize]
        };
        m.from_square() as u32 * 1024 + m.to_square() as u32 * 16 + flag_place
    };
    step * 65536 + within
}

#[test]
fn legal_moves_are_the_pseudo_legal_moves_without_the_illegal_ones_in_order() {
    for fen in POSITIONS {
        let mut b = board_from_fen(fen).unwrap();
        let all = generated(&mut b, false);
        let legal = generated(&mut b, true);
        let mut kept = Vec::new();
        for m in &all {
            if b.is_legal_move(m) {
                kept.push(*m);
            }
        }
        assert_eq!(legal, kept, "{fen}");
    }
}

#[test]
fn moves_come_in_the_order_of_the_generator() {
    for fen in POSITIONS {
        let mut b = board_from_fen(fen).unwrap();
        for legal_only in [false, true] {
            let moves = generated(&mut b, legal_only);
            for pair in moves.windows(2) {
                assert!(place_of(&b, &pair[0]) < place_of(&b, &pair[1]), "{fen}");
            }
        }
    }
}

#[test]
fn promotions_come_queen_rook_knight_bishop() {
    let mut b = board_from_fen("4k3/P7/8/8/8/8/8/4K3 w - - 0 1").unwrap();
    let moves = generated(&mut b, true);
    let ucis: Vec<String> = moves.iter().map(|m| m.to_uci()).collect();
    assert_eq!(&ucis[0..4], ["a7a8q", "a7a8r", "a7a8n", "a7a8b"]);
}

#[test]
fn castling_comes_king_side_first() {
    let mut b = board_from_fen("r3k2r/8/8/8/8/8/8/R3K2R w KQkq - 0 1").unwrap();
    let moves = generated(&mut b, true);
    let ucis: Vec<String> = moves.iter().map(|m| m.to_uci()).collect();
    let short = ucis.iter().position(|u| u == "e1g1").unwrap();
    let long = ucis.iter().position(|u| u == "e1c1").unwrap();
    assert_eq!(long, short + 1);
}

#[test]
fn sliding_moves_are_appended_to_what_the_buffer_holds() {
    let mut b = board_from_fen("4k3/8/8/8/3R4/8/8/4K3 w - - 0 1").unwrap();
    b.gen_moves(true);
    let held = b.moves.iter();
    assert!(held.iter().any(|m| m.from_square() == 27));
    b.gen_sliding_moves(27, true, true, false);
    let now = b.moves.iter();
    assert_eq!(now.len(), held.len() + 14);
    assert_eq!(&now[..held.len()], &held[..]);
    let added = &now[held.len()..];
    assert!(added.iter().all(|m| m.from_square() == 27));
    for pair in added.windows(2) {
        assert!(pair[0].to_square() < pair[1].to_square());
    }
}

#[test]
fn sliding_moves_stop_when_the_buffer_is_full() {
    let mut b = board_from_fen("4k3/8/8/8/3R4/8/8/4K3 w - - 0 1").unwrap();
    b.moves.clear();
    for _ in 0..250 {
        b.moves.push(Move::null()).unwrap();
    }
    b.gen_sliding_moves(27, true, true, false);
    let now = b.moves.iter();
    assert_eq!(now.len(), 256);
    let mut fresh = board_from_fen("4k3/8/8/8/3R4/8/8/4K3 w - - 0 1").unwrap();
    fresh.moves.clear();
    fresh.gen_sliding_moves(27, true, true, false);
    assert_eq!(&now[250..], &fresh.moves.iter()[..6]);
}
