use std::time::Instant;

use bytechess::board::Board;
use bytechess::fen::board_from_fen;
use bytechess::makemove::make_move;
use bytechess::moves::Move;
use bytechess::search::{
    is_pawn_endgame, iteration_due, minimax, minimax_captures, search_root_move, think,
    think_start, think_step, think_time_for, time_is_up, SearchInfo,
};
use bytechess::table::{Bound, TTEntry, TranspositionTable, SCORE_INF};

const START: &str = "rnbqkbnr/pppppppp/8/8/8/8/PPPPPPPP/RNBQKBNR w KQkq - 0 1";

fn legal_ucis(b: &mut Board) -> Vec<String> {
    b.gen_moves(true);
    b.moves.iter().iter().map(|m| m.to_uci()).collect()
}

fn find(b: &mut Board, uci: &str) -> Move {
    b.gen_moves(false);
    let all = b.moves.iter();
    *all.iter().find(|m| m.to_uci() == uci).unwrap()
}

#[test]
fn time_budget() {
    assert_eq!(think_time_for(60000, 0), 3000);
    assert_eq!(think_time_for(60000, 1000), 3500);
    assert_eq!(think_time_for(0, 0), 0);
    assert!(time_is_up(3001, 3000));
    assert!(!time_is_up(3000, 3000));
}

#[test]
fn killers_shift() {
    let mut info = SearchInfo::new();
    let a = Move::from_parts(1, 2, 0);
    let b = Move::from_parts(3, 4, 0);
    info.update_killer(5, a);
    assert_eq!(info.killer_moves[5], [a, Move::null()]);
    info.update_killer(5, a);
    assert_eq!(info.killer_moves[5], [a, Move::null()]);
    info.update_killer(5, b);
    assert_eq!(info.killer_moves[5], [b, a]);
    assert_eq!(info.killer_moves[4], [Move::null(), Move::null()]);
    info.update_killer(64, a);
    info.nodes = 17;
    info.stopped = true;
    info.next_move();
    assert_eq!(info.nodes, 0);
    assert!(!info.stopped);
    assert_eq!(info.killer_moves[5], [b, a]);
}

#[test]
fn mate_in_one_is_found() {
    let mut b = board_from_fen("6k1/5ppp/8/8/8/8/5PPP/R5K1 w - - 0 1").unwrap();
    let before = b.clone();
    let mut tt = TranspositionTable::with_size_mib(1);
    let mut info = SearchInfo::new();
    let timer = Instant::now();
    let r = think(&mut b, 5000, &timer, &mut tt, &mut info);
    assert_eq!(r.best_move.to_uci(), "a1a8");
    let last = r.reports.last().unwrap();
    assert!(last.score >= 99_000);
    assert_eq!(last.best_move.to_uci(), "a1a8");
    assert_eq!(last.pv.first().unwrap().to_uci(), "a1a8");
    assert_eq!(b.bitboards, before.bitboards);
    assert_eq!(b.zobrist_hash, before.zobrist_hash);
    assert_eq!(b.move_history, before.move_history);
}

#[test]
fn best_move_from_the_start_is_legal() {
    let mut b = board_from_fen(START).unwrap();
    let legal = legal_ucis(&mut b);
    let mut tt = TranspositionTable::with_size_mib(16);
    let mut info = SearchInfo::new();
    let timer = Instant::now();
    let r = think(&mut b, think_time_for(60000, 0), &timer, &mut tt, &mut info);
    assert!(legal.contains(&r.best_move.to_uci()));
    assert!(r.reports.last().unwrap().depth >= 6);
    assert!(timer.elapsed().as_millis() < 6000);
    assert!(info.nodes > 0);
    for (i, rep) in r.reports.iter().enumerate() {
        assert_eq!(rep.depth, i as i32);
        assert!(legal.contains(&rep.best_move.to_uci()));
    }
}

#[test]
fn best_move_is_legal_when_in_check() {
    let mut b = board_from_fen("4k3/8/8/8/8/8/4r3/4K3 w - - 0 1").unwrap();
    let legal = legal_ucis(&mut b);
    let mut tt = TranspositionTable::with_size_mib(1);
    let mut info = SearchInfo::new();
    let timer = Instant::now();
    let r = think(&mut b, 300, &timer, &mut tt, &mut info);
    assert!(legal.contains(&r.best_move.to_uci()));
}

#[test]
fn no_legal_move_gives_the_null_move() {
    // stalemate
    let mut b = board_from_fen("7k/5Q2/6K1/8/8/8/8/8 b - - 0 1").unwrap();
    let mut tt = TranspositionTable::with_size_mib(1);
    let mut info = SearchInfo::new();
    let timer = Instant::now();
    let r = think(&mut b, 300, &timer, &mut tt, &mut info);
    assert_eq!(r.best_move, Move::null());
    assert!(r.reports.is_empty());
}

#[test]
fn only_move_is_played_at_once() {
    let mut b = board_from_fen("7k/8/8/8/8/8/r7/1r5K w - - 0 1").unwrap();
    // the king is in check from b1 and has no square; is it mate? h1: g1 and h2 and g2
    // are attacked by the rooks, so White is mated and has no move
    let legal = legal_ucis(&mut b);
    assert!(legal.is_empty());
    let mut c = board_from_fen("k7/8/8/8/8/8/r7/7K w - - 0 1").unwrap();
    let legal = legal_ucis(&mut c);
    assert_eq!(legal, vec!["h1g1".to_string()]);
    let mut tt = TranspositionTable::with_size_mib(1);
    let mut info = SearchInfo::new();
    let timer = Instant::now();
    let r = think(&mut c, 10_000, &timer, &mut tt, &mut info);
    assert_eq!(r.best_move.to_uci(), "h1g1");
    assert!(timer.elapsed().as_millis() < 5000);
}

#[test]
fn repeated_position_is_worth_nothing() {
    let mut b = board_from_fen("4k3/8/8/8/8/8/8/4K2R w - - 0 1").unwrap();
    for uci in ["h1h2", "e8d8", "h2h1", "d8e8"] {
        let m = find(&mut b, uci);
        make_move(&mut b, &m).unwrap();
    }
    assert!(b.is_draw());
    let mut tt = TranspositionTable::with_size_mib(1);
    let mut info = SearchInfo::new();
    let timer = Instant::now();
    let mut pv = Vec::new();
    let v = minimax(&mut b, 3, 0, -SCORE_INF, SCORE_INF, 10_000, &timer, &mut tt, &mut pv, &mut info);
    assert_eq!(v, 0);
    assert!(pv.is_empty());
}

#[test]
fn fifty_move_position_is_worth_nothing() {
    let mut b = board_from_fen("4k3/8/8/8/8/8/8/4K2R w - - 100 80").unwrap();
    let mut tt = TranspositionTable::with_size_mib(1);
    let mut info = SearchInfo::new();
    let timer = Instant::now();
    let mut pv = Vec::new();
    let v = minimax(&mut b, 2, 0, -SCORE_INF, SCORE_INF, 10_000, &timer, &mut tt, &mut pv, &mut info);
    assert_eq!(v, 0);
}

#[test]
fn mated_side_scores_the_mate() {
    let mut b = board_from_fen("R5k1/5ppp/8/8/8/8/5PPP/6K1 b - - 0 1").unwrap();
    let mut tt = TranspositionTable::with_size_mib(1);
    let mut info = SearchInfo::new();
    let timer = Instant::now();
    let mut pv = Vec::new();
    let before = b.clone();
    let v = minimax(&mut b, 1, 4, -SCORE_INF, SCORE_INF, 10_000, &timer, &mut tt, &mut pv, &mut info);
    assert_eq!(v, 4 - 100_000);
    assert_eq!(b.bitboards, before.bitboards);
    // stalemate is worth nothing
    let mut s = board_from_fen("7k/5Q2/6K1/8/8/8/8/8 b - - 0 1").unwrap();
    let w = minimax(&mut s, 1, 0, -SCORE_INF, SCORE_INF, 10_000, &timer, &mut tt, &mut pv, &mut info);
    assert_eq!(w, 0);
}

#[test]
fn quiescence_takes_a_hanging_piece() {
    let mut info = SearchInfo::new();
    // White to move can take the queen on d5 with the pawn on e4
    let mut b = board_from_fen("4k3/8/8/3q4/4P3/8/8/4K3 w - - 0 1").unwrap();
    let stand = bytechess::eval::evaluate(&b, &info.params.clone(), &mut info.pawns);
    let v = minimax_captures(&mut b, 0, -SCORE_INF, SCORE_INF, 2, &mut info);
    assert!(v > stand + 500);
    // with a window below the stand-pat score the search fails high at once
    let w = minimax_captures(&mut b, 0, -SCORE_INF, stand - 10, 2, &mut info);
    assert_eq!(w, stand - 10);
}

#[test]
fn pawn_endgames_are_recognised() {
    assert!(is_pawn_endgame(&board_from_fen("4k3/8/8/8/8/8/4P3/4K3 w - - 0 1").unwrap()));
    assert!(is_pawn_endgame(&board_from_fen("4k3/4q3/8/8/8/8/4P3/4K3 w - - 0 1").unwrap()));
    assert!(!is_pawn_endgame(&board_from_fen("4k3/4q3/8/8/8/8/4P3/4K3 b - - 0 1").unwrap()));
    assert!(!is_pawn_endgame(&board_from_fen(START).unwrap()));
}

#[test]
fn ordered_moves_put_captures_first() {
    let mut b = board_from_fen("4k3/8/8/3q4/4P3/8/8/4K2R w K - 0 1").unwrap();
    let killers = [Move::null(), Move::null()];
    let ordered = b.get_ordered_moves(false, true, false, None, &killers);
    assert_eq!(ordered.first().to_uci(), "e4d5");
    let quiet = find(&mut b, "h1h5");
    let with_tt = b.get_ordered_moves(false, true, false, Some(quiet), &killers);
    assert_eq!(with_tt.first(), quiet);
    assert_eq!(with_tt.get(1).to_uci(), "e4d5");
    let killer = find(&mut b, "e1e2");
    let with_killer = b.get_ordered_moves(false, true, false, None, &[Move::null(), killer]);
    assert_eq!(with_killer.get(0).to_uci(), "e4d5");
    assert_eq!(with_killer.get(1), killer);
    let only = b.get_ordered_moves(false, true, true, None, &killers);
    assert_eq!(only.len(), 1);
    assert_eq!(only.first().to_uci(), "e4d5");
    b.gen_moves(false);
    let n = b.moves.len();
    b.captures_only();
    assert!(n > 1);
    assert_eq!(b.moves.len(), 1);
}

#[test]
fn search_can_be_stepped() {
    let mut b = board_from_fen("6k1/5ppp/8/8/8/8/5PPP/R5K1 w - - 0 1").unwrap();
    let legal = legal_ucis(&mut b);
    let mut tt = TranspositionTable::with_size_mib(1);
    let mut info = SearchInfo::new();
    info.nodes = 5;
    let timer = Instant::now();
    let mut state = bytechess::search::think_start(&mut b, &mut tt, &mut info);
    assert_eq!(info.nodes, 0);
    assert_eq!(tt.age, 1);
    assert!(state.running);
    assert_eq!(state.depth, 0);
    assert!(legal.contains(&state.best_move.to_uci()));
    let first =
        bytechess::search::think_step(&mut state, &mut b, 10_000, &timer, &mut tt, &mut info).unwrap();
    assert_eq!(first.depth, 0);
    assert_eq!(state.depth, 1);
    assert_eq!(state.best_move, first.best_move);
    assert_eq!(state.prev_eval, first.score);
    let second =
        bytechess::search::think_step(&mut state, &mut b, 10_000, &timer, &mut tt, &mut info).unwrap();
    assert_eq!(second.depth, 1);
    assert_eq!(second.best_move.to_uci(), "a1a8");
    assert!(second.score >= 99_000);
    // a mate ends the search
    assert!(!state.running);
    assert!(
        bytechess::search::think_step(&mut state, &mut b, 10_000, &timer, &mut tt, &mut info).is_none()
    );
    assert_eq!(state.best_move.to_uci(), "a1a8");
}

#[test]
fn search_without_time_keeps_the_first_choice() {
    let mut b = board_from_fen(START).unwrap();
    let legal = legal_ucis(&mut b);
    let mut tt = TranspositionTable::with_size_mib(1);
    let mut info = SearchInfo::new();
    let timer = Instant::now();
    while timer.elapsed().as_millis() < 2 {}
    let r = think(&mut b, 0, &timer, &mut tt, &mut info);
    assert!(r.reports.is_empty());
    assert!(legal.contains(&r.best_move.to_uci()));
}

#[test]
fn quiescence_stays_in_its_window() {
    let mut info = SearchInfo::new();
    for fen in [
        START,
        "r3k2r/p1ppqpb1/bn2pnp1/3PN3/1p2P3/2N2Q1p/PPPBBPPP/R3K2R w KQkq - 0 1",
        "4k3/8/8/3q4/4P3/8/8/4K3 w - - 0 1",
    ] {
        let mut b = board_from_fen(fen).unwrap();
        for (alpha, beta) in [(-50, 50), (-SCORE_INF, SCORE_INF), (300, 301), (-2000, -1000)] {
            let v = minimax_captures(&mut b, 0, alpha, beta, 1, &mut info);
            assert!(alpha <= v && v <= beta);
        }
    }
}

#[test]
fn a_repeated_position_leaves_the_table_alone() {
    let mut b = board_from_fen("4k3/8/8/8/8/8/8/4K2R w - - 0 1").unwrap();
    for uci in ["h1h2", "e8d8", "h2h1", "d8e8"] {
        let m = find(&mut b, uci);
        make_move(&mut b, &m).unwrap();
    }
    let mut tt = TranspositionTable::with_size_mib(1);
    let mut info = SearchInfo::new();
    let timer = Instant::now();
    let mut pv = vec![Move::from_parts(1, 2, 0)];
    let v = minimax(&mut b, 3, 0, -SCORE_INF, SCORE_INF, 10_000, &timer, &mut tt, &mut pv, &mut info);
    assert_eq!(v, 0);
    assert!(pv.is_empty());
    assert!(tt.table.iter().all(|slot| slot.is_none()));
    assert_eq!(info.nodes, 1);
}

#[test]
fn a_mated_side_has_no_variation() {
    let mut b = board_from_fen("R5k1/5ppp/8/8/8/8/5PPP/6K1 b - - 0 1").unwrap();
    let mut tt = TranspositionTable::with_size_mib(1);
    let mut info = SearchInfo::new();
    let timer = Instant::now();
    let mut pv = vec![Move::from_parts(1, 2, 0)];
    let v = minimax(&mut b, 2, 3, -SCORE_INF, SCORE_INF, 10_000, &timer, &mut tt, &mut pv, &mut info);
    assert_eq!(v, 3 - 100_000);
    assert!(pv.is_empty());
    assert!(tt.table.iter().all(|slot| slot.is_none()));
    let mut s = board_from_fen("7k/5Q2/6K1/8/8/8/8/8 b - - 0 1").unwrap();
    let mut pv = vec![Move::from_parts(1, 2, 0)];
    let w = minimax(&mut s, 2, 0, -SCORE_INF, SCORE_INF, 10_000, &timer, &mut tt, &mut pv, &mut info);
    assert_eq!(w, 0);
    assert!(pv.is_empty());
}

#[test]
fn the_table_answers_for_a_position_it_knows() {
    let mut b = board_from_fen(START).unwrap();
    let best = find(&mut b, "e2e4");
    let timer = Instant::now();
    for (bound, score, alpha, beta, cut) in [
        (Bound::Exact, 17, -50, 50, true),
        (Bound::Lower, 60, -50, 50, true),
        (Bound::Upper, -60, -50, 50, true),
        (Bound::Lower, 17, -50, 50, false),
        (Bound::Upper, 17, -50, 50, false),
    ] {
        let mut tt = TranspositionTable::with_size_mib(1);
        let mut info = SearchInfo::new();
        let entry = TTEntry {
            zobrist: b.zobrist_hash,
            best_move: Some(best),
            depth: 5,
            score,
            bound,
            age: tt.age,
        };
        tt.store(entry);
        let marker = Move::from_parts(1, 2, 0);
        let mut pv = vec![marker];
        let v = minimax(&mut b, 2, 0, alpha, beta, 10_000, &timer, &mut tt, &mut pv, &mut info);
        if cut {
            assert_eq!(v, score);
            assert_eq!(info.nodes, 1);
            assert_eq!(tt.probe(b.zobrist_hash), Some(&entry));
            if bound == Bound::Exact {
                assert_eq!(pv, vec![best]);
            } else {
                assert_eq!(pv, vec![marker]);
            }
        } else {
            assert!(info.nodes > 1);
        }
    }
    // an entry from a shallower search does not answer
    let mut tt = TranspositionTable::with_size_mib(1);
    let mut info = SearchInfo::new();
    tt.store(TTEntry {
        zobrist: b.zobrist_hash,
        best_move: Some(best),
        depth: 1,
        score: 17,
        bound: Bound::Exact,
        age: tt.age,
    });
    let mut pv = Vec::new();
    minimax(&mut b, 2, 0, -50, 50, 10_000, &timer, &mut tt, &mut pv, &mut info);
    assert!(info.nodes > 1);
}

#[test]
fn a_searched_node_stores_what_it_found() {
    let mut b = board_from_fen(START).unwrap();
    let legal = legal_ucis(&mut b);
    let mut tt = TranspositionTable::with_size_mib(1);
    let mut info = SearchInfo::new();
    let timer = Instant::now();
    let mut pv = Vec::new();
    let v = minimax(&mut b, 2, 0, -SCORE_INF, SCORE_INF, 10_000, &timer, &mut tt, &mut pv, &mut info);
    let e = *tt.probe(b.zobrist_hash).unwrap();
    assert_eq!(e.depth, 2);
    assert_eq!(e.score, v);
    assert_eq!(e.bound, Bound::Exact);
    assert_eq!(e.best_move, Some(pv[0]));
    assert!(legal.contains(&pv[0].to_uci()));
    // a window above the score stores an upper bound without a move
    let mut tt = TranspositionTable::with_size_mib(1);
    let mut info = SearchInfo::new();
    let mut pv = Vec::new();
    let w = minimax(&mut b, 1, 0, v + 500, v + 600, 10_000, &timer, &mut tt, &mut pv, &mut info);
    assert_eq!(w, v + 500);
    let e = *tt.probe(b.zobrist_hash).unwrap();
    assert_eq!((e.bound, e.best_move, e.score), (Bound::Upper, None, v + 500));
    assert!(pv.is_empty());
    // a window below the score stores a lower bound with the move that cut
    let mut tt = TranspositionTable::with_size_mib(1);
    let mut info = SearchInfo::new();
    let mut pv = Vec::new();
    let w = minimax(&mut b, 1, 0, v - 600, v - 500, 10_000, &timer, &mut tt, &mut pv, &mut info);
    assert_eq!(w, v - 500);
    let e = *tt.probe(b.zobrist_hash).unwrap();
    assert_eq!((e.bound, e.best_move, e.score), (Bound::Lower, Some(pv[0]), v - 500));
}

#[test]
fn the_search_is_a_function_of_what_it_is_given() {
    let run = || {
        let mut b = board_from_fen(
            "r3k2r/p1ppqpb1/bn2pnp1/3PN3/1p2P3/2N2Q1p/PPPBBPPP/R3K2R w KQkq - 0 1",
        )
        .unwrap();
        let mut tt = TranspositionTable::with_size_mib(1);
        let mut info = SearchInfo::new();
        let timer = Instant::now();
        let mut pv = Vec::new();
        let v = minimax(&mut b, 3, 0, -SCORE_INF, SCORE_INF, 1_000_000, &timer, &mut tt, &mut pv, &mut info);
        assert!(!info.stopped);
        (v, pv, info.nodes, info.killer_moves, tt.table)
    };
    assert_eq!(run(), run());
}

#[test]
fn quiescence_stands_pat_where_nothing_can_be_taken() {
    let mut info = SearchInfo::new();
    let mut b = board_from_fen(START).unwrap();
    let stand = bytechess::eval::evaluate(&b, &info.params.clone(), &mut info.pawns);
    assert_eq!(minimax_captures(&mut b, 0, -SCORE_INF, SCORE_INF, 2, &mut info), stand);
    assert_eq!(minimax_captures(&mut b, 0, stand + 5, stand + 9, 2, &mut info), stand + 5);
    assert_eq!(minimax_captures(&mut b, 0, stand - 9, stand - 5, 2, &mut info), stand - 5);
    // beyond twice the depth no capture is tried
    let mut c = board_from_fen("4k3/8/8/3q4/4P3/8/8/4K3 w - - 0 1").unwrap();
    let stand = bytechess::eval::evaluate(&c, &info.params.clone(), &mut info.pawns);
    let nodes = info.nodes;
    assert_eq!(minimax_captures(&mut c, 1, -SCORE_INF, SCORE_INF, 0, &mut info), stand);
    assert_eq!(info.nodes, nodes + 1);
}

#[test]
fn a_mating_move_scores_the_mate_at_the_root() {
    let mut b = board_from_fen("6k1/5ppp/8/8/8/8/5PPP/R5K1 w - - 0 1").unwrap();
    let mate = find(&mut b, "a1a8");
    let quiet = find(&mut b, "a1a2");
    let mut tt = TranspositionTable::with_size_mib(1);
    let mut info = SearchInfo::new();
    let timer = Instant::now();
    let mut pv = Vec::new();
    let v = search_root_move(&mut b, mate, 1, -33, 33, 10_000, &timer, &mut tt, &mut pv, &mut info);
    assert_eq!(v, 100_000);
    assert!(pv.is_empty());
    let w = search_root_move(&mut b, quiet, 1, -33, 33, 10_000, &timer, &mut tt, &mut pv, &mut info);
    assert!(w < 99_000);
}

#[test]
fn the_move_played_is_that_of_the_last_report() {
    let mut b = board_from_fen("r3k2r/p1ppqpb1/bn2pnp1/3PN3/1p2P3/2N2Q1p/PPPBBPPP/R3K2R w KQkq - 0 1")
        .unwrap();
    let legal = legal_ucis(&mut b);
    let mut tt = TranspositionTable::with_size_mib(1);
    let mut info = SearchInfo::new();
    let timer = Instant::now();
    let r = think(&mut b, 300, &timer, &mut tt, &mut info);
    assert!(!r.reports.is_empty());
    assert_eq!(r.best_move, r.reports.last().unwrap().best_move);
    for (i, rep) in r.reports.iter().enumerate() {
        assert_eq!(rep.depth, i as i32);
        assert!(legal.contains(&rep.best_move.to_uci()));
        assert_eq!(rep.pv[0], rep.best_move);
    }
}

#[test]
fn no_iteration_beyond_the_deepest() {
    let mut b = board_from_fen(START).unwrap();
    let mut tt = TranspositionTable::with_size_mib(1);
    let mut info = SearchInfo::new();
    let timer = Instant::now();
    let mut state = think_start(&mut b, &mut tt, &mut info);
    state.depth = 65;
    let first = state.best_move;
    assert!(think_step(&mut state, &mut b, 1_000_000, &timer, &mut tt, &mut info).is_none());
    assert!(!state.running);
    assert_eq!(state.best_move, first);
    assert_eq!(state.depth, 65);
}

#[test]
fn the_first_choice_is_the_move_the_table_remembers() {
    let mut b = board_from_fen(START).unwrap();
    let remembered = find(&mut b, "g1f3");
    let mut tt = TranspositionTable::with_size_mib(1);
    let mut info = SearchInfo::new();
    tt.store(TTEntry {
        zobrist: b.zobrist_hash,
        best_move: Some(remembered),
        depth: 1,
        score: 0,
        bound: Bound::Exact,
        age: tt.age,
    });
    let state = think_start(&mut b, &mut tt, &mut info);
    assert_eq!(state.best_move, remembered);
    assert_eq!(state.previous_best, remembered);
    assert!(state.running);
    assert_eq!(tt.age, 1);
    // a move that is not legal here is not chosen
    let mut tt = TranspositionTable::with_size_mib(1);
    tt.store(TTEntry {
        zobrist: b.zobrist_hash,
        best_move: Some(Move::from_parts(0, 63, 0)),
        depth: 1,
        score: 0,
        bound: Bound::Exact,
        age: tt.age,
    });
    let state = think_start(&mut b, &mut tt, &mut info);
    let mut fresh = TranspositionTable::with_size_mib(1);
    let plain = think_start(&mut b, &mut fresh, &mut info);
    assert_eq!(state.best_move, plain.best_move);
    b.gen_moves(true);
    assert!(b.moves.contains(plain.best_move));
}

#[test]
fn two_searches_of_one_position_report_the_same() {
    let run = || {
        let mut b = board_from_fen("6k1/5ppp/8/8/8/8/5PPP/R5K1 w - - 0 1").unwrap();
        let mut tt = TranspositionTable::with_size_mib(1);
        let mut info = SearchInfo::new();
        let timer = Instant::now();
        let mut state = think_start(&mut b, &mut tt, &mut info);
        let mut seen = Vec::new();
        while let Some(rep) = think_step(&mut state, &mut b, 1_000_000, &timer, &mut tt, &mut info) {
            seen.push((rep.depth, rep.score, rep.best_move, rep.pv, rep.nodes));
        }
        seen
    };
    let first = run();
    assert_eq!(first, run());
    assert_eq!(first.len(), 2);
    assert_eq!(first[1].2.to_uci(), "a1a8");
    assert_eq!(first[1].1, 100_000);
}

#[test]
fn a_search_of_few_nodes_is_not_stopped_by_the_clock() {
    let mut b = board_from_fen(START).unwrap();
    let mut tt = TranspositionTable::with_size_mib(1);
    let mut info = SearchInfo::new();
    let timer = Instant::now();
    while timer.elapsed().as_millis() < 2 {}
    let mut pv = Vec::new();
    // no time at all, but the clock is read at every 1024th node only
    let v = minimax(&mut b, 1, 0, -SCORE_INF, SCORE_INF, 0, &timer, &mut tt, &mut pv, &mut info);
    assert!(info.nodes < 1024);
    assert!(!info.stopped);
    let mut tt2 = TranspositionTable::with_size_mib(1);
    let mut info2 = SearchInfo::new();
    let mut pv2 = Vec::new();
    let w = minimax(&mut b, 1, 0, -SCORE_INF, SCORE_INF, 1_000_000, &timer, &mut tt2, &mut pv2, &mut info2);
    assert_eq!((v, pv, info.nodes), (w, pv2, info2.nodes));
    // a search that passes node 1024 without time is stopped there
    let mut tt3 = TranspositionTable::with_size_mib(1);
    let mut info3 = SearchInfo::new();
    let mut pv3 = Vec::new();
    minimax(&mut b, 4, 0, -SCORE_INF, SCORE_INF, 0, &timer, &mut tt3, &mut pv3, &mut info3);
    assert!(info3.stopped);
    assert!(info3.nodes >= 1024);
}

#[test]
fn the_capture_search_stands_pat_beyond_its_cap() {
    let mut info = SearchInfo::new();
    let mut b = board_from_fen("4k3/8/8/3q4/4P3/8/8/4K3 w - - 0 1").unwrap();
    let stand = bytechess::eval::evaluate(&b, &info.params.clone(), &mut info.pawns);
    assert_eq!(minimax_captures(&mut b, 9, -SCORE_INF, SCORE_INF, 1, &mut info), stand);
    assert_eq!(minimax_captures(&mut b, 1_000, stand - 7, SCORE_INF, 0, &mut info), stand);
    assert_eq!(minimax_captures(&mut b, 1_000, stand + 7, SCORE_INF, 0, &mut info), stand + 7);
}

#[test]
fn the_clock_stops_the_search_when_the_time_is_used_up() {
    let mut info = SearchInfo::new();
    info.poll(3000, 3000);
    assert!(!info.stopped);
    info.poll(3001, 3000);
    assert!(info.stopped);
    // and it stays stopped
    info.poll(0, 3000);
    assert!(info.stopped);
    assert_eq!(info.nodes, 0);
}

#[test]
fn an_iteration_is_due_while_there_is_time_and_depth() {
    let mut b = board_from_fen(START).unwrap();
    let mut tt = TranspositionTable::with_size_mib(1);
    let mut info = SearchInfo::new();
    let mut state = think_start(&mut b, &mut tt, &mut info);
    let first = state.best_move;
    assert!(iteration_due(&mut state, 3000, 3000));
    assert!(state.running);
    state.depth = 64;
    assert!(iteration_due(&mut state, 0, 3000));
    let other = Move::from_parts(12, 28, 1);
    state.best_move = other;
    assert!(!iteration_due(&mut state, 3001, 3000));
    assert!(!state.running);
    assert_eq!(state.best_move, first);
    assert_eq!(state.depth, 64);
    // a search that has ended stays as it is
    state.best_move = other;
    assert!(!iteration_due(&mut state, 0, 3000));
    assert_eq!(state.best_move, other);
    let mut deep = think_start(&mut b, &mut tt, &mut info);
    deep.depth = 65;
    assert!(!iteration_due(&mut deep, 0, 3000));
    assert!(!deep.running);
}

#[test]
fn a_drawn_position_is_worth_nothing_at_any_depth_and_window() {
    let mut b = board_from_fen("4k3/8/8/8/8/8/8/4K2R w - - 0 1").unwrap();
    for uci in ["h1h2", "e8d8", "h2h1", "d8e8"] {
        let m = find(&mut b, uci);
        make_move(&mut b, &m).unwrap();
    }
    let before = b.clone();
    let timer = Instant::now();
    for (depth, ply, alpha, beta) in [
        (0, 0, -SCORE_INF, SCORE_INF),
        (i32::MAX, i32::MAX, i32::MIN, i32::MAX),
        (7, 100_000, 5, -5),
        (250, 9, i32::MAX, i32::MIN),
    ] {
        let mut tt = TranspositionTable::with_size_mib(1);
        let mut info = SearchInfo::new();
        let mut pv = vec![Move::from_parts(1, 2, 0)];
        let v = minimax(&mut b, depth, ply, alpha, beta, 10_000, &timer, &mut tt, &mut pv, &mut info);
        assert_eq!(v, 0);
        assert!(pv.is_empty());
        assert!(tt.table.iter().all(|slot| slot.is_none()));
        assert_eq!(b, before);
    }
}
